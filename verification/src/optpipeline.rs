//! The parser of a transcript, and the stages put together.

pub use crate::dump::{
    OptPipelineBackendOptions, OptPipelineResults, Pass, PassDump, PassDumpError,
    PassDumpsByFunction, SplitPassDump,
};
use crate::dump::{PassDumpErrorView, PassDumpView, PassView, SplitPassDumpView};
use crate::filter::{filter_pattern, filtered};
use crate::function::split_functions;
use crate::matcher::{
    changes_told, check_pass_dumps, lemma_changes_told, lemma_matched_table_entries,
    lemma_table_violation_from, matched, matched_table, table_violation,
};
use crate::pattern::{regex_compiles, regex_is_match, regex_source};
use crate::route::{
    associated, by_function, lemma_associated_names, lemma_by_function_names, without_loop,
    FULL_MODULE,
};
use crate::segment::segments;
use crate::table::{distinct_names, has_name, lemma_has_name};
use crate::text::{find_item_from, from_chars, lemma_find_item_from, search_char_from, to_chars};
use regex::Regex;
use vstd::prelude::*;
use vstd::string::StrSliceExecFns;

verus! {

/// A header of an IR dump: three stars, the name, three stars, then an
/// optional note of the function or loop and an optional comment.
pub const IR_DUMP_HEADER: &'static str =
    r"^;?\s?\*{3} (.+) \*{3}(?:\s+\((?:function: |loop: )(%?[\w$.]+)\))?(?:;.+)?$";

/// A header of a machine-code dump.
pub const MACHINE_CODE_DUMP_HEADER: &'static str = r"^# \*{3} (.+) \*{3}:$";

/// The line that ends an IR function: a closing brace alone.
pub const FUNCTION_END: &'static str = r"^}$";

/// The line that ends a machine function.
pub const MACHINE_FUNCTION_END: &'static str = r"^# End machine code for function ([\w$.]+).$";

/// The parser of a transcript: the compiled expressions that recognise the
/// headers of its sections and the ends of its functions.
pub struct LlvmPassDumpParser {
    ir_dump_header: Regex,
    machine_code_dump_header: Regex,
    function_end: Regex,
    machine_function_end: Regex,
}

/// The first of the parser's four patterns that is not compiled, in the
/// order of the two headers, the end of an IR function and the end of a
/// machine function.
pub open spec fn refused_pattern() -> Option<Seq<char>> {
    if !regex_compiles(IR_DUMP_HEADER@) {
        Some(IR_DUMP_HEADER@)
    } else if !regex_compiles(MACHINE_CODE_DUMP_HEADER@) {
        Some(MACHINE_CODE_DUMP_HEADER@)
    } else if !regex_compiles(FUNCTION_END@) {
        Some(FUNCTION_END@)
    } else if !regex_compiles(MACHINE_FUNCTION_END@) {
        Some(MACHINE_FUNCTION_END@)
    } else {
        None
    }
}

/// Compiles `pattern`: the expression that stands for it, where the pattern
/// is one that is compiled, and else the refusal of the pattern.
pub fn compile(pattern: &str) -> (r: Result<Regex, PassDumpError>)
    ensures
        (r is Ok) <==> regex_compiles(pattern@),
        match r {
            Ok(re) => regex_source(re) == pattern@,
            Err(e) => e@ == (PassDumpErrorView::InvalidPattern { pattern: pattern@ }),
        },
{
    match Regex::new(pattern) {
        Ok(re) => Ok(re),
        Err(_) => Err(PassDumpError::InvalidPattern { pattern: pattern.to_owned() }),
    }
}

impl LlvmPassDumpParser {
    /// Each expression was made from the pattern that it is named after.
    #[verifier::type_invariant]
    pub closed spec fn well_formed(&self) -> bool {
        &&& regex_source(self.ir_dump_header) == IR_DUMP_HEADER@
        &&& regex_source(self.machine_code_dump_header) == MACHINE_CODE_DUMP_HEADER@
        &&& regex_source(self.function_end) == FUNCTION_END@
        &&& regex_source(self.machine_function_end) == MACHINE_FUNCTION_END@
    }

    /// A parser, where all four of its patterns are compiled; else the
    /// refusal of the first that is not.
    pub fn new() -> (r: Result<LlvmPassDumpParser, PassDumpError>)
        ensures
            match r {
                Ok(_) => refused_pattern() is None,
                Err(e) => refused_pattern() matches Some(pattern) && e@ == (
                PassDumpErrorView::InvalidPattern { pattern }),
            },
    {
        let ir_dump_header = match compile(IR_DUMP_HEADER) {
            Ok(re) => re,
            Err(e) => { return Err(e); },
        };
        let machine_code_dump_header = match compile(MACHINE_CODE_DUMP_HEADER) {
            Ok(re) => re,
            Err(e) => { return Err(e); },
        };
        let function_end = match compile(FUNCTION_END) {
            Ok(re) => re,
            Err(e) => { return Err(e); },
        };
        let machine_function_end = match compile(MACHINE_FUNCTION_END) {
            Ok(re) => re,
            Err(e) => { return Err(e); },
        };
        Ok(
            LlvmPassDumpParser {
                ir_dump_header,
                machine_code_dump_header,
                function_end,
                machine_function_end,
            },
        )
    }

    /// Whether `line` is the header of a dump, as the parser's two header
    /// expressions find it.
    pub fn matches_dump_header(&self, line: &str) -> (r: bool)
        ensures
            r == is_dump_header(line@),
    {
        proof {
            use_type_invariant(self);
        }
        self.ir_dump_header.is_match(line) || self.machine_code_dump_header.is_match(line)
    }

    /// Whether the trimmed line `text` ends a function: a machine function if
    /// `machine_mode` says so, else an IR function.
    pub fn matches_function_end(&self, machine_mode: bool, text: &str) -> (r: bool)
        ensures
            r == regex_is_match(
                if machine_mode {
                    MACHINE_FUNCTION_END@
                } else {
                    FUNCTION_END@
                },
                text@,
            ),
    {
        proof {
            use_type_invariant(self);
        }
        if machine_mode {
            self.machine_function_end.is_match(text)
        } else {
            self.function_end.is_match(text)
        }
    }
}

/// Whether `line` is the header of a dump: of an IR dump or of a machine-code
/// dump.
pub open spec fn is_dump_header(line: Seq<char>) -> bool {
    regex_is_match(IR_DUMP_HEADER@, line) || regex_is_match(MACHINE_CODE_DUMP_HEADER@, line)
}

/// Where the line that begins at `pos` ends: at the next line feed, or at the
/// end of `text`.
pub open spec fn line_end(text: Seq<char>, pos: int) -> int {
    match find_item_from(text, '\n', pos) {
        Some(k) => k,
        None => text.len() as int,
    }
}

/// The begin of the first line at or after `pos` that is the header of a
/// dump, or the length of `text` where no such line follows.
pub open spec fn header_offset_from(text: Seq<char>, pos: int) -> int
    decreases text.len() - pos,
{
    if pos < 0 || pos >= text.len() {
        text.len() as int
    } else {
        let end = line_end(text, pos);
        if is_dump_header(text.subrange(pos, end)) {
            pos
        } else if end < pos || end >= text.len() {
            text.len() as int
        } else {
            header_offset_from(text, end + 1)
        }
    }
}

/// Where the transcript proper begins in `text`: at its first line that is
/// the header of a dump. All before it is the prefix, which is left as it is.
pub open spec fn header_offset(text: Seq<char>) -> int {
    header_offset_from(text, 0)
}

/// Each section of `dumps` cut into its functions.
pub open spec fn split_all(dumps: Seq<PassDumpView>) -> Seq<SplitPassDumpView> {
    Seq::new(dumps.len(), |i: int| split_functions(dumps[i]))
}

/// The passes of every function that the transcript `ir` shows: the
/// transcript is cut into sections, the sections are regrouped by function,
/// by their headers where every dump shows the whole module and else by the
/// functions in their bodies, and the sections of each function are paired
/// into passes. Before they are paired, the sections are tested: a header
/// of another shape than before or after a pass, or a pair at two levels, is
/// a refusal of the whole transcript.
pub open spec fn passes_of(ir: Seq<char>, options: OptPipelineBackendOptions) -> Result<
    Seq<(Seq<char>, Seq<PassView>)>,
    PassDumpErrorView,
> {
    let dumps = segments(ir, options.stop_at_machine_code);
    let routed = if options.full_module {
        associated(dumps)
    } else {
        by_function(split_all(dumps))
    };
    match routed {
        Ok(table) => match table_violation(table) {
            Some(e) => Err(e),
            None => matched_table(table),
        },
        Err(e) => Err(e),
    }
}

/// What is parsed of the text after the prefix: the text itself, or the text
/// with the boilerplate stripped where filters are asked for and there is any
/// text.
pub open spec fn transcript(rest: Seq<char>, options: OptPipelineBackendOptions) -> Seq<char> {
    if options.apply_filters && rest.len() > 0 {
        filtered(rest, options.filter_debug_info, options.filter_ir_metadata)
    } else {
        rest
    }
}

/// The prefix of `text` and the passes of every function in what follows the
/// prefix, or the first refusal.
pub open spec fn parsed(text: Seq<char>, options: OptPipelineBackendOptions) -> Result<
    (Seq<char>, Seq<(Seq<char>, Seq<PassView>)>),
    PassDumpErrorView,
> {
    let at = header_offset(text);
    match passes_of(transcript(text.skip(at), options), options) {
        Ok(table) => Ok((text.take(at), table)),
        Err(e) => Err(e),
    }
}

/// Whether `text` is refused for the filter's pattern: filters are asked for,
/// there is text after the prefix to filter, and the pattern is not compiled.
pub open spec fn filter_refused(text: Seq<char>, options: OptPipelineBackendOptions) -> bool {
    &&& options.apply_filters
    &&& header_offset(text) < text.len()
    &&& !regex_compiles(filter_pattern(options.filter_debug_info, options.filter_ir_metadata))
}

/// What a parser makes of `text`: what is parsed of it, but the refusal of
/// the filter's pattern where that is needed and not compiled.
pub open spec fn processed(text: Seq<char>, options: OptPipelineBackendOptions) -> Result<
    (Seq<char>, Seq<(Seq<char>, Seq<PassView>)>),
    PassDumpErrorView,
> {
    if filter_refused(text, options) {
        Err(
            PassDumpErrorView::InvalidPattern {
                pattern: filter_pattern(options.filter_debug_info, options.filter_ir_metadata),
            },
        )
    } else {
        parsed(text, options)
    }
}

/// What `process` makes of `text`: what a parser makes of it with the
/// options of `process`, but the refusal of the first pattern of the parser
/// that is not compiled, where there is one.
pub open spec fn processed_by_default(text: Seq<char>, apply_filters: bool) -> Result<
    (Seq<char>, Seq<(Seq<char>, Seq<PassView>)>),
    PassDumpErrorView,
> {
    match refused_pattern() {
        Some(pattern) => Err(PassDumpErrorView::InvalidPattern { pattern }),
        None => processed(text, default_options(apply_filters)),
    }
}

/// What `process` asks for: filters for debug information and metadata, one
/// function per dump, machine code included.
pub open spec fn default_options(apply_filters: bool) -> OptPipelineBackendOptions {
    OptPipelineBackendOptions {
        filter_debug_info: true,
        filter_ir_metadata: true,
        full_module: false,
        apply_filters,
        stop_at_machine_code: false,
    }
}

/// A line of `text` begins at `pos`.
pub open spec fn is_line_start(text: Seq<char>, pos: int) -> bool {
    0 <= pos < text.len() && (pos == 0 || text[pos - 1] == '\n')
}

/// The table of a text in which nothing is parsed: empty, but for the entry
/// of the whole module where every dump shows the whole module.
pub open spec fn empty_table(options: OptPipelineBackendOptions) -> Seq<
    (Seq<char>, Seq<PassView>),
> {
    if options.full_module {
        seq![(FULL_MODULE@, Seq::empty())]
    } else {
        Seq::empty()
    }
}

/// From the begin of a line on, no header is found where no line is one.
proof fn lemma_no_header_from(text: Seq<char>, pos: int)
    requires
        forall|p: int| #[trigger]
            is_line_start(text, p) ==> !is_dump_header(text.subrange(p, line_end(text, p))),
        is_line_start(text, pos) || pos >= text.len(),
    ensures
        header_offset_from(text, pos) == text.len(),
    decreases text.len() - pos,
{
    if 0 <= pos < text.len() {
        lemma_find_item_from(text, '\n', pos);
        let end = line_end(text, pos);
        if pos <= end < text.len() {
            assert(is_line_start(text, end + 1) || end + 1 >= text.len());
            lemma_no_header_from(text, end + 1);
        }
    }
}

/// A text of which no line is the header of a dump is all prefix: nothing of
/// it is cut into sections, and no function has a pass. A parser makes this
/// of it whatever the filter's pattern, and `process` does wherever the four
/// patterns of the parser are compiled.
pub proof fn lemma_without_header_all_is_prefix(
    text: Seq<char>,
    options: OptPipelineBackendOptions,
)
    requires
        forall|p: int| #[trigger]
            is_line_start(text, p) ==> !is_dump_header(text.subrange(p, line_end(text, p))),
    ensures
        header_offset(text) == text.len(),
        segments(transcript(text.skip(header_offset(text)), options), options.stop_at_machine_code)
            == Seq::<PassDumpView>::empty(),
        parsed(text, options) == Ok::<_, PassDumpErrorView>((text, empty_table(options))),
        processed(text, options) == Ok::<_, PassDumpErrorView>((text, empty_table(options))),
        refused_pattern() is None ==> forall|apply_filters: bool|
            #[trigger] processed_by_default(text, apply_filters) == Ok::<_, PassDumpErrorView>(
                (text, Seq::<(Seq<char>, Seq<PassView>)>::empty()),
            ),
{
    lemma_without_header_parsed(text, options);
    assert forall|apply_filters: bool|
        #[trigger] processed(text, default_options(apply_filters)) == Ok::<
            _,
            PassDumpErrorView,
        >((text, Seq::<(Seq<char>, Seq<PassView>)>::empty())) by {
        lemma_without_header_parsed(text, default_options(apply_filters));
    }
}

/// What is parsed of a text of which no line is the header of a dump.
proof fn lemma_without_header_parsed(text: Seq<char>, options: OptPipelineBackendOptions)
    requires
        forall|p: int| #[trigger]
            is_line_start(text, p) ==> !is_dump_header(text.subrange(p, line_end(text, p))),
    ensures
        header_offset(text) == text.len(),
        segments(transcript(text.skip(header_offset(text)), options), options.stop_at_machine_code)
            == Seq::<PassDumpView>::empty(),
        parsed(text, options) == Ok::<_, PassDumpErrorView>((text, empty_table(options))),
{
    lemma_no_header_from(text, 0);
    let rest = text.skip(text.len() as int);
    assert(rest =~= Seq::<char>::empty());
    assert(text.take(text.len() as int) =~= text);
    let dumps = segments(rest, options.stop_at_machine_code);
    assert(crate::text::lines(rest) =~= Seq::<Seq<char>>::empty());
    assert(dumps =~= Seq::<PassDumpView>::empty());
    if options.full_module {
        let table = crate::table::register(
            Seq::<(Seq<char>, Seq<PassDumpView>)>::empty(),
            FULL_MODULE@,
        );
        assert(table =~= seq![(FULL_MODULE@, Seq::<PassDumpView>::empty())]);
        assert(associated(dumps) == Ok::<_, PassDumpErrorView>(table));
        assert(table_violation(table) is None) by {
            lemma_table_violation_from(table, 0);
        }
        assert(table.drop_last() =~= Seq::<(Seq<char>, Seq<PassDumpView>)>::empty());
        assert(matched(table.last().1) == Ok::<_, PassDumpErrorView>(Seq::<PassView>::empty()));
        assert(matched_table(table.drop_last()) == Ok::<_, PassDumpErrorView>(
            Seq::<(Seq<char>, Seq<PassView>)>::empty(),
        ));
        assert(matched_table(table) == Ok::<_, PassDumpErrorView>(
            Seq::<(Seq<char>, Seq<PassView>)>::empty().push((FULL_MODULE@, Seq::empty())),
        ));
        assert(Seq::<(Seq<char>, Seq<PassView>)>::empty().push((FULL_MODULE@, Seq::empty()))
            =~= empty_table(options));
    } else {
        assert(split_all(dumps) =~= Seq::<SplitPassDumpView>::empty());
        assert(table_violation(Seq::<(Seq<char>, Seq<PassDumpView>)>::empty()) is None);
    }
}

/// What holds of every table of passes that is parsed from a text. No name
/// stands twice in it, so it is a mapping from the functions to their passes.
/// Every pass says that it changed something exactly when its two texts
/// differ. Where every dump shows the whole module, the whole module has an
/// entry; else no entry has the name that stands for a loop.
pub proof fn lemma_parsed_table(text: Seq<char>, options: OptPipelineBackendOptions)
    ensures
        parsed(text, options) matches Ok(r) ==> {
            &&& distinct_names(r.1)
            &&& forall|i: int| 0 <= i < r.1.len() ==> changes_told(#[trigger] r.1[i].1)
            &&& options.full_module ==> has_name(r.1, FULL_MODULE@)
            &&& !options.full_module ==> without_loop(r.1)
        },
{
    let ir = transcript(text.skip(header_offset(text)), options);
    let dumps = segments(ir, options.stop_at_machine_code);
    let routed = if options.full_module {
        associated(dumps)
    } else {
        by_function(split_all(dumps))
    };
    lemma_associated_names(dumps);
    lemma_by_function_names(split_all(dumps));
    if let Ok(table) = routed {
        lemma_matched_table_entries(table);
        if let Ok(passes) = matched_table(table) {
            assert forall|i: int| 0 <= i < passes.len() implies changes_told(
                #[trigger] passes[i].1,
            ) by {
                lemma_changes_told(table[i].1);
            }
            lemma_has_name(table, FULL_MODULE@);
            lemma_has_name(passes, FULL_MODULE@);
            lemma_has_name(table, crate::function::LOOP@);
            lemma_has_name(passes, crate::function::LOOP@);
            if has_name(table, FULL_MODULE@) {
                let j = choose|j: int| 0 <= j < table.len() && (#[trigger] table[j]).0 == FULL_MODULE@;
                assert(passes[j].0 == FULL_MODULE@);
            }
            if has_name(passes, crate::function::LOOP@) {
                let j = choose|j: int|
                    0 <= j < passes.len() && (#[trigger] passes[j]).0 == crate::function::LOOP@;
                assert(table[j].0 == crate::function::LOOP@);
            }
        }
    }
}

/// Where the line that begins at `pos` ends.
pub fn end_of_line(text: &[char], pos: usize) -> (r: usize)
    requires
        pos <= text.len(),
    ensures
        r == line_end(text@, pos as int),
        pos <= r <= text.len(),
{
    proof {
        lemma_find_item_from(text@, '\n', pos as int);
    }
    match search_char_from(text, '\n', pos) {
        Some(k) => k,
        None => text.len(),
    }
}

impl LlvmPassDumpParser {
    /// Where the transcript proper begins in `text`.
    pub fn find_header(&self, text: &[char]) -> (r: usize)
        ensures
            r == header_offset(text@),
            r <= text.len(),
    {
        let mut pos: usize = 0;
        while pos < text.len()
            invariant
                header_offset(text@) == header_offset_from(text@, pos as int),
            decreases text.len() - pos,
        {
            let end = end_of_line(text, pos);
            let line = from_chars(&text[pos..end]);
            if self.matches_dump_header(line.as_str()) {
                return pos;
            }
            if end >= text.len() {
                return text.len();
            }
            pos = end + 1;
        }
        text.len()
    }

    /// The passes of every function that the transcript `ir` shows.
    pub fn breakdown_output(&self, ir: &str, options: &OptPipelineBackendOptions) -> (r: Result<
        OptPipelineResults,
        PassDumpError,
    >)
        ensures
            match r {
                Ok(table) => passes_of(ir@, *options) == Ok::<_, PassDumpErrorView>(
                    table.deep_view(),
                ),
                Err(e) => passes_of(ir@, *options) == Err::<Seq<(Seq<char>, Seq<PassView>)>, _>(
                    e@,
                ),
            },
    {
        let raw_passes = self.breakdown_output_into_pass_dumps(ir, options.stop_at_machine_code);
        if options.full_module {
            match self.associate_full_dumps_with_functions(raw_passes) {
                Ok(table) => match check_pass_dumps(&table) {
                    Ok(_) => self.match_pass_dumps(table),
                    Err(e) => Err(e),
                },
                Err(e) => Err(e),
            }
        } else {
            let ghost dumps = raw_passes.deep_view();
            let ghost raw = raw_passes@;
            let mut pass_dumps: Vec<SplitPassDump> = Vec::new();
            for dump in it: raw_passes
                invariant
                    it.seq() == raw,
                    dumps.len() == raw.len(),
                    forall|j: int| 0 <= j < raw.len() ==> dumps[j] == (#[trigger] raw[j])@,
                    pass_dumps.deep_view() =~= split_all(dumps).take(it.index() as int),
            {
                let ghost before = pass_dumps.deep_view();
                let split = self.breakdown_pass_dumps_into_functions(dump);
                pass_dumps.push(split);
                assert(pass_dumps.deep_view() =~= before.push(split@));
            }
            assert(split_all(dumps).take(dumps.len() as int) =~= split_all(dumps));
            match self.breakdown_into_pass_dumps_by_function(pass_dumps) {
                Ok(table) => match check_pass_dumps(&table) {
                    Ok(_) => self.match_pass_dumps(table),
                    Err(e) => Err(e),
                },
                Err(e) => Err(e),
            }
        }
    }

    /// Parses the text `output` of a compiler run: what stands before the
    /// first header is handed back as it is, and what follows is turned into
    /// the passes of every function. A refusal is that of the filter's
    /// pattern, where the pattern is needed and not compiled, and else that of
    /// the first section that gives rise to one.
    pub fn process<'a>(&self, output: &'a str, options: &OptPipelineBackendOptions) -> (r: Result<
        (&'a str, OptPipelineResults),
        PassDumpError,
    >)
        ensures
            match r {
                Ok((prefix, table)) => processed(output@, *options) == Ok::<
                    _,
                    PassDumpErrorView,
                >((prefix@, table.deep_view())),
                Err(e) => processed(output@, *options) == Err::<
                    (Seq<char>, Seq<(Seq<char>, Seq<PassView>)>),
                    _,
                >(e@),
            },
    {
        let chars = to_chars(output);
        let offset = self.find_header(chars.as_slice());
        let prefix = output.substring_char(0, offset);
        let rest = output.substring_char(offset, chars.len());
        assert(prefix@ =~= output@.take(offset as int));
        assert(rest@ =~= output@.skip(offset as int));
        let table = if options.apply_filters && offset < chars.len() {
            match self.apply_ir_filters(rest, options) {
                Ok(ir) => self.breakdown_output(ir.as_str(), options),
                Err(e) => { return Err(e); },
            }
        } else {
            self.breakdown_output(rest, options)
        };
        match table {
            Ok(table) => Ok((prefix, table)),
            Err(e) => Err(e),
        }
    }
}

/// Parses the text `dump` of a compiler run that printed the IR before and
/// after each pass: the prefix before the first header, and for each function
/// its passes in the order of the transcript. With `apply_filters` the
/// boilerplate, the debug information and the metadata are stripped first.
pub fn process(dump: &str, apply_filters: bool) -> (r: Result<
    (&str, OptPipelineResults),
    PassDumpError,
>)
    ensures
        match r {
            Ok((prefix, table)) => processed_by_default(dump@, apply_filters) == Ok::<
                _,
                PassDumpErrorView,
            >((prefix@, table.deep_view())),
            Err(e) => processed_by_default(dump@, apply_filters) == Err::<
                (Seq<char>, Seq<(Seq<char>, Seq<PassView>)>),
                _,
            >(e@),
        },
{
    let llvm_pass_dump_parser = match LlvmPassDumpParser::new() {
        Ok(parser) => parser,
        Err(e) => { return Err(e); },
    };
    llvm_pass_dump_parser.process(
        dump,
        &OptPipelineBackendOptions {
            filter_debug_info: true,
            filter_ir_metadata: true,
            full_module: false,
            apply_filters,
            stop_at_machine_code: false,
        },
    )
}

} // verus!
