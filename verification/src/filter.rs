//! Stripping boilerplate from a transcript before it is cut into sections:
//! whole lines that say nothing about the code, and notes of debug
//! information and metadata at the end of instructions.

use crate::dump::{OptPipelineBackendOptions, PassDumpError, PassDumpErrorView};
use crate::optpipeline::{compile, LlvmPassDumpParser};
use crate::pattern::{regex_compiles, regex_is_match, replace_all, replaced};
use crate::text::is_subsequence;
use crate::text::join;
use itertools::Itertools;
use vstd::prelude::*;
use vstd::string::StringExecFns;

verus! {

/// The lines that are always stripped: the module's name, its source file,
/// target and data layout, the attributes of functions, declarations, and
/// lists of attributes.
pub open spec fn boilerplate_lines() -> Seq<Seq<char>> {
    seq![
        r"; ModuleID = '.+'"@,
        r"(source_filename|target datalayout|target triple) = '.+'"@,
        r"; Function Attrs: .+"@,
        r"declare .+"@,
        r"attributes #\d+ = \{ .+ \}"@,
    ]
}

/// The lines of debug information: calls of debug intrinsics, debug pragmas
/// of machine code, and records of metadata.
pub open spec fn debug_lines() -> Seq<Seq<char>> {
    seq![
        r"\s+(tail\s)?call void @llvm\.dbg.+"@,
        r"[ \t]+DBG_.+"@,
        r"(!\d+) = (?:distinct )?!DI([A-Za-z]+)\(([^)]+?)\).*"@,
        r"(!\d+) = (?:distinct )?!\{.*\}.*"@,
        r"(![.A-Z_a-z-]+) = (?:distinct )?!\{.*\}.*"@,
    ]
}

/// What is always stripped from the end of a line: the number of a list of
/// attributes.
pub open spec fn attribute_notes() -> Seq<Seq<char>> {
    seq![r"(?m),? #\d+( \{)?$"@]
}

/// The notes of a debug location inside a line.
pub open spec fn debug_notes() -> Seq<Seq<char>> {
    seq![r",? !dbg !\d+"@, r",? debug-location !\d+"@]
}

/// The references to metadata inside a line.
pub open spec fn metadata_notes() -> Seq<Seq<char>> {
    seq![r",?(?: ![\d.A-Za-z]+){2}"@]
}

/// The patterns of the lines that are stripped whole.
pub open spec fn line_filters(debug_info: bool) -> Seq<Seq<char>> {
    if debug_info {
        boilerplate_lines() + debug_lines()
    } else {
        boilerplate_lines()
    }
}

/// The patterns of what is stripped inside a line.
pub open spec fn inline_filters(debug_info: bool, metadata: bool) -> Seq<Seq<char>> {
    attribute_notes() + (if debug_info {
        debug_notes()
    } else {
        Seq::empty()
    }) + (if metadata {
        metadata_notes()
    } else {
        Seq::empty()
    })
}

/// Each of `parts` as a group of its own.
pub open spec fn grouped(parts: Seq<Seq<char>>) -> Seq<Seq<char>> {
    Seq::new(parts.len(), |i: int| "(?:"@ + parts[i] + ")"@)
}

/// One pattern that matches what any of `parts` matches.
pub open spec fn alternation(parts: Seq<Seq<char>>) -> Seq<char> {
    join(grouped(parts), "|"@)
}

/// The pattern of all that is stripped: a whole line, with its line ending,
/// that one of the line patterns matches from its begin, or what one of the
/// inline patterns matches.
pub open spec fn filter_pattern(debug_info: bool, metadata: bool) -> Seq<char> {
    "(:?"@ + ("(?m)^(:?"@ + alternation(line_filters(debug_info)) + r")(?:\r\n|\n|\r)"@) + ")|(:?"@
        + alternation(inline_filters(debug_info, metadata)) + ")"@
}

/// The transcript `ir` with the boilerplate stripped.
pub open spec fn filtered(ir: Seq<char>, debug_info: bool, metadata: bool) -> Seq<char> {
    replaced(filter_pattern(debug_info, metadata), ir, ""@)
}

/// Filtering a text in which the filter then finds nothing more to strip a
/// second time changes nothing: on such texts filtering is idempotent.
pub proof fn lemma_filter_idempotent(ir: Seq<char>, debug_info: bool, metadata: bool)
    requires
        !regex_is_match(
            filter_pattern(debug_info, metadata),
            filtered(ir, debug_info, metadata),
        ),
    ensures
        filtered(filtered(ir, debug_info, metadata), debug_info, metadata) == filtered(
            ir,
            debug_info,
            metadata,
        ),
{
}

/// `Itertools::join` on a list of strings. Claimed: the result is the strings
/// in their order, with `sep` between each two neighbours, and the empty
/// string for an empty list.
#[verifier::external_body]
fn join_with(parts: &Vec<String>, sep: &str) -> (r: String)
    ensures
        r@ == join(parts.deep_view(), sep@),
{
    parts.iter().join(sep)
}

/// One pattern that matches what any of `parts` matches.
pub fn alternation_of(parts: &Vec<&str>) -> (r: String)
    ensures
        r@ == alternation(parts.deep_view()),
{
    let mut groups: Vec<String> = Vec::new();
    let mut i: usize = 0;
    while i < parts.len()
        invariant
            i <= parts.len(),
            groups.deep_view() =~= grouped(parts.deep_view()).take(i as int),
        decreases parts.len() - i,
    {
        let ghost before = groups.deep_view();
        let mut group = "(?:".to_owned();
        group.append(parts[i]);
        group.append(")");
        assert(group@ == grouped(parts.deep_view())[i as int]);
        groups.push(group);
        assert(groups.deep_view() =~= before.push(group@));
        i += 1;
    }
    assert(grouped(parts.deep_view()).take(parts.len() as int) =~= grouped(parts.deep_view()));
    join_with(&groups, "|")
}

/// The pattern of all that is stripped.
pub fn filter_pattern_of(debug_info: bool, metadata: bool) -> (r: String)
    ensures
        r@ == filter_pattern(debug_info, metadata),
{
    let mut inline: Vec<&str> = vec![r"(?m),? #\d+( \{)?$"];
    let mut whole: Vec<&str> = vec![
        r"; ModuleID = '.+'",
        r"(source_filename|target datalayout|target triple) = '.+'",
        r"; Function Attrs: .+",
        r"declare .+",
        r"attributes #\d+ = \{ .+ \}",
    ];
    assert(whole.deep_view() =~= boilerplate_lines());
    assert(inline.deep_view() =~= attribute_notes());
    if debug_info {
        whole.push(r"\s+(tail\s)?call void @llvm\.dbg.+");
        whole.push(r"[ \t]+DBG_.+");
        whole.push(r"(!\d+) = (?:distinct )?!DI([A-Za-z]+)\(([^)]+?)\).*");
        whole.push(r"(!\d+) = (?:distinct )?!\{.*\}.*");
        whole.push(r"(![.A-Z_a-z-]+) = (?:distinct )?!\{.*\}.*");
        inline.push(r",? !dbg !\d+");
        inline.push(r",? debug-location !\d+");
    }
    if metadata {
        inline.push(r",?(?: ![\d.A-Za-z]+){2}");
    }
    assert(whole.deep_view() =~= line_filters(debug_info));
    assert(inline.deep_view() =~= inline_filters(debug_info, metadata));
    let mut line_re = "(?m)^(:?".to_owned();
    line_re.append(alternation_of(&whole).as_str());
    line_re.append(r")(?:\r\n|\n|\r)");
    let mut combined = "(:?".to_owned();
    combined.append(line_re.as_str());
    combined.append(")|(:?");
    combined.append(alternation_of(&inline).as_str());
    combined.append(")");
    combined
}

impl LlvmPassDumpParser {
    /// Strips the boilerplate from the transcript `ir`: always the lines and
    /// notes of attributes, and with `filter_debug_info` and
    /// `filter_ir_metadata` those of debug information and of metadata.
    pub fn apply_ir_filters(&self, ir: &str, options: &OptPipelineBackendOptions) -> (r: Result<
        String,
        PassDumpError,
    >)
        ensures
            (r is Ok) <==> regex_compiles(
                filter_pattern(options.filter_debug_info, options.filter_ir_metadata),
            ),
            match r {
                Ok(text) => text@ == filtered(
                    ir@,
                    options.filter_debug_info,
                    options.filter_ir_metadata,
                ) && is_subsequence(text@, ir@),
                Err(e) => e@ == (PassDumpErrorView::InvalidPattern {
                    pattern: filter_pattern(options.filter_debug_info, options.filter_ir_metadata),
                }),
            },
    {
        let pattern = filter_pattern_of(options.filter_debug_info, options.filter_ir_metadata);
        proof {
            reveal_strlit("");
        }
        match compile(pattern.as_str()) {
            Ok(re) => Ok(replace_all(&re, ir, "")),
            Err(e) => Err(e),
        }
    }
}

} // verus!
