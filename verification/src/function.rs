//! Cutting the body of one section into the functions that it shows.

use crate::dump::{PassDump, SplitPassDump, SplitPassDumpView};
use crate::optpipeline::{LlvmPassDumpParser, FUNCTION_END, MACHINE_FUNCTION_END};
use crate::pattern::regex_is_match;
use crate::table::{distinct_names, find_name, lemma_put_distinct, put};
use crate::text::{
    find_item, from_chars, has_prefix, lines, search_char, split_lines, starts_with, texts, to_chars,
    trim, trimmed,
};
use vstd::prelude::*;
use vstd::string::StrSliceExecFns;

verus! {

/// The name under which the lines of a loop are kept until the function that
/// the loop belongs to is known.
pub const LOOP: &'static str = "<loop>";

/// The name of the IR function that `line` begins to define: the line begins
/// with `define `, and the name stands between the first `@` and the next
/// opening bracket.
pub open spec fn ir_function_name(line: Seq<char>) -> Option<Seq<char>> {
    if starts_with(line, "define "@) {
        match find_item(line, '@') {
            Some(at) => {
                let rest = line.skip(at + 1);
                match find_item(rest, '(') {
                    Some(bracket) => Some(rest.take(bracket)),
                    None => None,
                }
            },
            None => None,
        }
    } else {
        None
    }
}

/// The name of the machine function that `line` begins: the line begins with
/// `# Machine code for function `, and the name ends at the colon.
pub open spec fn machine_function_name(line: Seq<char>) -> Option<Seq<char>> {
    if starts_with(line, "# Machine code for function "@) {
        let rest = line.skip("# Machine code for function "@.len() as int);
        match find_item(rest, ':') {
            Some(colon) => Some(rest.take(colon)),
            None => None,
        }
    } else {
        None
    }
}

/// Whether `line` ends the function that is open: for an IR function a line
/// that holds a closing brace alone, for a machine function the line that
/// says so, each as the parser's expressions find it in the trimmed line.
pub open spec fn closes_function(machine_mode: bool, line: Seq<char>) -> bool {
    if machine_mode {
        regex_is_match(MACHINE_FUNCTION_END@, trim(line))
    } else {
        regex_is_match(FUNCTION_END@, trim(line))
    }
}

/// Where the scan of a section's body stands: the functions that are stored,
/// the one that is open with the lines it has so far, and whether the
/// function opened last was a machine function.
pub struct FunctionScan {
    pub done: Seq<(Seq<char>, Seq<Seq<char>>)>,
    pub open: Option<(Seq<char>, Seq<Seq<char>>)>,
    pub machine_mode: bool,
}

/// The scan before the first line.
pub open spec fn function_scan_start() -> FunctionScan {
    FunctionScan { done: Seq::empty(), open: None, machine_mode: false }
}

/// The functions of a scan, the open one stored. A function stored under a
/// name that the table holds already takes the place of the earlier one.
pub open spec fn stored(scan: FunctionScan) -> Seq<(Seq<char>, Seq<Seq<char>>)> {
    match scan.open {
        Some((name, lines)) => put(scan.done, name, lines),
        None => scan.done,
    }
}

/// The scan after one more line, of which `closes` says whether it ends the
/// open function. In this order: a line that begins an IR function stores the
/// open function and opens the new one; so does a line that begins a machine
/// function; a line that begins with `; Preheader:`, with no function open,
/// opens a loop; any other line goes to the open function, which it may end,
/// and is dropped where none is open.
pub open spec fn function_step(scan: FunctionScan, line: Seq<char>, closes: bool)
    -> FunctionScan {
    match ir_function_name(line) {
        Some(name) => FunctionScan {
            done: stored(scan),
            open: Some((name, seq![line])),
            machine_mode: false,
        },
        None => match machine_function_name(line) {
            Some(name) => FunctionScan {
                done: stored(scan),
                open: Some((name, seq![line])),
                machine_mode: true,
            },
            None => match scan.open {
                None => {
                    if starts_with(line, "; Preheader:"@) {
                        FunctionScan { open: Some((LOOP@, seq![line])), ..scan }
                    } else {
                        scan
                    }
                },
                Some((name, lines)) => {
                    if closes {
                        FunctionScan {
                            done: put(scan.done, name, lines.push(line)),
                            open: None,
                            ..scan
                        }
                    } else {
                        FunctionScan { open: Some((name, lines.push(line))), ..scan }
                    }
                },
            },
        },
    }
}

/// The scan after all of `lines`.
pub open spec fn function_scan(lines: Seq<Seq<char>>) -> FunctionScan
    decreases lines.len(),
{
    if lines.len() == 0 {
        function_scan_start()
    } else {
        let before = function_scan(lines.drop_last());
        function_step(before, lines.last(), closes_function(before.machine_mode, lines.last()))
    }
}

/// The functions that the text `body` shows, each with its lines.
pub open spec fn functions_of(body: Seq<char>) -> Seq<(Seq<char>, Seq<Seq<char>>)> {
    stored(function_scan(lines(body)))
}

/// The section `dump` cut into its functions.
pub open spec fn split_functions(dump: crate::dump::PassDumpView) -> SplitPassDumpView {
    SplitPassDumpView {
        header: dump.header,
        machine: dump.machine,
        functions: functions_of(dump.lines),
    }
}

/// Whether `line` begins a function, and whether that is a machine function.
pub open spec fn begins_function(line: Seq<char>) -> Option<bool> {
    if ir_function_name(line) is Some {
        Some(false)
    } else if machine_function_name(line) is Some {
        Some(true)
    } else {
        None
    }
}

/// The name of the function that `line` begins.
pub open spec fn function_name(line: Seq<char>) -> Seq<char> {
    if ir_function_name(line) is Some {
        ir_function_name(line)->0
    } else {
        machine_function_name(line)->0
    }
}

/// After the line that begins a function and lines that neither begin nor
/// end one, the function is open with exactly these lines.
proof fn lemma_function_open(before: Seq<Seq<char>>, first: Seq<char>, body: Seq<Seq<char>>)
    requires
        begins_function(first) is Some,
        forall|k: int|
            0 <= k < body.len() ==> begins_function(#[trigger] body[k]) is None
                && !closes_function(begins_function(first)->0, body[k]),
    ensures
        function_scan(before + seq![first] + body) == (FunctionScan {
            done: stored(function_scan(before)),
            open: Some((function_name(first), seq![first] + body)),
            machine_mode: begins_function(first)->0,
        }),
    decreases body.len(),
{
    let all = before + seq![first] + body;
    if body.len() == 0 {
        assert(all.drop_last() =~= before);
        assert(all.last() == first);
        assert(seq![first] + body =~= seq![first]);
    } else {
        assert(all.drop_last() =~= before + seq![first] + body.drop_last());
        assert(all.last() == body.last());
        lemma_function_open(before, first, body.drop_last());
        assert(begins_function(body[body.len() - 1]) is None);
        assert((seq![first] + body.drop_last()).push(body.last()) =~= seq![first] + body);
    }
}

/// The lines that are stored for a function are those of the transcript,
/// unchanged and in their order: after the line `first` that begins a
/// function come the lines `body`, none of which begins or ends a function,
/// and the line `last` that ends it; the function is then stored with exactly
/// these lines, and no function is open.
pub proof fn lemma_function_block(
    before: Seq<Seq<char>>,
    first: Seq<char>,
    body: Seq<Seq<char>>,
    last: Seq<char>,
)
    requires
        begins_function(first) is Some,
        forall|k: int|
            0 <= k < body.len() ==> begins_function(#[trigger] body[k]) is None
                && !closes_function(begins_function(first)->0, body[k]),
        begins_function(last) is None,
        closes_function(begins_function(first)->0, last),
    ensures
        function_scan(before + seq![first] + body + seq![last]) == (FunctionScan {
            done: put(
                stored(function_scan(before)),
                function_name(first),
                seq![first] + body + seq![last],
            ),
            open: None,
            machine_mode: begins_function(first)->0,
        }),
{
    let all = before + seq![first] + body + seq![last];
    assert(all.drop_last() =~= before + seq![first] + body);
    assert(all.last() == last);
    lemma_function_open(before, first, body);
    assert((seq![first] + body).push(last) =~= seq![first] + body + seq![last]);
}

/// No name stands twice among the functions that are stored in a scan.
proof fn lemma_function_scan_distinct(lines: Seq<Seq<char>>)
    ensures
        distinct_names(function_scan(lines).done),
        distinct_names(stored(function_scan(lines))),
    decreases lines.len(),
{
    if lines.len() > 0 {
        lemma_function_scan_distinct(lines.drop_last());
        let before = function_scan(lines.drop_last());
        let after = function_scan(lines);
        if let Some((name, body)) = before.open {
            lemma_put_distinct(before.done, name, body);
            lemma_put_distinct(before.done, name, body.push(lines.last()));
        }
        if let Some((name, body)) = after.open {
            lemma_put_distinct(after.done, name, body);
        }
    }
}

/// The functions of a section are a mapping: no name stands twice among them.
pub proof fn lemma_functions_distinct(body: Seq<char>)
    ensures
        distinct_names(functions_of(body)),
{
    lemma_function_scan_distinct(lines(body));
}

/// The name of the IR function that `line` begins to define.
pub fn ir_function(line: &[char]) -> (r: Option<String>)
    ensures
        match r {
            Some(name) => ir_function_name(line@) == Some(name@),
            None => ir_function_name(line@) is None,
        },
{
    if !has_prefix(line, "define ") {
        return None;
    }
    match search_char(line, '@') {
        Some(at) => {
            let rest = &line[at + 1..line.len()];
            assert(rest@ =~= line@.skip(at + 1));
            match search_char(rest, '(') {
                Some(bracket) => {
                    assert(rest@.subrange(0, bracket as int) =~= rest@.take(bracket as int));
                    Some(from_chars(&rest[0..bracket]))
                },
                None => None,
            }
        },
        None => None,
    }
}

/// The name of the machine function that `line` begins.
pub fn machine_function(line: &[char]) -> (r: Option<String>)
    ensures
        match r {
            Some(name) => machine_function_name(line@) == Some(name@),
            None => machine_function_name(line@) is None,
        },
{
    if !has_prefix(line, "# Machine code for function ") {
        return None;
    }
    let n: usize = "# Machine code for function ".unicode_len();
    let rest = &line[n..line.len()];
    assert(rest@ =~= line@.skip(n as int));
    match search_char(rest, ':') {
        Some(colon) => {
            assert(rest@.subrange(0, colon as int) =~= rest@.take(colon as int));
            Some(from_chars(&rest[0..colon]))
        },
        None => None,
    }
}

/// Stores `lines` under `name`: in place of what the table held for that
/// name, or else as a new last entry.
pub fn store(functions: &mut Vec<(String, Vec<String>)>, name: String, lines: Vec<String>)
    ensures
        final(functions).deep_view() == put(old(functions).deep_view(), name@, lines.deep_view()),
{
    let ghost before = functions.deep_view();
    match find_name(functions, &name) {
        Some(i) => {
            functions[i] = (name, lines);
            assert(functions.deep_view() =~= before.update(
                i as int,
                (name@, lines.deep_view()),
            ));
        },
        None => {
            functions.push((name, lines));
            assert(functions.deep_view() =~= before.push((name@, lines.deep_view())));
        },
    }
}

/// The scan of a section's body as it runs.
pub struct FunctionScanner {
    pub functions: Vec<(String, Vec<String>)>,
    pub open: Option<(String, Vec<String>)>,
    pub machine_mode: bool,
}

impl View for FunctionScanner {
    type V = FunctionScan;

    open spec fn view(&self) -> FunctionScan {
        FunctionScan {
            done: self.functions.deep_view(),
            open: match self.open {
                Some(f) => Some(f.deep_view()),
                None => None,
            },
            machine_mode: self.machine_mode,
        }
    }
}

impl FunctionScanner {
    /// A scan before its first line.
    pub fn new() -> (r: FunctionScanner)
        ensures
            r@ == function_scan_start(),
    {
        let r = FunctionScanner { functions: Vec::new(), open: None, machine_mode: false };
        assert(r.functions.deep_view() =~= Seq::empty());
        r
    }

    /// Takes one more line, of which `closes` says whether it ends the open
    /// function.
    pub fn feed(self, line: &[char], closes: bool) -> (r: FunctionScanner)
        ensures
            r@ == function_step(self@, line@, closes),
    {
        let FunctionScanner { mut functions, open, machine_mode } = self;
        let started = match ir_function(line) {
            Some(name) => Some((name, false)),
            None => match machine_function(line) {
                Some(name) => Some((name, true)),
                None => None,
            },
        };
        match started {
            Some((name, machine)) => {
                match open {
                    Some((previous, lines)) => {
                        store(&mut functions, previous, lines);
                    },
                    None => {},
                }
                let first = from_chars(line);
                let lines = vec![first];
                assert(lines.deep_view() =~= seq![line@]);
                FunctionScanner { functions, open: Some((name, lines)), machine_mode: machine }
            },
            None => match open {
                None => {
                    if has_prefix(line, "; Preheader:") {
                        let first = from_chars(line);
                        let lines = vec![first];
                        assert(lines.deep_view() =~= seq![line@]);
                        FunctionScanner {
                            functions,
                            open: Some((LOOP.to_owned(), lines)),
                            machine_mode,
                        }
                    } else {
                        FunctionScanner { functions, open: None, machine_mode }
                    }
                },
                Some((name, mut lines)) => {
                    let ghost before = lines.deep_view();
                    lines.push(from_chars(line));
                    assert(lines.deep_view() =~= before.push(line@));
                    if closes {
                        store(&mut functions, name, lines);
                        FunctionScanner { functions, open: None, machine_mode }
                    } else {
                        FunctionScanner { functions, open: Some((name, lines)), machine_mode }
                    }
                },
            },
        }
    }

    /// Ends the scan: the functions, the open one stored.
    pub fn finish(self) -> (r: Vec<(String, Vec<String>)>)
        ensures
            r.deep_view() == stored(self@),
    {
        let FunctionScanner { mut functions, open, machine_mode: _ } = self;
        match open {
            Some((name, lines)) => {
                store(&mut functions, name, lines);
            },
            None => {},
        }
        functions
    }
}

impl LlvmPassDumpParser {
    /// Whether `line` ends the open function, a machine function if
    /// `machine_mode` says so.
    pub fn ends_function(&self, machine_mode: bool, line: &[char]) -> (r: bool)
        ensures
            r == closes_function(machine_mode, line@),
    {
        let text = from_chars(trimmed(line));
        self.matches_function_end(machine_mode, text.as_str())
    }

    /// Cuts the section `dump` into the functions that its body shows.
    pub fn breakdown_pass_dumps_into_functions(&self, dump: PassDump) -> (r: SplitPassDump)
        ensures
            r@ == split_functions(dump@),
    {
        let chars = to_chars(dump.lines.as_str());
        let all = split_lines(chars.as_slice());
        let ghost ls = texts(all@);
        let mut scanner = FunctionScanner::new();
        let mut i: usize = 0;
        assert(ls.take(0) =~= Seq::<Seq<char>>::empty());
        while i < all.len()
            invariant
                i <= all.len(),
                ls == texts(all@),
                scanner@ == function_scan(ls.take(i as int)),
            decreases all.len() - i,
        {
            assert(ls.take(i + 1).drop_last() =~= ls.take(i as int));
            assert(ls.take(i + 1).last() == ls[i as int]);
            let closes = self.ends_function(scanner.machine_mode, all[i].as_slice());
            scanner = scanner.feed(all[i].as_slice(), closes);
            i += 1;
        }
        assert(ls.take(all.len() as int) =~= ls);
        SplitPassDump { header: dump.header, machine: dump.machine, functions: scanner.finish() }
    }
}

} // verus!
