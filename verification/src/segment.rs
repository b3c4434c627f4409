//! Cutting a transcript into sections: a header line opens a section, and the
//! lines that follow, up to the next header, are its body.

use crate::dump::{PassDump, PassDumpView};
use crate::optpipeline::LlvmPassDumpParser;
use crate::text::{
    find_first, find_item, has_prefix, is_blank, lines, search, search_char, split_lines, starts_with,
    texts, blank, from_chars,
};
use vstd::prelude::*;
use vstd::string::StrSliceExecFns;

verus! {

/// The number of characters before the name in a header line: those of the
/// marker that the line begins with, if it begins with one.
pub open spec fn marker_len(line: Seq<char>) -> Option<int> {
    if starts_with(line, "; *** "@) {
        Some("; *** "@.len() as int)
    } else if starts_with(line, "# *** "@) {
        Some("# *** "@.len() as int)
    } else if starts_with(line, "*** "@) {
        Some("*** "@.len() as int)
    } else {
        None
    }
}

/// The function or loop that a header line names in `(function: ..)` or
/// `(loop: ..)`: the text between the blank after the colon and the next
/// closing bracket.
pub open spec fn annotation(line: Seq<char>) -> Option<Seq<char>> {
    let at = match find_first(line, "(function: "@) {
        Some(i) => Some(i),
        None => find_first(line, "(loop: "@),
    };
    match at {
        Some(i) => {
            let content = line.skip(i + 1);
            match (find_item(content, ' '), find_item(content, ')')) {
                (Some(blank), Some(close)) if blank < close => Some(
                    content.subrange(blank + 1, close),
                ),
                _ => None,
            }
        },
        None => None,
    }
}

/// The section that `line` opens, its body still empty, if `line` is a
/// header: one of the three markers, then the name, which ends where three
/// stars follow a blank. A header that begins with `#` is one of machine code.
pub open spec fn section_start(line: Seq<char>) -> Option<PassDumpView> {
    match marker_len(line) {
        Some(n) => {
            let rest = line.skip(n);
            match find_first(rest, " ***"@) {
                Some(k) => Some(
                    PassDumpView {
                        header: rest.take(k),
                        affected_function: annotation(line),
                        machine: starts_with(line, "# *** "@),
                        lines: Seq::empty(),
                    },
                ),
                None => None,
            }
        },
        None => None,
    }
}

/// Where the scan of a transcript stands: the sections that are closed, the
/// one that is open, whether the line before was blank or a header, and
/// whether the scan has ended before the end of the transcript.
pub struct SegmentScan {
    pub done: Seq<PassDumpView>,
    pub open: Option<PassDumpView>,
    pub last_was_blank: bool,
    pub stopped: bool,
}

/// The sections of a scan, the open one closed.
pub open spec fn closed(scan: SegmentScan) -> Seq<PassDumpView> {
    match scan.open {
        Some(section) => scan.done.push(section),
        None => scan.done,
    }
}

/// `section` with `line` and a line feed added to its body.
pub open spec fn with_line(section: PassDumpView, line: Seq<char>) -> PassDumpView {
    PassDumpView { lines: section.lines + line.push('\n'), ..section }
}

/// The scan after one more line. A header closes the open section and opens
/// its own; with `stop_at_machine_code` a header of machine code ends the scan
/// instead. Any other line goes to the open section, but a blank line only
/// when the line before it was neither blank nor the header; without an open
/// section it is dropped.
pub open spec fn segment_step(scan: SegmentScan, line: Seq<char>, stop_at_machine_code: bool)
    -> SegmentScan {
    if scan.stopped {
        scan
    } else {
        match section_start(line) {
            Some(section) => {
                if stop_at_machine_code && section.machine {
                    SegmentScan {
                        done: closed(scan),
                        open: None,
                        last_was_blank: true,
                        stopped: true,
                    }
                } else {
                    SegmentScan {
                        done: closed(scan),
                        open: Some(section),
                        last_was_blank: true,
                        stopped: false,
                    }
                }
            },
            None => match scan.open {
                Some(section) => {
                    if is_blank(line) {
                        if scan.last_was_blank {
                            scan
                        } else {
                            SegmentScan {
                                open: Some(with_line(section, line)),
                                last_was_blank: true,
                                ..scan
                            }
                        }
                    } else {
                        SegmentScan {
                            open: Some(with_line(section, line)),
                            last_was_blank: false,
                            ..scan
                        }
                    }
                },
                None => scan,
            },
        }
    }
}

/// The scan after all of `lines`, from a start with no section.
pub open spec fn segment_scan(lines: Seq<Seq<char>>, stop_at_machine_code: bool) -> SegmentScan
    decreases lines.len(),
{
    if lines.len() == 0 {
        SegmentScan { done: Seq::empty(), open: None, last_was_blank: false, stopped: false }
    } else {
        segment_step(
            segment_scan(lines.drop_last(), stop_at_machine_code),
            lines.last(),
            stop_at_machine_code,
        )
    }
}

/// The sections of the transcript `text`, in its order.
pub open spec fn segments(text: Seq<char>, stop_at_machine_code: bool) -> Seq<PassDumpView> {
    closed(segment_scan(lines(text), stop_at_machine_code))
}

/// A scan that has ended stays as it is, whatever lines follow.
pub proof fn lemma_stopped_scan_stays(
    lines: Seq<Seq<char>>,
    n: int,
    stop_at_machine_code: bool,
)
    requires
        0 <= n <= lines.len(),
        segment_scan(lines.take(n), stop_at_machine_code).stopped,
    ensures
        segment_scan(lines, stop_at_machine_code) == segment_scan(
            lines.take(n),
            stop_at_machine_code,
        ),
    decreases lines.len() - n,
{
    if n == lines.len() {
        assert(lines.take(n) =~= lines);
    } else {
        assert(lines.drop_last().take(n) =~= lines.take(n));
        lemma_stopped_scan_stays(lines.drop_last(), n, stop_at_machine_code);
    }
}

/// A transcript without a header line has no sections.
pub proof fn lemma_no_header_no_segments(lines: Seq<Seq<char>>, stop_at_machine_code: bool)
    requires
        forall|i: int| 0 <= i < lines.len() ==> section_start(#[trigger] lines[i]) is None,
    ensures
        segment_scan(lines, stop_at_machine_code) == segment_scan(
            Seq::empty(),
            stop_at_machine_code,
        ),
        closed(segment_scan(lines, stop_at_machine_code)) == Seq::<PassDumpView>::empty(),
    decreases lines.len(),
{
    if lines.len() > 0 {
        lemma_no_header_no_segments(lines.drop_last(), stop_at_machine_code);
    }
}

/// The lines of a section's body that are kept: every line that is not
/// blank, and a blank line where the line before it is a line of the body
/// that is not blank.
pub open spec fn kept_lines(body: Seq<Seq<char>>) -> Seq<Seq<char>>
    decreases body.len(),
{
    if body.len() == 0 {
        Seq::empty()
    } else {
        let before = kept_lines(body.drop_last());
        if is_blank(body.last()) && (body.len() == 1 || is_blank(body[body.len() - 2])) {
            before
        } else {
            before.push(body.last())
        }
    }
}

/// The text of `lines`: each line with a line feed after it.
pub open spec fn text_of(lines: Seq<Seq<char>>) -> Seq<char>
    decreases lines.len(),
{
    if lines.len() == 0 {
        Seq::empty()
    } else {
        text_of(lines.drop_last()) + lines.last().push('\n')
    }
}

/// The scan after a header line and the lines `body` of its section, none of
/// which is a header: the section is open, and its body is the text of the
/// lines of `body` that are kept.
pub proof fn lemma_section_scan(
    before: Seq<Seq<char>>,
    header: Seq<char>,
    body: Seq<Seq<char>>,
    stop_at_machine_code: bool,
)
    requires
        !segment_scan(before, stop_at_machine_code).stopped,
        section_start(header) is Some,
        !(stop_at_machine_code && section_start(header)->0.machine),
        forall|k: int| 0 <= k < body.len() ==> section_start(#[trigger] body[k]) is None,
    ensures
        segment_scan(before + seq![header] + body, stop_at_machine_code) == (SegmentScan {
            done: closed(segment_scan(before, stop_at_machine_code)),
            open: Some(
                PassDumpView { lines: text_of(kept_lines(body)), ..section_start(header)->0 },
            ),
            last_was_blank: body.len() == 0 || is_blank(body.last()),
            stopped: false,
        }),
    decreases body.len(),
{
    let all = before + seq![header] + body;
    if body.len() == 0 {
        assert(all.drop_last() =~= before);
        assert(all.last() == header);
    } else {
        assert(all.drop_last() =~= before + seq![header] + body.drop_last());
        assert(all.last() == body.last());
        lemma_section_scan(before, header, body.drop_last(), stop_at_machine_code);
        if body.len() > 1 {
            assert(body.drop_last().last() == body[body.len() - 2]);
        }
        let kept = kept_lines(body.drop_last());
        assert(kept.push(body.last()).drop_last() =~= kept);
        assert(section_start(body[body.len() - 1]) is None);
    }
}

/// The body of a section is the transcript's own text, but for runs of blank
/// lines: after a header line come the lines `body` of its section, and the
/// section that the scan gives out has as its body the lines of `body` one
/// after another, each with its line feed, with only the first line of every
/// run of blank lines and none of a run that follows the header.
pub proof fn lemma_section_body(
    before: Seq<Seq<char>>,
    header: Seq<char>,
    body: Seq<Seq<char>>,
    stop_at_machine_code: bool,
)
    requires
        !segment_scan(before, stop_at_machine_code).stopped,
        section_start(header) is Some,
        !(stop_at_machine_code && section_start(header)->0.machine),
        forall|k: int| 0 <= k < body.len() ==> section_start(#[trigger] body[k]) is None,
    ensures
        closed(segment_scan(before + seq![header] + body, stop_at_machine_code)) == closed(
            segment_scan(before, stop_at_machine_code),
        ).push(PassDumpView { lines: text_of(kept_lines(body)), ..section_start(header)->0 }),
{
    lemma_section_scan(before, header, body, stop_at_machine_code);
}

/// A section that is closed stays where it is, whatever lines follow: the
/// closed sections after the first `n` lines are the first closed sections
/// after all lines.
pub proof fn lemma_closed_sections_stay(
    lines: Seq<Seq<char>>,
    n: int,
    stop_at_machine_code: bool,
)
    requires
        0 <= n <= lines.len(),
    ensures
        segment_scan(lines.take(n), stop_at_machine_code).done.len() <= segment_scan(
            lines,
            stop_at_machine_code,
        ).done.len(),
        forall|k: int|
            0 <= k < segment_scan(lines.take(n), stop_at_machine_code).done.len()
                ==> #[trigger] segment_scan(lines, stop_at_machine_code).done[k] == segment_scan(
                lines.take(n),
                stop_at_machine_code,
            ).done[k],
    decreases lines.len() - n,
{
    if n == lines.len() {
        assert(lines.take(n) =~= lines);
    } else {
        assert(lines.drop_last().take(n) =~= lines.take(n));
        lemma_closed_sections_stay(lines.drop_last(), n, stop_at_machine_code);
    }
}

/// The body of every section of a transcript is the transcript's own text,
/// but for runs of blank lines. Where the lines of a transcript are the
/// lines `before`, a header, the lines `body` without a header, and the lines
/// `rest`, which are none or begin with a header, the section of that header
/// comes after the sections of `before`, and its body is the lines of `body`
/// one after another, each with its line feed, with only the first line of
/// every run of blank lines and none of a run that follows the header.
pub proof fn lemma_section_in_transcript(
    before: Seq<Seq<char>>,
    header: Seq<char>,
    body: Seq<Seq<char>>,
    rest: Seq<Seq<char>>,
    stop_at_machine_code: bool,
)
    requires
        !segment_scan(before, stop_at_machine_code).stopped,
        section_start(header) is Some,
        !(stop_at_machine_code && section_start(header)->0.machine),
        forall|k: int| 0 <= k < body.len() ==> section_start(#[trigger] body[k]) is None,
        rest.len() == 0 || section_start(rest[0]) is Some,
    ensures
        ({
            let all = before + seq![header] + body + rest;
            let sections = closed(segment_scan(all, stop_at_machine_code));
            let at = closed(segment_scan(before, stop_at_machine_code)).len() as int;
            &&& at < sections.len()
            &&& sections[at] == (PassDumpView {
                lines: text_of(kept_lines(body)),
                ..section_start(header)->0
            })
        }),
{
    let all = before + seq![header] + body + rest;
    let open = before + seq![header] + body;
    lemma_section_scan(before, header, body, stop_at_machine_code);
    if rest.len() == 0 {
        assert(all =~= open);
    } else {
        let next = open.push(rest[0]);
        assert(next.drop_last() =~= open);
        assert(next.last() == rest[0]);
        assert(all.take(next.len() as int) =~= next);
        lemma_closed_sections_stay(all, next.len() as int, stop_at_machine_code);
        let at = closed(segment_scan(before, stop_at_machine_code)).len() as int;
        assert(segment_scan(next, stop_at_machine_code).done[at] == (PassDumpView {
            lines: text_of(kept_lines(body)),
            ..section_start(header)->0
        }));
        assert(segment_scan(all, stop_at_machine_code).done[at] == segment_scan(
            next,
            stop_at_machine_code,
        ).done[at]);
    }
}

/// With `stop_at_machine_code` no section of machine code is cut: the scan
/// ends where the first one would begin.
pub proof fn lemma_stopped_scan_has_no_machine_code(lines: Seq<Seq<char>>)
    ensures
        forall|k: int|
            0 <= k < closed(segment_scan(lines, true)).len() ==> !(#[trigger] closed(
                segment_scan(lines, true),
            )[k]).machine,
    decreases lines.len(),
{
    if lines.len() > 0 {
        lemma_stopped_scan_has_no_machine_code(lines.drop_last());
        let before = segment_scan(lines.drop_last(), true);
        let after = segment_scan(lines, true);
        assert forall|k: int| 0 <= k < closed(after).len() implies !(#[trigger] closed(
            after,
        )[k]).machine by {
            if k < closed(before).len() {
                assert(!closed(before)[k].machine);
                if before.open is Some && k == before.done.len() {
                    assert(closed(before)[k] == before.open->0);
                }
            }
        }
    }
}

/// Where no header of machine code stands in a transcript, it makes no
/// difference whether the scan is to stop at the first one.
pub proof fn lemma_stop_without_machine_code(lines: Seq<Seq<char>>)
    requires
        forall|i: int|
            0 <= i < lines.len() ==> (section_start(#[trigger] lines[i]) matches Some(section)
                ==> !section.machine),
    ensures
        segment_scan(lines, true) == segment_scan(lines, false),
    decreases lines.len(),
{
    if lines.len() > 0 {
        lemma_stop_without_machine_code(lines.drop_last());
    }
}

/// The function or loop that the header `line` names.
pub fn header_annotation(line: &[char]) -> (r: Option<String>)
    ensures
        match r {
            Some(name) => annotation(line@) == Some(name@),
            None => annotation(line@) is None,
        },
{
    let at = match search(line, "(function: ") {
        Some(i) => Some(i),
        None => search(line, "(loop: "),
    };
    match at {
        Some(i) => {
            proof {
                reveal_strlit("(function: ");
                reveal_strlit("(loop: ");
            }
            let content = &line[i + 1..line.len()];
            assert(content@ =~= line@.skip(i + 1));
            match (search_char(content, ' '), search_char(content, ')')) {
                (Some(blank), Some(close)) => {
                    if blank < close {
                        Some(from_chars(&content[blank + 1..close]))
                    } else {
                        None
                    }
                },
                _ => None,
            }
        },
        None => None,
    }
}

/// The section that the header `line` opens, if `line` is a header.
pub fn open_section(line: &[char]) -> (r: Option<PassDump>)
    ensures
        match r {
            Some(section) => section_start(line@) == Some(section@),
            None => section_start(line@) is None,
        },
{
    let machine = has_prefix(line, "# *** ");
    let n: usize = if has_prefix(line, "; *** ") {
        "; *** ".unicode_len()
    } else if machine {
        "# *** ".unicode_len()
    } else if has_prefix(line, "*** ") {
        "*** ".unicode_len()
    } else {
        return None;
    };
    let rest = &line[n..line.len()];
    assert(rest@ =~= line@.skip(n as int));
    match search(rest, " ***") {
        Some(k) => {
            assert(rest@.subrange(0, k as int) =~= rest@.take(k as int));
            Some(
                PassDump {
                    header: from_chars(&rest[0..k]),
                    affected_function: header_annotation(line),
                    machine,
                    lines: String::new(),
                },
            )
        },
        None => None,
    }
}

/// Adds `line` and a line feed to `body`.
pub fn push_line(body: &mut String, line: &[char])
    ensures
        final(body)@ == old(body)@ + line@.push('\n'),
{
    let mut i: usize = 0;
    while i < line.len()
        invariant
            i <= line.len(),
            body@ == old(body)@ + line@.take(i as int),
        decreases line.len() - i,
    {
        body.push(line[i]);
        i += 1;
        assert(body@ =~= old(body)@ + line@.take(i as int));
    }
    body.push('\n');
    assert(line@.take(line.len() as int) =~= line@);
    assert(body@ =~= old(body)@ + line@.push('\n'));
}

impl LlvmPassDumpParser {
    /// Cuts the transcript `ir` into its sections.
    pub fn breakdown_output_into_pass_dumps(&self, ir: &str, stop_at_machine_code: bool) -> (r:
        Vec<PassDump>)
        ensures
            r.deep_view() == segments(ir@, stop_at_machine_code),
    {
        let chars = crate::text::to_chars(ir);
        let all = split_lines(chars.as_slice());
        let ghost ls = texts(all@);
        let mut done: Vec<PassDump> = Vec::new();
        let mut open: Option<PassDump> = None;
        let mut last_was_blank = false;
        let mut i: usize = 0;
        assert(ls.take(0) =~= Seq::<Seq<char>>::empty());
        assert(done.deep_view() =~= Seq::<PassDumpView>::empty());
        while i < all.len()
            invariant
                i <= all.len(),
                ls == texts(all@),
                ls == lines(ir@),
                segment_scan(ls.take(i as int), stop_at_machine_code) == (SegmentScan {
                    done: done.deep_view(),
                    open: match open {
                        Some(section) => Some(section@),
                        None => None,
                    },
                    last_was_blank,
                    stopped: false,
                }),
            decreases all.len() - i,
        {
            let ghost before = segment_scan(ls.take(i as int), stop_at_machine_code);
            let ghost line = ls[i as int];
            assert(ls.take(i + 1).drop_last() =~= ls.take(i as int));
            assert(ls.take(i + 1).last() == line);
            assert(segment_scan(ls.take(i + 1), stop_at_machine_code) == segment_step(
                before,
                line,
                stop_at_machine_code,
            ));
            let ghost old_done = done.deep_view();
            match open_section(all[i].as_slice()) {
                Some(section) => {
                    match open {
                        Some(previous) => {
                            done.push(previous);
                            assert(done.deep_view() =~= old_done.push(previous@));
                        },
                        None => {},
                    }
                    if stop_at_machine_code && section.machine {
                        proof {
                            lemma_stopped_scan_stays(ls, i + 1, stop_at_machine_code);
                        }
                        return done;
                    }
                    open = Some(section);
                    last_was_blank = true;
                },
                None => {
                    match open {
                        Some(mut section) => {
                            let is_blank_line = blank(all[i].as_slice());
                            if !(is_blank_line && last_was_blank) {
                                push_line(&mut section.lines, all[i].as_slice());
                            }
                            last_was_blank = is_blank_line;
                            open = Some(section);
                        },
                        None => {},
                    }
                },
            }
            i += 1;
        }
        assert(ls.take(all.len() as int) =~= ls);
        match open {
            Some(section) => {
                let ghost old_done = done.deep_view();
                done.push(section);
                assert(done.deep_view() =~= old_done.push(section@));
            },
            None => {},
        }
        done
    }
}

} // verus!
