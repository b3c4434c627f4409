//! Pairing the sections of one function into passes: the dump before a pass
//! with the dump after it.

use crate::dump::{
    OptPipelineResults, Pass, PassDump, PassDumpError, PassDumpErrorView, PassDumpView,
    PassDumpsByFunction, PassView,
};
use crate::optpipeline::LlvmPassDumpParser;
use crate::text::{ends_with, from_chars, has_prefix, has_suffix, starts_with, to_chars};
use vstd::pervasive::unreached;
use vstd::prelude::*;
use vstd::string::StrSliceExecFns;

verus! {

/// What the header of a dump taken after a pass begins with.
pub const AFTER: &'static str = "IR Dump After ";

/// What the header of a dump taken before a pass begins with.
pub const BEFORE: &'static str = "IR Dump Before ";

/// What ends the header of a dump taken after a pass that was rolled back.
pub const INVALIDATED: &'static str = " (invalidated)";

/// The name of the pass, if `header` is that of a dump taken after a pass.
pub open spec fn after_name(header: Seq<char>) -> Option<Seq<char>> {
    if starts_with(header, AFTER@) {
        Some(header.skip(AFTER@.len() as int))
    } else {
        None
    }
}

/// The name of the pass, if `header` is that of a dump taken before a pass.
pub open spec fn before_name(header: Seq<char>) -> Option<Seq<char>> {
    if starts_with(header, BEFORE@) {
        Some(header.skip(BEFORE@.len() as int))
    } else {
        None
    }
}

/// `name` without the mark of a pass that was rolled back.
pub open spec fn without_invalidated(name: Seq<char>) -> Seq<char> {
    if ends_with(name, INVALIDATED@) {
        name.take(name.len() - INVALIDATED@.len())
    } else {
        name
    }
}

/// Whether the pass named `before` and the pass named in `after`, which may
/// be marked as rolled back, are the same; else the mismatch of the two
/// names, each as its header has it.
pub open spec fn names_agree(before: Seq<char>, after: Seq<char>) -> Result<
    (),
    PassDumpErrorView,
> {
    if before == without_invalidated(after) {
        Ok(())
    } else {
        Err(PassDumpErrorView::PassMismatch { before_header: before, after_header: after })
    }
}

/// `header` is that of a dump taken before a pass or after a pass.
pub open spec fn decodes(header: Seq<char>) -> bool {
    before_name(header) is Some || after_name(header) is Some
}

/// The sections `before` and `after` are a dump before a pass and the dump
/// after the same pass, but not at the same level: one is machine code, the
/// other is not.
pub open spec fn uneven_pair(before: PassDumpView, after: PassDumpView) -> bool {
    &&& after_name(before.header) is None
    &&& before_name(before.header) is Some
    &&& after_name(after.header) is Some
    &&& names_agree(before_name(before.header)->0, after_name(after.header)->0) is Ok
    &&& before.machine != after.machine
}

/// What the matcher relies on in the sections of one function: every header
/// is that of a dump before or after a pass, and a dump before a pass and
/// the dump after the same pass that follows it are at the same level.
pub open spec fn well_formed(dumps: Seq<PassDumpView>) -> bool {
    &&& forall|i: int| 0 <= i < dumps.len() ==> decodes((#[trigger] dumps[i]).header)
    &&& forall|i: int|
        0 <= i < dumps.len() - 1 ==> !uneven_pair(#[trigger] dumps[i], dumps[i + 1])
}

/// What the matcher relies on in a table of sections: the sections of every
/// function are well formed.
pub open spec fn table_well_formed(table: Seq<(Seq<char>, Seq<PassDumpView>)>) -> bool {
    forall|k: int| 0 <= k < table.len() ==> well_formed((#[trigger] table[k]).1)
}

/// The first section from index `i` on that is not as the matcher relies on
/// it, as a refusal: a header of another shape, or a pair at two levels.
pub open spec fn violation_from(dumps: Seq<PassDumpView>, i: int) -> Option<PassDumpErrorView>
    decreases dumps.len() - i,
{
    if i < 0 || i >= dumps.len() {
        None
    } else if !decodes(dumps[i].header) {
        Some(PassDumpErrorView::UnexpectedHeader { header: dumps[i].header })
    } else if i + 1 < dumps.len() && uneven_pair(dumps[i], dumps[i + 1]) {
        Some(PassDumpErrorView::LevelMismatch { header: dumps[i].header })
    } else {
        violation_from(dumps, i + 1)
    }
}

/// The first refusal among the sections of the functions of `table` from
/// index `k` on, in the order of the table.
pub open spec fn table_violation_from(table: Seq<(Seq<char>, Seq<PassDumpView>)>, k: int)
    -> Option<PassDumpErrorView>
    decreases table.len() - k,
{
    if k < 0 || k >= table.len() {
        None
    } else {
        match violation_from(table[k].1, 0) {
            Some(e) => Some(e),
            None => table_violation_from(table, k + 1),
        }
    }
}

/// The first refusal among the sections of the functions of `table`.
pub open spec fn table_violation(table: Seq<(Seq<char>, Seq<PassDumpView>)>) -> Option<
    PassDumpErrorView,
> {
    table_violation_from(table, 0)
}

/// Sections are without a refusal from index `i` on exactly when they are as
/// the matcher relies on them from there on.
pub proof fn lemma_violation_from(dumps: Seq<PassDumpView>, i: int)
    requires
        0 <= i,
    ensures
        violation_from(dumps, i) is None <==> {
            &&& forall|j: int| i <= j < dumps.len() ==> decodes((#[trigger] dumps[j]).header)
            &&& forall|j: int|
                i <= j < dumps.len() - 1 ==> !uneven_pair(#[trigger] dumps[j], dumps[j + 1])
        },
    decreases dumps.len() - i,
{
    if i < dumps.len() {
        lemma_violation_from(dumps, i + 1);
        if violation_from(dumps, i) is None {
            assert forall|j: int| i <= j < dumps.len() implies decodes(
                (#[trigger] dumps[j]).header,
            ) by {
                if j > i {
                }
            }
        }
    }
}

/// A table is without a refusal from index `k` on exactly when the sections
/// of every function from there on are well formed.
pub proof fn lemma_table_violation_from(table: Seq<(Seq<char>, Seq<PassDumpView>)>, k: int)
    requires
        0 <= k,
    ensures
        table_violation_from(table, k) is None <==> forall|j: int|
            k <= j < table.len() ==> well_formed((#[trigger] table[j]).1),
    decreases table.len() - k,
{
    if k < table.len() {
        lemma_table_violation_from(table, k + 1);
        lemma_violation_from(table[k].1, 0);
    }
}

/// Well-formed sections are matched or mismatched, and refused in no other
/// way.
pub proof fn lemma_well_formed_matched(dumps: Seq<PassDumpView>)
    requires
        well_formed(dumps),
    ensures
        matched(dumps) matches Err(e) ==> e is PassMismatch,
{
    lemma_well_formed_match_from(dumps, 0, Seq::empty());
}

/// The same from index `i` on.
proof fn lemma_well_formed_match_from(dumps: Seq<PassDumpView>, i: int, passes: Seq<PassView>)
    requires
        well_formed(dumps),
    ensures
        match_from(dumps, i, passes) matches Err(e) ==> e is PassMismatch,
    decreases dumps.len() - i,
{
    if 0 <= i < dumps.len() {
        let current = dumps[i];
        assert(decodes(current.header));
        match after_name(current.header) {
            Some(name) => {
                let pass = PassView {
                    name,
                    machine: current.machine,
                    after: current.lines,
                    before: Seq::empty(),
                    ir_changed: true,
                };
                lemma_well_formed_match_from(dumps, i + 1, passes.push(finished(passes, pass)));
            },
            None => {
                let name = before_name(current.header)->0;
                if i + 1 < dumps.len() && after_name(dumps[i + 1].header) is Some {
                    let next = dumps[i + 1];
                    assert(!uneven_pair(current, next));
                    let pass = PassView {
                        name,
                        machine: current.machine,
                        after: next.lines,
                        before: current.lines,
                        ir_changed: true,
                    };
                    lemma_well_formed_match_from(
                        dumps,
                        i + 2,
                        passes.push(finished(passes, pass)),
                    );
                } else {
                    let pass = PassView {
                        name,
                        machine: current.machine,
                        after: Seq::empty(),
                        before: current.lines,
                        ir_changed: true,
                    };
                    lemma_well_formed_match_from(
                        dumps,
                        i + 1,
                        passes.push(finished(passes, pass)),
                    );
                }
            },
        }
    }
}

/// The pass `pass` as it is stored after the passes `earlier`. Where the pass
/// before it was on IR and this one is on machine code and changes it, its
/// text before is what the earlier pass left. Whether it changed anything is
/// then read off the two texts.
pub open spec fn finished(earlier: Seq<PassView>, pass: PassView) -> PassView {
    let before = if earlier.len() > 0 && !earlier.last().machine && pass.machine && pass.before
        != pass.after {
        earlier.last().after
    } else {
        pass.before
    };
    PassView { before, ir_changed: before != pass.after, ..pass }
}

/// The passes of the sections `dumps` from index `i` on, after the passes
/// `passes` of the sections before. A dump after a pass is a pass of its own,
/// with nothing before. A dump before a pass is paired with the dump that
/// follows it, if that one was taken after a pass: the two names must agree
/// and the two must be at the same level. Else it is a pass with nothing
/// after. A header of any other shape is refused.
pub open spec fn match_from(dumps: Seq<PassDumpView>, i: int, passes: Seq<PassView>) -> Result<
    Seq<PassView>,
    PassDumpErrorView,
>
    decreases dumps.len() - i,
{
    if i < 0 || i >= dumps.len() {
        Ok(passes)
    } else {
        let current = dumps[i];
        match after_name(current.header) {
            Some(name) => match_from(
                dumps,
                i + 1,
                passes.push(
                    finished(
                        passes,
                        PassView {
                            name,
                            machine: current.machine,
                            after: current.lines,
                            before: Seq::empty(),
                            ir_changed: true,
                        },
                    ),
                ),
            ),
            None => match before_name(current.header) {
                Some(name) => {
                    if i + 1 < dumps.len() && after_name(dumps[i + 1].header) is Some {
                        let next = dumps[i + 1];
                        match names_agree(name, after_name(next.header)->0) {
                            Err(e) => Err(e),
                            Ok(_) => {
                                if current.machine != next.machine {
                                    Err(
                                        PassDumpErrorView::LevelMismatch {
                                            header: current.header,
                                        },
                                    )
                                } else {
                                    match_from(
                                        dumps,
                                        i + 2,
                                        passes.push(
                                            finished(
                                                passes,
                                                PassView {
                                                    name,
                                                    machine: current.machine,
                                                    after: next.lines,
                                                    before: current.lines,
                                                    ir_changed: true,
                                                },
                                            ),
                                        ),
                                    )
                                }
                            },
                        }
                    } else {
                        match_from(
                            dumps,
                            i + 1,
                            passes.push(
                                finished(
                                    passes,
                                    PassView {
                                        name,
                                        machine: current.machine,
                                        after: Seq::empty(),
                                        before: current.lines,
                                        ir_changed: true,
                                    },
                                ),
                            ),
                        )
                    }
                },
                None => Err(PassDumpErrorView::UnexpectedHeader { header: current.header }),
            },
        }
    }
}

/// The passes of one function, from its sections `dumps`.
pub open spec fn matched(dumps: Seq<PassDumpView>) -> Result<Seq<PassView>, PassDumpErrorView> {
    match_from(dumps, 0, Seq::empty())
}

/// The passes of every function of `table`, or the first refusal in the order
/// of the table.
pub open spec fn matched_table(table: Seq<(Seq<char>, Seq<PassDumpView>)>) -> Result<
    Seq<(Seq<char>, Seq<PassView>)>,
    PassDumpErrorView,
>
    decreases table.len(),
{
    if table.len() == 0 {
        Ok(Seq::empty())
    } else {
        match matched_table(table.drop_last()) {
            Ok(before) => match matched(table.last().1) {
                Ok(passes) => Ok(before.push((table.last().0, passes))),
                Err(e) => Err(e),
            },
            Err(e) => Err(e),
        }
    }
}

/// Once a function of the table is refused, the table is refused with it.
pub proof fn lemma_matched_table_fails(table: Seq<(Seq<char>, Seq<PassDumpView>)>, n: int)
    requires
        0 <= n <= table.len(),
        matched_table(table.take(n)) is Err,
    ensures
        matched_table(table) == matched_table(table.take(n)),
    decreases table.len() - n,
{
    if n == table.len() {
        assert(table.take(n) =~= table);
    } else {
        assert(table.drop_last().take(n) =~= table.take(n));
        lemma_matched_table_fails(table.drop_last(), n);
    }
}

/// Every pass in `passes` says that it changed something exactly when its
/// two texts differ.
pub open spec fn changes_told(passes: Seq<PassView>) -> bool {
    forall|k: int|
        0 <= k < passes.len() ==> (#[trigger] passes[k]).ir_changed == (passes[k].before
            != passes[k].after)
}

/// A dump taken before a pass and directly followed by the dump taken after
/// the same pass, at the same level, gives exactly one pass: it has the name
/// of the pass and the two bodies as its texts, and it is marked as a change
/// exactly when the two bodies differ.
pub proof fn lemma_pair_is_one_pass(before: PassDumpView, after: PassDumpView)
    requires
        before_name(before.header) is Some,
        after_name(after.header) is Some,
        names_agree(before_name(before.header)->0, after_name(after.header)->0) is Ok,
        before.machine == after.machine,
    ensures
        matched(seq![before, after]) == Ok::<Seq<PassView>, PassDumpErrorView>(
            seq![
                PassView {
                    name: before_name(before.header)->0,
                    machine: before.machine,
                    after: after.lines,
                    before: before.lines,
                    ir_changed: before.lines != after.lines,
                },
            ],
        ),
{
    lemma_before_is_not_after(before.header);
    let dumps = seq![before, after];
    let pass = PassView {
        name: before_name(before.header)->0,
        machine: before.machine,
        after: after.lines,
        before: before.lines,
        ir_changed: true,
    };
    let none = Seq::<PassView>::empty();
    assert(dumps[0] == before && dumps[1] == after);
    assert(match_from(dumps, 2, none.push(finished(none, pass))) == Ok::<
        Seq<PassView>,
        PassDumpErrorView,
    >(none.push(finished(none, pass))));
    assert(matched(dumps) == match_from(dumps, 2, none.push(finished(none, pass))));
    assert(none.push(finished(none, pass)) =~= seq![
        PassView {
            name: before_name(before.header)->0,
            machine: before.machine,
            after: after.lines,
            before: before.lines,
            ir_changed: before.lines != after.lines,
        },
    ]);
}

/// The pass of the pair that the sections `before` and `after` make, as it
/// is before it is stored.
pub open spec fn pair_pass(before: PassDumpView, after: PassDumpView) -> PassView {
    PassView {
        name: before_name(before.header)->0,
        machine: before.machine,
        after: after.lines,
        before: before.lines,
        ir_changed: true,
    }
}

/// The sections `before` and `after` are a dump before a pass and the dump
/// after the same pass, at the same level.
pub open spec fn is_pair(before: PassDumpView, after: PassDumpView) -> bool {
    &&& before_name(before.header) is Some
    &&& after_name(after.header) is Some
    &&& names_agree(before_name(before.header)->0, after_name(after.header)->0) is Ok
    &&& before.machine == after.machine
}

/// No pair of `dumps` lies across index `n`: the section before `n` is not a
/// dump before a pass, or the section at `n` is not a dump after a pass.
pub open spec fn splits_at(dumps: Seq<PassDumpView>, n: int) -> bool {
    0 <= n <= dumps.len() && (0 < n < dumps.len() ==> after_name(dumps[n - 1].header) is Some
        || before_name(dumps[n - 1].header) is None || after_name(dumps[n].header) is None)
}

/// The scan of the whole list and the scan of its first `n` sections take
/// the same steps from index `i` up to index `n`.
proof fn lemma_match_prefix_from(
    dumps: Seq<PassDumpView>,
    n: int,
    i: int,
    passes: Seq<PassView>,
)
    requires
        splits_at(dumps, n),
        0 <= i <= n,
        match_from(dumps.take(n), i, passes) is Ok,
    ensures
        match_from(dumps, i, passes) == match_from(
            dumps,
            n,
            match_from(dumps.take(n), i, passes)->Ok_0,
        ),
    decreases n - i,
{
    let first = dumps.take(n);
    if i < n {
        let current = dumps[i];
        assert(first[i] == current);
        if i + 1 < n {
            assert(first[i + 1] == dumps[i + 1]);
        }
        match after_name(current.header) {
            Some(name) => {
                let pass = PassView {
                    name,
                    machine: current.machine,
                    after: current.lines,
                    before: Seq::empty(),
                    ir_changed: true,
                };
                lemma_match_prefix_from(dumps, n, i + 1, passes.push(finished(passes, pass)));
            },
            None => match before_name(current.header) {
                Some(name) => {
                    if i + 1 < n && after_name(first[i + 1].header) is Some {
                        let next = dumps[i + 1];
                        let pass = PassView {
                            name,
                            machine: current.machine,
                            after: next.lines,
                            before: current.lines,
                            ir_changed: true,
                        };
                        lemma_match_prefix_from(
                            dumps,
                            n,
                            i + 2,
                            passes.push(finished(passes, pass)),
                        );
                    } else {
                        let pass = PassView {
                            name,
                            machine: current.machine,
                            after: Seq::empty(),
                            before: current.lines,
                            ir_changed: true,
                        };
                        lemma_match_prefix_from(
                            dumps,
                            n,
                            i + 1,
                            passes.push(finished(passes, pass)),
                        );
                    }
                },
                None => {},
            },
        }
    }
}

/// The passes of a list of sections begin with the passes of its first `n`
/// sections, wherever no pair lies across index `n`: the scan of the whole
/// list goes on from there with the passes of the beginning.
pub proof fn lemma_match_prefix(dumps: Seq<PassDumpView>, n: int)
    requires
        splits_at(dumps, n),
        matched(dumps.take(n)) is Ok,
    ensures
        matched(dumps) == match_from(dumps, n, matched(dumps.take(n))->Ok_0),
{
    lemma_match_prefix_from(dumps, n, 0, Seq::empty());
}

/// Wherever in the sections of a function a dump before a pass is directly
/// followed by the dump after the same pass, at the same level, the pair
/// gives exactly one pass: the scan goes on after the two with one pass more.
/// Unless this is the first pass on machine code after a pass on IR, and
/// changes the code, its texts are the two bodies, and it is marked as a
/// change exactly when the two bodies differ.
pub proof fn lemma_pair_gives_one_pass(dumps: Seq<PassDumpView>, n: int)
    requires
        0 <= n,
        n + 1 < dumps.len(),
        matched(dumps.take(n)) is Ok,
        is_pair(dumps[n], dumps[n + 1]),
    ensures
        ({
            let earlier = matched(dumps.take(n))->Ok_0;
            let pass = finished(earlier, pair_pass(dumps[n], dumps[n + 1]));
            &&& matched(dumps) == match_from(dumps, n + 2, earlier.push(pass))
            &&& pass.name == before_name(dumps[n].header)->0
            &&& pass.after == dumps[n + 1].lines
            &&& pass.ir_changed == (pass.before != pass.after)
            &&& !(earlier.len() > 0 && !earlier.last().machine && dumps[n].machine && dumps[n].lines
                != dumps[n + 1].lines) ==> pass.before == dumps[n].lines && pass.ir_changed == (
            dumps[n].lines != dumps[n + 1].lines)
        }),
{
    lemma_before_is_not_after(dumps[n].header);
    lemma_match_prefix(dumps, n);
}

/// No header is both that of a dump taken before a pass and that of a dump
/// taken after one.
pub proof fn lemma_before_is_not_after(header: Seq<char>)
    ensures
        !(before_name(header) is Some && after_name(header) is Some),
{
    reveal_strlit("IR Dump After ");
    reveal_strlit("IR Dump Before ");
    if before_name(header) is Some && after_name(header) is Some {
        assert(header.subrange(0, AFTER@.len() as int)[8] == 'A');
        assert(header.subrange(0, BEFORE@.len() as int)[8] == 'B');
    }
}

/// Every pass that the matcher gives out says that it changed something
/// exactly when the text before it and the text after it differ.
pub proof fn lemma_changes_told(dumps: Seq<PassDumpView>)
    ensures
        matched(dumps) matches Ok(passes) ==> changes_told(passes),
{
    lemma_changes_told_from(dumps, 0, Seq::empty());
}

/// The scan from index `i` on keeps what holds of the passes before it.
proof fn lemma_changes_told_from(dumps: Seq<PassDumpView>, i: int, passes: Seq<PassView>)
    requires
        changes_told(passes),
    ensures
        match_from(dumps, i, passes) matches Ok(all) ==> changes_told(all),
    decreases dumps.len() - i,
{
    if 0 <= i < dumps.len() {
        let current = dumps[i];
        match after_name(current.header) {
            Some(name) => {
                let pass = PassView {
                    name,
                    machine: current.machine,
                    after: current.lines,
                    before: Seq::empty(),
                    ir_changed: true,
                };
                lemma_changes_told_from(dumps, i + 1, passes.push(finished(passes, pass)));
            },
            None => match before_name(current.header) {
                Some(name) => {
                    if i + 1 < dumps.len() && after_name(dumps[i + 1].header) is Some {
                        let next = dumps[i + 1];
                        let pass = PassView {
                            name,
                            machine: current.machine,
                            after: next.lines,
                            before: current.lines,
                            ir_changed: true,
                        };
                        lemma_changes_told_from(
                            dumps,
                            i + 2,
                            passes.push(finished(passes, pass)),
                        );
                    } else {
                        let pass = PassView {
                            name,
                            machine: current.machine,
                            after: Seq::empty(),
                            before: current.lines,
                            ir_changed: true,
                        };
                        lemma_changes_told_from(
                            dumps,
                            i + 1,
                            passes.push(finished(passes, pass)),
                        );
                    }
                },
                None => {},
            },
        }
    }
}

/// Where every function of a table is matched, the table of passes has the
/// same names in the same order, and each function has the passes of its own
/// sections.
pub proof fn lemma_matched_table_entries(table: Seq<(Seq<char>, Seq<PassDumpView>)>)
    ensures
        matched_table(table) matches Ok(passes) ==> passes.len() == table.len() && forall|i: int|
            0 <= i < table.len() ==> (#[trigger] passes[i]).0 == table[i].0 && matched(table[i].1)
                == Ok::<Seq<PassView>, PassDumpErrorView>(passes[i].1),
    decreases table.len(),
{
    if table.len() > 0 {
        lemma_matched_table_entries(table.drop_last());
    }
}

/// The name of the pass, if `header` is that of a dump taken after a pass.
pub fn name_after(header: &[char]) -> (r: Option<String>)
    ensures
        match r {
            Some(name) => after_name(header@) == Some(name@),
            None => after_name(header@) is None,
        },
{
    if has_prefix(header, AFTER) {
        let n: usize = AFTER.unicode_len();
        assert(header@.subrange(n as int, header.len() as int) =~= header@.skip(n as int));
        Some(from_chars(&header[n..header.len()]))
    } else {
        None
    }
}

/// The name of the pass, if `header` is that of a dump taken before a pass.
pub fn name_before(header: &[char]) -> (r: Option<String>)
    ensures
        match r {
            Some(name) => before_name(header@) == Some(name@),
            None => before_name(header@) is None,
        },
{
    if has_prefix(header, BEFORE) {
        let n: usize = BEFORE.unicode_len();
        assert(header@.subrange(n as int, header.len() as int) =~= header@.skip(n as int));
        Some(from_chars(&header[n..header.len()]))
    } else {
        None
    }
}

/// `name` without the mark of a pass that was rolled back.
pub fn strip_invalidated(name: &str) -> (r: String)
    ensures
        r@ == without_invalidated(name@),
{
    let chars = to_chars(name);
    if has_suffix(chars.as_slice(), INVALIDATED) {
        let n: usize = chars.len() - INVALIDATED.unicode_len();
        assert(chars@.subrange(0, n as int) =~= chars@.take(n as int));
        from_chars(&chars[0..n])
    } else {
        name.to_owned()
    }
}

/// Checks that the header `before` of a dump taken before a pass and the
/// header `after` of a dump taken after a pass name the same pass. The second
/// may be marked as rolled back.
pub fn passes_match(before: &str, after: &str) -> (r: Result<(), PassDumpError>)
    requires
        before_name(before@) is Some,
        after_name(after@) is Some,
    ensures
        match r {
            Ok(_) => names_agree(before_name(before@)->0, after_name(after@)->0) is Ok,
            Err(e) => names_agree(before_name(before@)->0, after_name(after@)->0) == Err::<
                (),
                _,
            >(e@),
        },
{
    let b = to_chars(before);
    let a = to_chars(after);
    let before_name = match name_before(b.as_slice()) {
        Some(name) => name,
        None => { return Ok(()); },
    };
    let after_name = match name_after(a.as_slice()) {
        Some(name) => name,
        None => { return Ok(()); },
    };
    if before_name == strip_invalidated(after_name.as_str()) {
        Ok(())
    } else {
        Err(PassDumpError::PassMismatch { before_header: before_name, after_header: after_name })
    }
}

/// The pass `pass` as it is stored after the passes `earlier`.
pub fn finish(earlier: &Vec<Pass>, pass: Pass) -> (r: Pass)
    ensures
        r@ == finished(earlier.deep_view(), pass@),
{
    let Pass { name, machine, after, before, ir_changed: _ } = pass;
    let n: usize = earlier.len();
    let before = if n > 0 && !earlier[n - 1].machine && machine && before != after {
        earlier[n - 1].after.clone()
    } else {
        before
    };
    let ir_changed = before != after;
    Pass { name, machine, after, before, ir_changed }
}

/// Whether the sections `dumps` of one function are as the matcher relies
/// on them; else the first refusal.
pub fn check_passes(dumps: &Vec<PassDump>) -> (r: Result<(), PassDumpError>)
    ensures
        (r is Ok) <==> well_formed(dumps.deep_view()),
        match r {
            Ok(_) => violation_from(dumps.deep_view(), 0) is None,
            Err(e) => violation_from(dumps.deep_view(), 0) == Some(e@),
        },
{
    let ghost all = dumps.deep_view();
    proof {
        lemma_violation_from(all, 0);
    }
    let mut i: usize = 0;
    while i < dumps.len()
        invariant
            i <= dumps.len(),
            all == dumps.deep_view(),
            violation_from(all, 0) == violation_from(all, i as int),
        decreases dumps.len() - i,
    {
        let current = &dumps[i];
        assert(all[i as int] == current@);
        let header = to_chars(current.header.as_str());
        let after = name_after(header.as_slice());
        let before = name_before(header.as_slice());
        if after.is_none() && before.is_none() {
            return Err(PassDumpError::UnexpectedHeader { header: current.header.clone() });
        }
        if after.is_none() && i + 1 < dumps.len() {
            let next = &dumps[i + 1];
            assert(all[i + 1] == next@);
            let next_header = to_chars(next.header.as_str());
            if name_after(next_header.as_slice()).is_some() && current.machine != next.machine {
                if passes_match(current.header.as_str(), next.header.as_str()).is_ok() {
                    return Err(PassDumpError::LevelMismatch { header: current.header.clone() });
                }
            }
        }
        i += 1;
    }
    Ok(())
}

/// The passes of one function, from its sections `dumps`.
pub fn match_passes(dumps: &Vec<PassDump>) -> (r: Result<Vec<Pass>, PassDumpError>)
    requires
        well_formed(dumps.deep_view()),
    ensures
        match r {
            Ok(passes) => matched(dumps.deep_view()) == Ok::<_, PassDumpErrorView>(
                passes.deep_view(),
            ),
            Err(e) => matched(dumps.deep_view()) == Err::<Seq<PassView>, _>(e@)
                && e@ is PassMismatch,
        },
{
    let ghost all = dumps.deep_view();
    let mut passes: Vec<Pass> = Vec::new();
    assert(passes.deep_view() =~= Seq::empty());
    let mut i: usize = 0;
    while i < dumps.len()
        invariant
            i <= dumps.len(),
            all == dumps.deep_view(),
            well_formed(all),
            matched(all) == match_from(all, i as int, passes.deep_view()),
        decreases dumps.len() - i,
    {
        let current = &dumps[i];
        let ghost earlier = passes.deep_view();
        let header = to_chars(current.header.as_str());
        assert(all[i as int] == current@);
        let pass: Pass;
        let step: usize;
        match name_after(header.as_slice()) {
            Some(name) => {
                pass = Pass {
                    name,
                    machine: current.machine,
                    after: current.lines.clone(),
                    before: String::new(),
                    ir_changed: true,
                };
                step = 1;
            },
            None => match name_before(header.as_slice()) {
                Some(name) => {
                    let follows = if i + 1 < dumps.len() {
                        let next_header = to_chars(dumps[i + 1].header.as_str());
                        name_after(next_header.as_slice())
                    } else {
                        None
                    };
                    match follows {
                        Some(_) => {
                            let next = &dumps[i + 1];
                            assert(all[i + 1] == next@);
                            match passes_match(current.header.as_str(), next.header.as_str()) {
                                Ok(_) => {},
                                Err(e) => { return Err(e); },
                            }
                            assert(!uneven_pair(all[i as int], all[i + 1]));
                            pass = Pass {
                                name,
                                machine: current.machine,
                                after: next.lines.clone(),
                                before: current.lines.clone(),
                                ir_changed: true,
                            };
                            step = 2;
                        },
                        None => {
                            pass = Pass {
                                name,
                                machine: current.machine,
                                after: String::new(),
                                before: current.lines.clone(),
                                ir_changed: true,
                            };
                            step = 1;
                        },
                    }
                },
                None => {
                    assert(decodes(all[i as int].header));
                    return unreached();
                },
            },
        }
        let stored = finish(&passes, pass);
        passes.push(stored);
        assert(passes.deep_view() =~= earlier.push(stored@));
        i += step;
    }
    Ok(passes)
}

/// Whether the sections of every function of `table` are as the matcher
/// relies on them; else the first refusal in the order of the table.
pub fn check_pass_dumps(table: &PassDumpsByFunction) -> (r: Result<(), PassDumpError>)
    ensures
        (r is Ok) <==> table_well_formed(table.deep_view()),
        match r {
            Ok(_) => table_violation(table.deep_view()) is None,
            Err(e) => table_violation(table.deep_view()) == Some(e@),
        },
{
    let ghost all = table.deep_view();
    proof {
        lemma_table_violation_from(all, 0);
    }
    let mut k: usize = 0;
    while k < table.len()
        invariant
            k <= table.len(),
            all == table.deep_view(),
            table_violation(all) == table_violation_from(all, k as int),
        decreases table.len() - k,
    {
        assert(all[k as int].1 == table[k as int].1.deep_view());
        match check_passes(&table[k].1) {
            Ok(_) => {},
            Err(e) => { return Err(e); },
        }
        k += 1;
    }
    Ok(())
}

impl LlvmPassDumpParser {
    /// The passes of every function of `table`, or the first mismatch in the
    /// order of the table. The sections must be as the matcher relies on
    /// them, which `check_pass_dumps` tests.
    pub fn match_pass_dumps(&self, pass_dumps_by_function: PassDumpsByFunction) -> (r: Result<
        OptPipelineResults,
        PassDumpError,
    >)
        requires
            table_well_formed(pass_dumps_by_function.deep_view()),
        ensures
            match r {
                Ok(table) => matched_table(pass_dumps_by_function.deep_view()) == Ok::<
                    _,
                    PassDumpErrorView,
                >(table.deep_view()),
                Err(e) => matched_table(pass_dumps_by_function.deep_view()) == Err::<
                    Seq<(Seq<char>, Seq<PassView>)>,
                    _,
                >(e@) && e@ is PassMismatch,
            },
    {
        let ghost all = pass_dumps_by_function.deep_view();
        let mut table: OptPipelineResults = Vec::new();
        assert(table.deep_view() =~= Seq::empty());
        assert(all.take(0) =~= Seq::empty());
        let mut i: usize = 0;
        while i < pass_dumps_by_function.len()
            invariant
                i <= pass_dumps_by_function.len(),
                all == pass_dumps_by_function.deep_view(),
                table_well_formed(all),
                matched_table(all.take(i as int)) == Ok::<_, PassDumpErrorView>(
                    table.deep_view(),
                ),
            decreases pass_dumps_by_function.len() - i,
        {
            let entry = &pass_dumps_by_function[i];
            let ghost before = table.deep_view();
            assert(all.take(i + 1).drop_last() =~= all.take(i as int));
            assert(all.take(i + 1).last() == (entry.0@, entry.1.deep_view()));
            assert(all[i as int].1 == entry.1.deep_view());
            match match_passes(&entry.1) {
                Ok(passes) => {
                    table.push((entry.0.clone(), passes));
                    assert(table.deep_view() =~= before.push((entry.0@, passes.deep_view())));
                },
                Err(e) => {
                    proof {
                        lemma_matched_table_fails(all, i + 1);
                    }
                    return Err(e);
                },
            }
            i += 1;
        }
        assert(all.take(pass_dumps_by_function.len() as int) =~= all);
        Ok(table)
    }
}

} // verus!
