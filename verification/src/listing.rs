//! The names of the functions that a transcript shows, read off its bytes
//! without cutting it into sections.

use crate::text::{
    find_from, find_item, find_item_from, lemma_find_from, lemma_find_item_from,
    lemma_find_item_shift, lemma_find_shift,
};
use vstd::prelude::*;
use vstd::slice::slice_to_vec;
use vstd::string::StringSliceAdditionalSpecFns;

verus! {

/// What the definition of an IR function begins with.
pub const DEFINE: &'static str = "define ";

/// What the line that begins a machine function begins with.
pub const MACHINE_FUNCTION: &'static str = "# Machine code for function ";

/// The byte `@`, which stands before the name of an IR function.
pub const AT: u8 = 0x40;

/// The byte `(`, which ends the name of an IR function.
pub const OPENING_BRACKET: u8 = 0x28;

/// The byte `:`, which ends the name of a machine function.
pub const COLON: u8 = 0x3a;

/// `memchr::memchr` searches a byte in a slice. Claimed, as its documentation
/// says: the result is the index of the first byte equal to `needle`, and
/// `None` where no byte is.
pub assume_specification[ memchr::memchr ](needle: u8, haystack: &[u8]) -> (r: Option<usize>)
    ensures
        match r {
            Some(i) => find_item(haystack@, needle) == Some(i as int),
            None => find_item(haystack@, needle) is None,
        },
;

/// `memchr::memmem::find` searches a run of bytes in a slice. Claimed, as its
/// documentation says: the result is the index where `needle` first occurs,
/// and `None` where it occurs nowhere.
pub assume_specification[ memchr::memmem::find ](haystack: &[u8], needle: &[u8]) -> (r: Option<
    usize,
>)
    ensures
        match r {
            Some(i) => crate::text::find_first(haystack@, needle@) == Some(i as int),
            None => crate::text::find_first(haystack@, needle@) is None,
        },
;

/// The name that follows the marker at `start`: for an IR function what
/// stands between the next `@` and the opening bracket after it, for a
/// machine function what stands between the marker and the next colon.
pub open spec fn name_at(dump: Seq<u8>, start: int, machine: bool) -> Option<Seq<u8>> {
    if machine {
        let begin = start + MACHINE_FUNCTION.spec_bytes().len();
        match find_item_from(dump, COLON, begin) {
            Some(colon) => Some(dump.subrange(begin, colon)),
            None => None,
        }
    } else {
        match find_item_from(dump, AT, start) {
            Some(at) => match find_item_from(dump, OPENING_BRACKET, at + 1) {
                Some(bracket) => Some(dump.subrange(at + 1, bracket)),
                None => None,
            },
            None => None,
        }
    }
}

/// The marker that the names of IR functions follow, or that of machine
/// functions.
pub open spec fn marker(machine: bool) -> Seq<u8> {
    if machine {
        MACHINE_FUNCTION.spec_bytes()
    } else {
        DEFINE.spec_bytes()
    }
}

/// The names that follow the markers in `dump` from index `from` on, in
/// their order: the markers are searched one after the other, each after the
/// end of the one before.
pub open spec fn names_from(dump: Seq<u8>, from: int, machine: bool) -> Seq<Seq<u8>>
    decreases dump.len() - from,
{
    match find_from(dump, marker(machine), from) {
        Some(start) if from <= start && 0 < marker(machine).len() <= dump.len() - start => {
            let rest = names_from(dump, start + marker(machine).len(), machine);
            match name_at(dump, start, machine) {
                Some(name) => seq![name] + rest,
                None => rest,
            }
        },
        _ => Seq::empty(),
    }
}

/// `first` with those names of `more` added, in their order, that do not
/// stand in the list before them.
pub open spec fn distinct_after(first: Seq<Seq<u8>>, more: Seq<Seq<u8>>) -> Seq<Seq<u8>>
    decreases more.len(),
{
    if more.len() == 0 {
        first
    } else {
        let before = distinct_after(first, more.drop_last());
        if before.contains(more.last()) {
            before
        } else {
            before.push(more.last())
        }
    }
}

/// The names of the functions that `dump` shows: those of the IR functions,
/// then those of the machine functions, each name once.
pub open spec fn function_names(dump: Seq<u8>) -> Seq<Seq<u8>> {
    distinct_after(Seq::empty(), names_from(dump, 0, false) + names_from(dump, 0, true))
}

/// The bytes of each of `names`.
pub open spec fn bytes_of(names: Seq<Vec<u8>>) -> Seq<Seq<u8>> {
    Seq::new(names.len(), |i: int| names[i]@)
}

/// The name that follows the marker at `start`.
pub fn name_after_marker(dump: &[u8], start: usize, machine: bool) -> (r: Option<Vec<u8>>)
    requires
        start + marker(machine).len() <= dump.len(),
    ensures
        match r {
            Some(name) => name_at(dump@, start as int, machine) == Some(name@),
            None => name_at(dump@, start as int, machine) is None,
        },
{
    if machine {
        let begin: usize = start + MACHINE_FUNCTION.as_bytes().len();
        proof {
            lemma_find_item_shift(dump@, COLON, begin as int);
            lemma_find_item_from(dump@, COLON, begin as int);
        }
        match memchr::memchr(COLON, &dump[begin..dump.len()]) {
            Some(k) => Some(slice_to_vec(&dump[begin..begin + k])),
            None => None,
        }
    } else {
        proof {
            lemma_find_item_shift(dump@, AT, start as int);
            lemma_find_item_from(dump@, AT, start as int);
        }
        match memchr::memchr(AT, &dump[start..dump.len()]) {
            Some(k) => {
                let at: usize = start + k;
                proof {
                    lemma_find_item_shift(dump@, OPENING_BRACKET, at + 1);
                    lemma_find_item_from(dump@, OPENING_BRACKET, at + 1);
                }
                match memchr::memchr(OPENING_BRACKET, &dump[at + 1..dump.len()]) {
                    Some(n) => Some(slice_to_vec(&dump[at + 1..at + 1 + n])),
                    None => None,
                }
            },
            None => None,
        }
    }
}

/// Whether `names` holds `name`.
pub fn holds(names: &Vec<Vec<u8>>, name: &Vec<u8>) -> (r: bool)
    ensures
        r == bytes_of(names@).contains(name@),
{
    let mut i: usize = 0;
    while i < names.len()
        invariant
            i <= names.len(),
            forall|j: int| 0 <= j < i ==> bytes_of(names@)[j] != name@,
        decreases names.len() - i,
    {
        if same_bytes(names[i].as_slice(), name.as_slice()) {
            assert(bytes_of(names@)[i as int] == name@);
            return true;
        }
        i += 1;
    }
    false
}

/// Whether `a` and `b` hold the same bytes.
pub fn same_bytes(a: &[u8], b: &[u8]) -> (r: bool)
    ensures
        r == (a@ == b@),
{
    if a.len() != b.len() {
        return false;
    }
    let mut i: usize = 0;
    while i < a.len()
        invariant
            i <= a.len(),
            a.len() == b.len(),
            forall|j: int| 0 <= j < i ==> a@[j] == b@[j],
        decreases a.len() - i,
    {
        if a[i] != b[i] {
            return false;
        }
        i += 1;
    }
    assert(a@ =~= b@);
    true
}

/// Adds to `names` the names that follow the markers in `dump`, but for those
/// that `names` holds already.
pub fn collect_names(names: &mut Vec<Vec<u8>>, dump: &[u8], machine: bool)
    ensures
        bytes_of(final(names)@) == distinct_after(
            bytes_of(old(names)@),
            names_from(dump@, 0, machine),
        ),
{
    let needle: &[u8] = if machine {
        MACHINE_FUNCTION.as_bytes()
    } else {
        DEFINE.as_bytes()
    };
    let ghost first = bytes_of(names@);
    let ghost all = names_from(dump@, 0, machine);
    let ghost mut seen: Seq<Seq<u8>> = Seq::empty();
    let mut pos: usize = 0;
    while pos <= dump.len()
        invariant
            needle@ == marker(machine),
            first == bytes_of(old(names)@),
            all == names_from(dump@, 0, machine),
            all == seen + names_from(dump@, pos as int, machine),
            bytes_of(names@) == distinct_after(first, seen),
        decreases dump.len() - pos,
    {
        proof {
            lemma_find_shift(dump@, needle@, pos as int);
            lemma_find_from(dump@, needle@, pos as int);
        }
        assert(dump@.subrange(pos as int, dump.len() as int) =~= dump@.skip(pos as int));
        let found = memchr::memmem::find(&dump[pos..dump.len()], needle);
        if found.is_none() || needle.len() == 0 {
            assert(names_from(dump@, pos as int, machine) =~= Seq::<Seq<u8>>::empty());
            assert(seen + Seq::<Seq<u8>>::empty() =~= seen);
            return ;
        }
        let start: usize = pos + found.unwrap();
        let ghost rest = names_from(dump@, start + needle.len(), machine);
        match name_after_marker(dump, start, machine) {
            Some(name) => {
                let ghost before = bytes_of(names@);
                proof {
                    assert(seen.push(name@).drop_last() =~= seen);
                    assert(seen.push(name@) + rest =~= seen + (seq![name@] + rest));
                }
                if !holds(names, &name) {
                    names.push(name);
                    assert(bytes_of(names@) =~= before.push(name@));
                }
                proof {
                    seen = seen.push(name@);
                }
            },
            None => {},
        }
        pos = start + needle.len();
    }
    assert(seen + Seq::<Seq<u8>>::empty() =~= seen);
}

/// The names of the functions that the transcript `dump` shows, each once,
/// in the order in which they first appear: first the IR functions, then the
/// machine functions.
pub fn list_functions(dump: &[u8]) -> (r: Vec<Vec<u8>>)
    ensures
        bytes_of(r@) == function_names(dump@),
{
    let mut names: Vec<Vec<u8>> = Vec::new();
    assert(bytes_of(names@) =~= Seq::<Seq<u8>>::empty());
    collect_names(&mut names, dump, false);
    collect_names(&mut names, dump, true);
    proof {
        lemma_distinct_after_append(
            Seq::empty(),
            names_from(dump@, 0, false),
            names_from(dump@, 0, true),
        );
    }
    names
}

/// Adding two lists one after the other is adding the two as one list.
pub proof fn lemma_distinct_after_append(
    first: Seq<Seq<u8>>,
    second: Seq<Seq<u8>>,
    third: Seq<Seq<u8>>,
)
    ensures
        distinct_after(distinct_after(first, second), third) == distinct_after(
            first,
            second + third,
        ),
    decreases third.len(),
{
    if third.len() == 0 {
        assert(second + third =~= second);
    } else {
        lemma_distinct_after_append(first, second, third.drop_last());
        assert((second + third).drop_last() =~= second + third.drop_last());
    }
}

/// No name stands twice among the names of the functions of a transcript.
pub proof fn lemma_function_names_distinct(dump: Seq<u8>)
    ensures
        forall|i: int, j: int|
            0 <= i < j < function_names(dump).len() ==> function_names(dump)[i] != function_names(
                dump,
            )[j],
{
    lemma_distinct_after_keeps(
        Seq::empty(),
        names_from(dump, 0, false) + names_from(dump, 0, true),
    );
}

/// Names added to a list without repeats leave it without repeats.
proof fn lemma_distinct_after_keeps(first: Seq<Seq<u8>>, more: Seq<Seq<u8>>)
    requires
        forall|i: int, j: int| 0 <= i < j < first.len() ==> first[i] != first[j],
    ensures
        forall|i: int, j: int|
            0 <= i < j < distinct_after(first, more).len() ==> distinct_after(first, more)[i]
                != distinct_after(first, more)[j],
    decreases more.len(),
{
    if more.len() > 0 {
        lemma_distinct_after_keeps(first, more.drop_last());
        let before = distinct_after(first, more.drop_last());
        if !before.contains(more.last()) {
            assert forall|i: int| 0 <= i < before.len() implies before[i] != more.last() by {
                if before[i] == more.last() {
                    assert(before.contains(more.last()));
                }
            }
        }
    }
}

} // verus!
