//! Where the mangled names of C++ symbols may stand in a line of bytes.

use vstd::prelude::*;

verus! {

/// The byte `_`, which a mangled name begins with.
pub const UNDERSCORE: u8 = 0x5f;

/// The byte `Z`, which follows the underscores of a mangled name.
pub const CAPITAL_Z: u8 = 0x5a;

/// The most underscores that a mangled name begins with.
pub const MOST_UNDERSCORES: usize = 4;

/// From index `i` on, `haystack` holds `n` underscores and then a `Z`.
pub open spec fn underscores_then_z(haystack: Seq<u8>, i: int, n: int) -> bool {
    &&& 0 <= i
    &&& i + n < haystack.len()
    &&& haystack[i + n] == CAPITAL_Z
    &&& forall|k: int| i <= k < i + n ==> haystack[k] == UNDERSCORE
}

/// A mangled name may begin at index `i` of `haystack`: one to four
/// underscores stand there, then a `Z`. The last byte of `haystack` begins
/// none.
pub open spec fn mangled_at(haystack: Seq<u8>, i: int) -> bool {
    exists|n: int| 1 <= n <= MOST_UNDERSCORES && #[trigger] underscores_then_z(haystack, i, n)
}

/// The number of bytes of the marker of a mangled name at index `i`: its
/// underscores and the `Z`. It is 2 where the least number of underscores
/// fits, and also where none fits.
pub open spec fn marker_len(haystack: Seq<u8>, i: int) -> int {
    if underscores_then_z(haystack, i, 1) {
        2
    } else if underscores_then_z(haystack, i, 2) {
        3
    } else if underscores_then_z(haystack, i, 3) {
        4
    } else if underscores_then_z(haystack, i, 4) {
        5
    } else {
        2
    }
}

/// Whether `n` underscores and then a `Z` stand in `haystack` from index `i`
/// on.
pub fn has_marker(haystack: &[u8], i: usize, n: usize) -> (r: bool)
    requires
        n <= MOST_UNDERSCORES,
    ensures
        r == underscores_then_z(haystack@, i as int, n as int),
{
    if i >= haystack.len() || n >= haystack.len() - i {
        return false;
    }
    if haystack[i + n] != CAPITAL_Z {
        return false;
    }
    let mut k: usize = 0;
    while k < n
        invariant
            k <= n,
            i + n < haystack.len(),
            forall|j: int| i <= j < i + k ==> haystack@[j] == UNDERSCORE,
        decreases n - k,
    {
        if haystack[i + k] != UNDERSCORE {
            return false;
        }
        k += 1;
    }
    true
}

/// Whether a mangled name may begin at index `i` of `haystack`.
pub fn begins_mangled(haystack: &[u8], i: usize) -> (r: bool)
    ensures
        r == mangled_at(haystack@, i as int),
{
    let r = has_marker(haystack, i, 1) || has_marker(haystack, i, 2) || has_marker(haystack, i, 3)
        || has_marker(haystack, i, 4);
    proof {
        if mangled_at(haystack@, i as int) {
            let n = choose|n: int|
                1 <= n <= MOST_UNDERSCORES && #[trigger] underscores_then_z(
                    haystack@,
                    i as int,
                    n,
                );
            assert(n == 1 || n == 2 || n == 3 || n == 4);
        }
    }
    r
}

/// The first index of `haystack` where a mangled name may begin.
pub fn find_mangled(haystack: &[u8]) -> (r: Option<usize>)
    ensures
        match r {
            Some(i) => mangled_at(haystack@, i as int) && forall|j: int|
                0 <= j < i ==> !mangled_at(haystack@, j),
            None => forall|j: int| !mangled_at(haystack@, j),
        },
{
    let mut i: usize = 0;
    while i < haystack.len()
        invariant
            forall|j: int| 0 <= j < i ==> !mangled_at(haystack@, j),
        decreases haystack.len() - i,
    {
        if begins_mangled(haystack, i) {
            return Some(i);
        }
        i += 1;
    }
    assert forall|j: int| !mangled_at(haystack@, j) by {
        if mangled_at(haystack@, j) {
            let n = choose|n: int|
                1 <= n <= MOST_UNDERSCORES && #[trigger] underscores_then_z(haystack@, j, n);
            assert(0 <= j < haystack.len());
        }
    }
    None
}

/// The number of bytes of the marker of a mangled name at index `i` of
/// `haystack`.
pub fn mangled_marker_len(haystack: &[u8], i: usize) -> (r: usize)
    ensures
        r == marker_len(haystack@, i as int),
        2 <= r <= 5,
        mangled_at(haystack@, i as int) ==> i + r <= haystack.len(),
{
    let r: usize = if has_marker(haystack, i, 1) {
        2
    } else if has_marker(haystack, i, 2) {
        3
    } else if has_marker(haystack, i, 3) {
        4
    } else if has_marker(haystack, i, 4) {
        5
    } else {
        2
    };
    proof {
        if mangled_at(haystack@, i as int) {
            let n = choose|n: int|
                1 <= n <= MOST_UNDERSCORES && #[trigger] underscores_then_z(
                    haystack@,
                    i as int,
                    n,
                );
            assert(n == 1 || n == 2 || n == 3 || n == 4);
        }
    }
    r
}

} // verus!
