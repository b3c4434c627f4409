//! Text as sequences of characters: searching, line splitting, trimming and
//! joining. Each is defined on `Seq<char>`, and an executable function on
//! characters is proved to compute it.

use vstd::prelude::*;
use vstd::slice::slice_to_vec;

verus! {

/// `p` is a prefix of `s`.
pub open spec fn starts_with<T>(s: Seq<T>, p: Seq<T>) -> bool {
    p.len() <= s.len() && s.subrange(0, p.len() as int) == p
}

/// `p` is a suffix of `s`.
pub open spec fn ends_with<T>(s: Seq<T>, p: Seq<T>) -> bool {
    p.len() <= s.len() && s.subrange(s.len() - p.len(), s.len() as int) == p
}

/// `p` occurs in `s` starting at index `i`.
pub open spec fn occurs_at<T>(s: Seq<T>, p: Seq<T>, i: int) -> bool {
    0 <= i && i + p.len() <= s.len() && s.subrange(i, i + p.len()) == p
}

/// `a` is `b` with some of its items left out: the items of `a` stand in `b`
/// in the same order.
pub open spec fn is_subsequence<T>(a: Seq<T>, b: Seq<T>) -> bool
    decreases b.len(),
{
    if a.len() == 0 {
        true
    } else if b.len() == 0 {
        false
    } else if a.last() == b.last() && is_subsequence(a.drop_last(), b.drop_last()) {
        true
    } else {
        is_subsequence(a, b.drop_last())
    }
}

/// The least index at or after `from` where `p` occurs in `s`.
pub open spec fn find_from<T>(s: Seq<T>, p: Seq<T>, from: int) -> Option<int>
    decreases s.len() - from + 1,
{
    if from < 0 || from + p.len() > s.len() {
        None
    } else if occurs_at(s, p, from) {
        Some(from)
    } else {
        find_from(s, p, from + 1)
    }
}

/// The least index where `p` occurs in `s`.
pub open spec fn find_first<T>(s: Seq<T>, p: Seq<T>) -> Option<int> {
    find_from(s, p, 0)
}

/// The least index at or after `from` where `s` holds the item `c`.
pub open spec fn find_item_from<T>(s: Seq<T>, c: T, from: int) -> Option<int>
    decreases s.len() - from,
{
    if from < 0 || from >= s.len() {
        None
    } else if s[from] == c {
        Some(from)
    } else {
        find_item_from(s, c, from + 1)
    }
}

/// The least index where `s` holds the item `c`.
pub open spec fn find_item<T>(s: Seq<T>, c: T) -> Option<int> {
    find_item_from(s, c, 0)
}

/// What `find_from` returns is the first occurrence at or after `from`, and
/// it returns `None` only when there is none.
pub proof fn lemma_find_from<T>(s: Seq<T>, p: Seq<T>, from: int)
    requires
        0 <= from,
    ensures
        match find_from(s, p, from) {
            Some(i) => from <= i && occurs_at(s, p, i) && forall|j: int|
                from <= j < i ==> !occurs_at(s, p, j),
            None => forall|j: int| from <= j ==> !occurs_at(s, p, j),
        },
    decreases s.len() - from + 1,
{
    if from + p.len() > s.len() {
    } else if occurs_at(s, p, from) {
    } else {
        lemma_find_from(s, p, from + 1);
    }
}

/// What `find_item_from` returns is the first index at or after `from` that
/// holds `c`, and it returns `None` only when there is none.
pub proof fn lemma_find_item_from<T>(s: Seq<T>, c: T, from: int)
    requires
        0 <= from,
    ensures
        match find_item_from(s, c, from) {
            Some(i) => from <= i < s.len() && s[i] == c && forall|j: int|
                from <= j < i ==> s[j] != c,
            None => forall|j: int| from <= j < s.len() ==> s[j] != c,
        },
    decreases s.len() - from,
{
    if from >= s.len() {
    } else if s[from] == c {
    } else {
        lemma_find_item_from(s, c, from + 1);
    }
}

/// Unicode white space: the characters that a line may consist of and still
/// count as blank, and that are trimmed from the ends of a line.
pub open spec fn is_whitespace(c: char) -> bool {
    let n = c as u32;
    ||| 0x09 <= n <= 0x0D
    ||| n == 0x20
    ||| n == 0x85
    ||| n == 0xA0
    ||| n == 0x1680
    ||| 0x2000 <= n <= 0x200A
    ||| n == 0x2028
    ||| n == 0x2029
    ||| n == 0x202F
    ||| n == 0x205F
    ||| n == 0x3000
}

/// Every character of `s` is white space (the empty text included).
pub open spec fn is_blank(s: Seq<char>) -> bool {
    forall|i: int| 0 <= i < s.len() ==> is_whitespace(#[trigger] s[i])
}

/// `s` without its leading white space.
pub open spec fn trim_start(s: Seq<char>) -> Seq<char>
    decreases s.len(),
{
    if s.len() > 0 && is_whitespace(s[0]) {
        trim_start(s.skip(1))
    } else {
        s
    }
}

/// `s` without its trailing white space.
pub open spec fn trim_end(s: Seq<char>) -> Seq<char>
    decreases s.len(),
{
    if s.len() > 0 && is_whitespace(s.last()) {
        trim_end(s.drop_last())
    } else {
        s
    }
}

/// `s` without leading and trailing white space.
pub open spec fn trim(s: Seq<char>) -> Seq<char> {
    trim_end(trim_start(s))
}

/// `line` without one trailing carriage return, if it has one.
pub open spec fn strip_cr(line: Seq<char>) -> Seq<char> {
    if line.len() > 0 && line.last() == '\r' {
        line.drop_last()
    } else {
        line
    }
}

/// The lines of `s`: the pieces between line feeds, each without the line
/// feed and without a carriage return directly before it. A last line needs
/// no line feed, and a text that ends in a line feed has no empty last line.
pub open spec fn lines(s: Seq<char>) -> Seq<Seq<char>>
    decreases s.len(),
{
    if s.len() == 0 {
        Seq::empty()
    } else {
        match find_item(s, '\n') {
            Some(i) if 0 <= i < s.len() => seq![strip_cr(s.take(i))] + lines(s.skip(i + 1)),
            _ => seq![s],
        }
    }
}

/// The texts of `parts` with `sep` between each two neighbours.
pub open spec fn join(parts: Seq<Seq<char>>, sep: Seq<char>) -> Seq<char>
    decreases parts.len(),
{
    if parts.len() == 0 {
        Seq::empty()
    } else if parts.len() == 1 {
        parts[0]
    } else {
        join(parts.drop_last(), sep) + sep + parts.last()
    }
}

/// The text of each of `v`.
pub open spec fn texts(v: Seq<Vec<char>>) -> Seq<Seq<char>> {
    Seq::new(v.len(), |i: int| v[i]@)
}

/// `String::push` of the standard library. Claimed, as its documentation
/// says: the character is added at the end of the string, and nothing else of
/// the string changes.
pub assume_specification[ String::push ](s: &mut String, ch: char)
    ensures
        final(s)@ == old(s)@.push(ch),
;

/// The characters of `s`.
pub fn to_chars(s: &str) -> (v: Vec<char>)
    ensures
        v@ == s@,
{
    let mut v: Vec<char> = Vec::new();
    for c in it: s.chars()
        invariant
            v@ == it.seq().take(it.index() as int),
            it.seq() == s@,
    {
        v.push(c);
    }
    v
}

/// The string made of the characters of `v`.
pub fn from_chars(v: &[char]) -> (s: String)
    ensures
        s@ == v@,
{
    let mut s = String::new();
    let mut i: usize = 0;
    while i < v.len()
        invariant
            i <= v.len(),
            s@ == v@.take(i as int),
        decreases v.len() - i,
    {
        s.push(v[i]);
        i += 1;
    }
    s
}

/// Whether `p` occurs in `s` at index `i`.
pub fn matches_at(s: &[char], p: &str, i: usize) -> (r: bool)
    ensures
        r == occurs_at(s@, p@, i as int),
{
    if i > s.len() {
        return false;
    }
    let room: usize = s.len() - i;
    let mut k: usize = 0;
    for c in it: p.chars()
        invariant
            it.seq() == p@,
            k == it.index(),
            k <= room,
            room == s.len() - i,
            forall|j: int| 0 <= j < k ==> s@[i + j] == p@[j],
    {
        if k == room {
            return false;
        }
        if s[i + k] != c {
            proof {
                if occurs_at(s@, p@, i as int) {
                    assert(s@.subrange(i as int, i + p@.len())[k as int] == s@[i + k]);
                }
            }
            return false;
        }
        k += 1;
    }
    assert(s@.subrange(i as int, i + p@.len()) =~= p@);
    true
}

/// Whether `s` begins with `p`.
pub fn has_prefix(s: &[char], p: &str) -> (r: bool)
    ensures
        r == starts_with(s@, p@),
{
    matches_at(s, p, 0)
}

/// Whether `s` ends with `p`.
pub fn has_suffix(s: &[char], p: &str) -> (r: bool)
    ensures
        r == ends_with(s@, p@),
{
    let n: usize = p.unicode_len();
    if n > s.len() {
        return false;
    }
    matches_at(s, p, s.len() - n)
}

/// The first index at or after `from` where `p` occurs in `s`.
pub fn search_from(s: &[char], p: &str, from: usize) -> (r: Option<usize>)
    ensures
        match r {
            Some(i) => find_from(s@, p@, from as int) == Some(i as int) && from <= i && i + p@.len()
                <= s.len(),
            None => find_from(s@, p@, from as int) is None,
        },
{
    let mut i: usize = from;
    while i <= s.len()
        invariant
            from <= i,
            find_from(s@, p@, from as int) == find_from(s@, p@, i as int),
        decreases s.len() - i,
    {
        if matches_at(s, p, i) {
            return Some(i);
        }
        if i == s.len() {
            assert(find_from(s@, p@, i + 1) is None);
            return None;
        }
        i += 1;
    }
    None
}

/// The first index where `p` occurs in `s`.
pub fn search(s: &[char], p: &str) -> (r: Option<usize>)
    ensures
        match r {
            Some(i) => find_first(s@, p@) == Some(i as int) && i + p@.len() <= s.len(),
            None => find_first(s@, p@) is None,
        },
{
    search_from(s, p, 0)
}

/// The first index at or after `from` where `s` holds `c`.
pub fn search_char_from(s: &[char], c: char, from: usize) -> (r: Option<usize>)
    ensures
        match r {
            Some(i) => find_item_from(s@, c, from as int) == Some(i as int) && from <= i < s.len(),
            None => find_item_from(s@, c, from as int) is None,
        },
{
    let mut i: usize = from;
    while i < s.len()
        invariant
            from <= i,
            find_item_from(s@, c, from as int) == find_item_from(s@, c, i as int),
        decreases s.len() - i,
    {
        if s[i] == c {
            return Some(i);
        }
        i += 1;
    }
    None
}

/// The first index where `s` holds `c`.
pub fn search_char(s: &[char], c: char) -> (r: Option<usize>)
    ensures
        match r {
            Some(i) => find_item(s@, c) == Some(i as int) && i < s.len(),
            None => find_item(s@, c) is None,
        },
{
    search_char_from(s, c, 0)
}

/// Whether `c` is white space.
pub fn whitespace(c: char) -> (r: bool)
    ensures
        r == is_whitespace(c),
{
    let n: u32 = c as u32;
    (0x09 <= n && n <= 0x0D) || n == 0x20 || n == 0x85 || n == 0xA0 || n == 0x1680 || (0x2000 <= n
        && n <= 0x200A) || n == 0x2028 || n == 0x2029 || n == 0x202F || n == 0x205F || n == 0x3000
}

/// Whether `s` holds white space only.
pub fn blank(s: &[char]) -> (r: bool)
    ensures
        r == is_blank(s@),
{
    let mut i: usize = 0;
    while i < s.len()
        invariant
            i <= s.len(),
            forall|j: int| 0 <= j < i ==> is_whitespace(#[trigger] s@[j]),
        decreases s.len() - i,
    {
        if !whitespace(s[i]) {
            return false;
        }
        i += 1;
    }
    true
}

/// The part of `s` between its leading and its trailing white space.
pub fn trimmed(s: &[char]) -> (r: &[char])
    ensures
        r@ == trim(s@),
{
    let mut a: usize = 0;
    assert(s@.skip(0) =~= s@);
    while a < s.len() && whitespace(s[a])
        invariant
            a <= s.len(),
            trim_start(s@) == trim_start(s@.skip(a as int)),
        decreases s.len() - a,
    {
        assert(s@.skip(a as int).skip(1) =~= s@.skip(a + 1));
        a += 1;
    }
    let ghost t = s@.skip(a as int);
    assert(trim_start(s@) == t);
    let mut b: usize = s.len();
    assert(t.take(b - a) =~= t);
    while b > a && whitespace(s[b - 1])
        invariant
            a <= b <= s.len(),
            t == s@.skip(a as int),
            trim_end(t) == trim_end(t.take(b - a)),
        decreases b,
    {
        assert(t.take(b - a).drop_last() =~= t.take(b - a - 1));
        b -= 1;
    }
    assert(t.take(b - a) =~= s@.subrange(a as int, b as int));
    &s[a..b]
}

/// The lines of `s`, each as a text of its own.
pub fn split_lines(s: &[char]) -> (r: Vec<Vec<char>>)
    ensures
        texts(r@) == lines(s@),
{
    let mut r: Vec<Vec<char>> = Vec::new();
    let mut pos: usize = 0;
    assert(s@.skip(0) =~= s@);
    while pos < s.len()
        invariant
            pos <= s.len(),
            lines(s@) == texts(r@) + lines(s@.skip(pos as int)),
        decreases s.len() - pos,
    {
        let ghost rest = s@.skip(pos as int);
        let ghost before = texts(r@);
        let found = search_char_from(s, '\n', pos);
        proof {
            lemma_find_item_shift(s@, '\n', pos as int);
        }
        match found {
            Some(end) => {
                let stop: usize = if end > pos && s[end - 1] == '\r' {
                    end - 1
                } else {
                    end
                };
                let line = slice_to_vec(&s[pos..stop]);
                assert(rest.take(end - pos) =~= s@.subrange(pos as int, end as int));
                assert(line@ =~= strip_cr(rest.take(end - pos)));
                assert(rest.skip(end - pos + 1) =~= s@.skip(end + 1));
                r.push(line);
                assert(texts(r@) =~= before.push(line@));
                assert(before.push(line@) + lines(s@.skip(end + 1)) =~= before + (seq![line@]
                    + lines(s@.skip(end + 1))));
                pos = end + 1;
            },
            None => {
                let line = slice_to_vec(&s[pos..s.len()]);
                assert(line@ =~= rest);
                r.push(line);
                assert(texts(r@) =~= before.push(line@));
                assert(s@.skip(s.len() as int) =~= Seq::<char>::empty());
                assert(before.push(line@) + lines(s@.skip(s.len() as int)) =~= before
                    + seq![line@]);
                pos = s.len();
            },
        }
    }
    assert(texts(r@) + lines(s@.skip(pos as int)) =~= texts(r@));
    r
}

/// Searching `s` from `from` on finds what searching the rest of `s` finds,
/// moved by `from`.
pub proof fn lemma_find_item_shift<T>(s: Seq<T>, c: T, from: int)
    requires
        0 <= from <= s.len(),
    ensures
        find_item(s.skip(from), c) == match find_item_from(s, c, from) {
            Some(i) => Some(i - from),
            None => None::<int>,
        },
{
    lemma_find_item_shift_at(s, c, from, 0);
}

/// The same for a search of the rest that begins at index `k` of the rest.
proof fn lemma_find_item_shift_at<T>(s: Seq<T>, c: T, from: int, k: int)
    requires
        0 <= from <= s.len(),
        0 <= k,
    ensures
        find_item_from(s.skip(from), c, k) == match find_item_from(s, c, from + k) {
            Some(i) => Some(i - from),
            None => None::<int>,
        },
    decreases s.len() - from - k,
{
    if from + k < s.len() {
        if s[from + k] != c {
            lemma_find_item_shift_at(s, c, from, k + 1);
        }
    }
}

/// Searching `s` from `from` on for `p` finds what searching the rest of `s`
/// finds, moved by `from`.
pub proof fn lemma_find_shift<T>(s: Seq<T>, p: Seq<T>, from: int)
    requires
        0 <= from <= s.len(),
    ensures
        find_first(s.skip(from), p) == match find_from(s, p, from) {
            Some(i) => Some(i - from),
            None => None::<int>,
        },
{
    lemma_find_shift_at(s, p, from, 0);
}

/// The same for a search of the rest that begins at index `k` of the rest.
proof fn lemma_find_shift_at<T>(s: Seq<T>, p: Seq<T>, from: int, k: int)
    requires
        0 <= from <= s.len(),
        0 <= k,
    ensures
        find_from(s.skip(from), p, k) == match find_from(s, p, from + k) {
            Some(i) => Some(i - from),
            None => None::<int>,
        },
    decreases s.len() - from - k + 1,
{
    if from + k + p.len() <= s.len() {
        assert(s.skip(from).subrange(k, k + p.len()) =~= s.subrange(from + k, from + k + p.len()));
        if !occurs_at(s, p, from + k) {
            lemma_find_shift_at(s, p, from, k + 1);
        }
    }
}

/// Joined lines begin with the first line, and the rest follows the
/// separator.
pub proof fn lemma_join_first(parts: Seq<Seq<char>>, sep: Seq<char>)
    requires
        parts.len() >= 2,
    ensures
        join(parts, sep) == parts[0] + sep + join(parts.skip(1), sep),
    decreases parts.len(),
{
    if parts.len() == 2 {
        assert(parts.drop_last() =~= seq![parts[0]]);
        assert(parts.skip(1) =~= seq![parts[1]]);
        assert(join(parts.drop_last(), sep) == parts[0]);
        assert(join(parts.skip(1), sep) == parts[1]);
    } else {
        lemma_join_first(parts.drop_last(), sep);
        assert(parts.drop_last().skip(1) =~= parts.skip(1).drop_last());
        assert(parts.skip(1).last() == parts.last());
        assert(parts.drop_last()[0] == parts[0]);
        assert(join(parts, sep) =~= parts[0] + sep + join(parts.skip(1), sep));
    }
}

/// Lines that are joined by line feeds are the lines of the joined text: the
/// text of a list of lines holds them unchanged. This needs lines that hold
/// no line feed, of which none but the last ends in a carriage return, and a
/// last line that is not empty.
pub proof fn lemma_lines_of_join(parts: Seq<Seq<char>>)
    requires
        parts.len() > 0,
        parts.last().len() > 0,
        forall|i: int| 0 <= i < parts.len() ==> !(#[trigger] parts[i]).contains('\n'),
        forall|i: int|
            0 <= i < parts.len() - 1 ==> (#[trigger] parts[i]).len() == 0 || parts[i].last()
                != '\r',
    ensures
        lines(join(parts, seq!['\n'])) == parts,
    decreases parts.len(),
{
    let sep = seq!['\n'];
    let text = join(parts, sep);
    if parts.len() == 1 {
        assert(text == parts[0]);
        lemma_find_item_from(text, '\n', 0);
        if find_item(text, '\n') is Some {
            let i = find_item(text, '\n')->0;
            assert(text.contains('\n'));
        }
        assert(seq![text] =~= parts);
    } else {
        let first = parts[0];
        let rest = parts.skip(1);
        lemma_join_first(parts, sep);
        assert(rest.last() == parts.last());
        assert forall|i: int| 0 <= i < rest.len() implies !(#[trigger] rest[i]).contains(
            '\n',
        ) by {
            assert(rest[i] == parts[i + 1]);
        }
        assert forall|i: int| 0 <= i < rest.len() - 1 implies (#[trigger] rest[i]).len() == 0
            || rest[i].last() != '\r' by {
            assert(rest[i] == parts[i + 1]);
        }
        lemma_lines_of_join(rest);
        let tail = join(rest, sep);
        assert(text == first + sep + tail);
        let n = first.len() as int;
        assert(text[n] == '\n');
        lemma_find_item_from(text, '\n', 0);
        let i = find_item(text, '\n')->0;
        if i < n {
            assert(text[i] == first[i]);
            assert(first.contains('\n'));
        }
        assert(i == n);
        assert(text.take(n) =~= first);
        assert(text.skip(n + 1) =~= tail);
        assert(seq![first] + rest =~= parts);
    }
}

/// The texts of `parts` with `sep` between each two neighbours.
pub fn join_strings(parts: &Vec<String>, sep: &str) -> (r: String)
    ensures
        r@ == join(parts.deep_view(), sep@),
{
    let mut r = String::new();
    let mut i: usize = 0;
    while i < parts.len()
        invariant
            i <= parts.len(),
            r@ == join(parts.deep_view().take(i as int), sep@),
        decreases parts.len() - i,
    {
        let ghost done = parts.deep_view().take(i as int);
        let ghost next = parts.deep_view().take(i + 1);
        assert(next.drop_last() =~= done);
        assert(next.last() == parts[i as int]@);
        if i > 0 {
            r.append(sep);
        }
        r.append(parts[i].as_str());
        i += 1;
    }
    assert(parts.deep_view().take(parts.len() as int) =~= parts.deep_view());
    r
}

} // verus!
