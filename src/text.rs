//! Character-level text helpers shared by the naming, rendering and
//! document modules. Text is handled as `Vec<char>` / `&[char]` inside the
//! library and specified over `Seq<char>`.
use vstd::prelude::*;

verus! {

/// `p` is a prefix of `s`.
pub open spec fn is_prefix(p: Seq<char>, s: Seq<char>) -> bool {
    p.len() <= s.len() && s.take(p.len() as int) == p
}

/// `p` is a suffix of `s`.
pub open spec fn is_suffix(p: Seq<char>, s: Seq<char>) -> bool {
    p.len() <= s.len() && s.skip(s.len() - p.len()) == p
}

/// `p` occurs in `s` starting at position `i`.
pub open spec fn occurs_at(s: Seq<char>, p: Seq<char>, i: int) -> bool {
    0 <= i && is_prefix(p, s.skip(i))
}

pub open spec fn is_ascii_digit(c: char) -> bool {
    '0' <= c && c <= '9'
}

/// Every non-overlapping occurrence of `p` in `s`, taken from left to
/// right, replaced by `r`. An empty pattern leaves `s` as it is.
pub open spec fn replace_all(s: Seq<char>, p: Seq<char>, r: Seq<char>) -> Seq<char>
    decreases s.len(),
{
    if p.len() == 0 || s.len() < p.len() {
        s
    } else if s.take(p.len() as int) == p {
        r + replace_all(s.skip(p.len() as int), p, r)
    } else {
        seq![s[0]] + replace_all(s.skip(1), p, r)
    }
}

/// Whether `p` occurs anywhere in `s`.
pub open spec fn contains(s: Seq<char>, p: Seq<char>) -> bool {
    exists|i: int| 0 <= i <= s.len() && #[trigger] occurs_at(s, p, i)
}

/// Relies on `String::push`: appends one character.
#[verifier::external_body]
fn push_char(s: &mut String, c: char)
    ensures
        final(s)@ == old(s)@.push(c),
{
    s.push(c)
}

/// The characters of `s`, in order.
pub fn chars_of(s: &str) -> (r: Vec<char>)
    ensures
        r@ == s@,
{
    let mut r: Vec<char> = Vec::new();
    for c in it: s.chars()
        invariant
            r@ == it.seq().take(it.index() as int),
            it.seq() == s@,
    {
        r.push(c);
    }
    r
}

/// A string holding the characters of `v`.
pub fn string_of(v: &[char]) -> (r: String)
    ensures
        r@ == v@,
{
    let mut r = String::new();
    let mut i: usize = 0;
    while i < v.len()
        invariant
            i <= v@.len(),
            r@ == v@.take(i as int),
        decreases v@.len() - i,
    {
        push_char(&mut r, v[i]);
        i += 1;
        assert(v@.take(i as int) =~= v@.take((i - 1) as int).push(v@[i - 1]));
    }
    assert(v@.take(i as int) =~= v@);
    r
}

/// Appends the characters of `s` to `v`.
pub fn extend_chars(v: &mut Vec<char>, s: &[char])
    ensures
        final(v)@ == old(v)@ + s@,
{
    let ghost start = v@;
    let mut i: usize = 0;
    while i < s.len()
        invariant
            i <= s@.len(),
            v@ == start + s@.take(i as int),
        decreases s@.len() - i,
    {
        v.push(s[i]);
        i += 1;
        assert(s@.take(i as int) =~= s@.take((i - 1) as int).push(s@[i - 1]));
    }
    assert(s@.take(i as int) =~= s@);
}

/// Appends the characters of `s` to `v`.
pub fn extend_str(v: &mut Vec<char>, s: &str)
    ensures
        final(v)@ == old(v)@ + s@,
{
    let c = chars_of(s);
    extend_chars(v, c.as_slice());
}

/// Whether `p` occurs in `s` at position `i`.
pub fn matches_at(s: &[char], i: usize, p: &[char]) -> (r: bool)
    ensures
        r == (i <= s@.len() && occurs_at(s@, p@, i as int)),
{
    if i > s.len() || p.len() > s.len() - i {
        return false;
    }
    let mut j: usize = 0;
    while j < p.len()
        invariant
            i + p@.len() <= s@.len(),
            s@.len() <= usize::MAX,
            j <= p@.len(),
            forall|k: int| 0 <= k < j ==> s@[i + k] == p@[k],
        decreases p@.len() - j,
    {
        if s[i + j] != p[j] {
            assert(s@.skip(i as int).take(p@.len() as int)[j as int] != p@[j as int]);
            return false;
        }
        j += 1;
    }
    assert(s@.skip(i as int).take(p@.len() as int) =~= p@);
    true
}

/// Whether `p` is a prefix of `s`.
pub fn starts_with(s: &[char], p: &[char]) -> (r: bool)
    ensures
        r == is_prefix(p@, s@),
{
    let r = matches_at(s, 0, p);
    assert(s@.skip(0) =~= s@);
    r
}

/// Whether `p` is a suffix of `s`.
pub fn ends_with(s: &[char], p: &[char]) -> (r: bool)
    ensures
        r == is_suffix(p@, s@),
{
    if p.len() > s.len() {
        return false;
    }
    let r = matches_at(s, s.len() - p.len(), p);
    let ghost t = s@.skip(s@.len() - p@.len());
    assert(t.take(p@.len() as int) =~= t);
    r
}

/// The characters of `s` from `lo` up to `hi`.
pub fn slice_chars(s: &[char], lo: usize, hi: usize) -> (r: Vec<char>)
    requires
        lo <= hi <= s@.len(),
    ensures
        r@ == s@.subrange(lo as int, hi as int),
{
    let mut r: Vec<char> = Vec::new();
    let mut i: usize = lo;
    while i < hi
        invariant
            lo <= i <= hi <= s@.len(),
            r@ == s@.subrange(lo as int, i as int),
        decreases hi - i,
    {
        r.push(s[i]);
        i += 1;
        assert(s@.subrange(lo as int, i as int) =~= s@.subrange(lo as int, (i - 1) as int).push(
            s@[i - 1],
        ));
    }
    r
}

proof fn lemma_replace_all_short(s: Seq<char>, p: Seq<char>, r: Seq<char>)
    requires
        s.len() < p.len(),
    ensures
        replace_all(s, p, r) == s,
{
}

/// Replaces every occurrence of `p` in `s` by `r`, from left to right.
pub fn replace_chars(s: &[char], p: &[char], r: &[char]) -> (out: Vec<char>)
    ensures
        out@ == replace_all(s@, p@, r@),
{
    if p.len() == 0 {
        return slice_chars(s, 0, s.len());
    }
    let mut out: Vec<char> = Vec::new();
    let mut i: usize = 0;
    assert(s@.skip(0) =~= s@);
    while i < s.len() && p.len() <= s.len() - i
        invariant
            p@.len() > 0,
            i <= s@.len(),
            out@ + replace_all(s@.skip(i as int), p@, r@) == replace_all(s@, p@, r@),
        decreases s@.len() - i,
    {
        let ghost rest = s@.skip(i as int);
        if matches_at(s, i, p) {
            assert(rest.skip(p@.len() as int) =~= s@.skip(i + p@.len()));
            extend_chars(&mut out, r);
            i += p.len();
            assert(out@ + replace_all(s@.skip(i as int), p@, r@) =~= replace_all(s@, p@, r@));
        } else {
            assert(rest.skip(1) =~= s@.skip(i + 1));
            assert(rest[0] == s@[i as int]);
            out.push(s[i]);
            i += 1;
            assert(out@ + replace_all(s@.skip(i as int), p@, r@) =~= replace_all(s@, p@, r@));
        }
    }
    let tail = slice_chars(s, i, s.len());
    assert(tail@ =~= s@.skip(i as int));
    proof {
        lemma_replace_all_short(s@.skip(i as int), p@, r@);
    }
    extend_chars(&mut out, tail.as_slice());
    out
}

/// Whether the characters of `s` are exactly those of `lit`.
pub fn same_as(s: &[char], lit: &str) -> (r: bool)
    ensures
        r == (s@ == lit@),
{
    let l = chars_of(lit);
    if s.len() != l.len() {
        return false;
    }
    let r = starts_with(s, l.as_slice());
    assert(s@ =~= s@.take(l@.len() as int));
    r
}

/// Whether `s` is exactly `lit`.
pub fn str_is(s: &str, lit: &str) -> (r: bool)
    ensures
        r == (s@ == lit@),
{
    let c = chars_of(s);
    same_as(c.as_slice(), lit)
}

/// Whether `p` occurs anywhere in `s`.
pub fn contains_chars(s: &[char], p: &[char]) -> (r: bool)
    ensures
        r == contains(s@, p@),
{
    let mut i: usize = 0;
    while i < s.len()
        invariant
            i <= s@.len(),
            forall|k: int| 0 <= k < i ==> !occurs_at(s@, p@, k),
        decreases s@.len() - i,
    {
        if matches_at(s, i, p) {
            return true;
        }
        i += 1;
    }
    if matches_at(s, i, p) {
        return true;
    }
    assert forall|k: int| 0 <= k <= s@.len() implies !#[trigger] occurs_at(s@, p@, k) by {}
    false
}

/// Whitespace as trimming treats it.
pub open spec fn is_ws(c: char) -> bool {
    c == ' ' || c == '\t' || c == '\n' || c == '\r'
}

pub open spec fn trim_start(s: Seq<char>) -> Seq<char>
    decreases s.len(),
{
    if s.len() > 0 && is_ws(s[0]) {
        trim_start(s.skip(1))
    } else {
        s
    }
}

pub open spec fn trim_end(s: Seq<char>) -> Seq<char>
    decreases s.len(),
{
    if s.len() > 0 && is_ws(s.last()) {
        trim_end(s.drop_last())
    } else {
        s
    }
}

/// `s` without leading and trailing whitespace.
pub open spec fn trim(s: Seq<char>) -> Seq<char> {
    trim_end(trim_start(s))
}

/// `s` with every run of spaces shortened to one space.
pub open spec fn collapse_spaces(s: Seq<char>) -> Seq<char>
    decreases s.len(),
{
    if s.len() < 2 {
        s
    } else if s[0] == ' ' && s[1] == ' ' {
        collapse_spaces(s.skip(1))
    } else {
        seq![s[0]] + collapse_spaces(s.skip(1))
    }
}

/// Where `p` first occurs in `s`.
pub open spec fn first_index(s: Seq<char>, p: Seq<char>) -> Option<int> {
    if exists|i: int| 0 <= i <= s.len() && #[trigger] occurs_at(s, p, i) {
        Some(
            choose|i: int|
                0 <= i <= s.len() && occurs_at(s, p, i) && forall|j: int|
                    0 <= j < i ==> !#[trigger] occurs_at(s, p, j),
        )
    } else {
        None
    }
}

/// Where `p` first occurs in `s`.
pub fn find_first(s: &[char], p: &[char]) -> (r: Option<usize>)
    ensures
        r matches Some(i) ==> i <= s@.len(),
        r matches Some(i) ==> first_index(s@, p@) == Some(i as int),
        r is None ==> first_index(s@, p@) is None,
{
    find_first_occurrence(s, p)
}

fn find_first_occurrence(s: &[char], p: &[char]) -> (r: Option<usize>)
    ensures
        r matches Some(i) ==> i <= s@.len() && occurs_at(s@, p@, i as int),
        r matches Some(i) ==> first_index(s@, p@) == Some(i as int),
        r is None ==> first_index(s@, p@) is None,
{
    let mut i: usize = 0;
    while i < s.len()
        invariant
            i <= s@.len(),
            forall|k: int| 0 <= k < i ==> !#[trigger] occurs_at(s@, p@, k),
        decreases s@.len() - i,
    {
        if matches_at(s, i, p) {
            proof {
                lemma_first_index(s@, p@, i as int);
            }
            return Some(i);
        }
        i += 1;
    }
    if matches_at(s, i, p) {
        proof {
            lemma_first_index(s@, p@, i as int);
        }
        return Some(i);
    }
    assert forall|k: int| 0 <= k <= s@.len() implies !#[trigger] occurs_at(s@, p@, k) by {}
    None
}

proof fn lemma_first_index(s: Seq<char>, p: Seq<char>, i: int)
    requires
        0 <= i <= s.len(),
        occurs_at(s, p, i),
        forall|k: int| 0 <= k < i ==> !#[trigger] occurs_at(s, p, k),
    ensures
        first_index(s, p) == Some(i),
{
    let c = choose|c: int|
        0 <= c <= s.len() && occurs_at(s, p, c) && forall|j: int|
            0 <= j < c ==> !#[trigger] occurs_at(s, p, j);
    assert(0 <= c <= s.len() && occurs_at(s, p, c));
    if c < i {
        assert(!occurs_at(s, p, c));
    } else if c > i {
        assert(!occurs_at(s, p, i));
    }
}

/// `s` with every run of spaces shortened to one space.
pub fn collapse_spaces_exec(s: &[char]) -> (r: Vec<char>)
    ensures
        r@ == collapse_spaces(s@),
{
    let mut r: Vec<char> = Vec::new();
    let mut i: usize = 0;
    assert(s@.skip(0) =~= s@);
    while s.len() >= 2 && i < s.len() - 1
        invariant
            i <= s@.len(),
            r@ + collapse_spaces(s@.skip(i as int)) == collapse_spaces(s@),
        decreases s@.len() - i,
    {
        let ghost rest = s@.skip(i as int);
        assert(rest.skip(1) =~= s@.skip(i + 1));
        if !(s[i] == ' ' && s[i + 1] == ' ') {
            r.push(s[i]);
            assert(r@ + collapse_spaces(s@.skip(i + 1)) =~= collapse_spaces(s@));
        }
        i += 1;
    }
    let tail = slice_chars(s, i, s.len());
    assert(tail@ =~= s@.skip(i as int));
    extend_chars(&mut r, tail.as_slice());
    r
}

/// `s` without leading and trailing whitespace.
pub fn trim_exec(s: &[char]) -> (r: Vec<char>)
    ensures
        r@ == trim(s@),
{
    let mut lo: usize = 0;
    assert(s@.skip(0) =~= s@);
    while lo < s.len() && (s[lo] == ' ' || s[lo] == '\t' || s[lo] == '\n' || s[lo] == '\r')
        invariant
            lo <= s@.len(),
            trim_start(s@) == trim_start(s@.skip(lo as int)),
        decreases s@.len() - lo,
    {
        assert(s@.skip(lo as int).skip(1) =~= s@.skip(lo + 1));
        lo += 1;
    }
    let mut hi: usize = s.len();
    assert(s@.skip(lo as int) =~= s@.subrange(lo as int, hi as int));
    while hi > lo && (s[hi - 1] == ' ' || s[hi - 1] == '\t' || s[hi - 1] == '\n' || s[hi - 1]
        == '\r')
        invariant
            lo <= hi <= s@.len(),
            trim(s@) == trim_end(s@.subrange(lo as int, hi as int)),
        decreases hi,
    {
        assert(s@.subrange(lo as int, hi as int).drop_last() =~= s@.subrange(
            lo as int,
            hi - 1,
        ));
        hi -= 1;
    }
    slice_chars(s, lo, hi)
}

/// Where `p` first occurs in `s` from position `from` on, counted from
/// `from`.
pub fn find_from(s: &[char], from: usize, p: &[char]) -> (r: Option<usize>)
    requires
        from <= s@.len(),
    ensures
        r matches Some(k) ==> first_index(s@.skip(from as int), p@) == Some(k as int) && from + k
            + p@.len() <= s@.len(),
        r is None ==> first_index(s@.skip(from as int), p@) is None,
{
    let rest = slice_chars(s, from, s.len());
    assert(rest@ =~= s@.skip(from as int));
    find_first_occurrence(rest.as_slice(), p)
}

/// A character that can be part of an identifier.
pub open spec fn is_word_char(c: char) -> bool {
    ('a' <= c && c <= 'z') || ('A' <= c && c <= 'Z') || ('0' <= c && c <= '9') || c == '_'
}

/// `p` occurs in `s` at `i` as a whole word: no identifier character
/// touches it on either side.
pub open spec fn word_at(s: Seq<char>, p: Seq<char>, i: int) -> bool {
    &&& occurs_at(s, p, i)
    &&& (i == 0 || !is_word_char(s[i - 1]))
    &&& (i + p.len() >= s.len() || !is_word_char(s[i + p.len()]))
}

/// Where `p` first occurs in `s` as a whole word.
pub open spec fn first_word_index(s: Seq<char>, p: Seq<char>) -> Option<int> {
    if exists|i: int| 0 <= i <= s.len() && #[trigger] word_at(s, p, i) {
        Some(
            choose|i: int|
                0 <= i <= s.len() && word_at(s, p, i) && forall|j: int|
                    0 <= j < i ==> !#[trigger] word_at(s, p, j),
        )
    } else {
        None
    }
}

fn word_char(c: char) -> (r: bool)
    ensures
        r == is_word_char(c),
{
    ('a' <= c && c <= 'z') || ('A' <= c && c <= 'Z') || ('0' <= c && c <= '9') || c == '_'
}

fn word_at_exec(s: &[char], i: usize, p: &[char]) -> (r: bool)
    requires
        i <= s@.len(),
    ensures
        r == word_at(s@, p@, i as int),
{
    if !matches_at(s, i, p) {
        return false;
    }
    if i > 0 && word_char(s[i - 1]) {
        return false;
    }
    let end = i + p.len();
    if end < s.len() && word_char(s[end]) {
        return false;
    }
    true
}

proof fn lemma_first_word_index(s: Seq<char>, p: Seq<char>, i: int)
    requires
        0 <= i <= s.len(),
        word_at(s, p, i),
        forall|k: int| 0 <= k < i ==> !#[trigger] word_at(s, p, k),
    ensures
        first_word_index(s, p) == Some(i),
{
    let c = choose|c: int|
        0 <= c <= s.len() && word_at(s, p, c) && forall|j: int|
            0 <= j < c ==> !#[trigger] word_at(s, p, j);
    assert(0 <= c <= s.len() && word_at(s, p, c));
    if c < i {
        assert(!word_at(s, p, c));
    } else if c > i {
        assert(!word_at(s, p, i));
    }
}

/// Where `p` first occurs in `s` as a whole word.
pub fn find_word(s: &[char], p: &[char]) -> (r: Option<usize>)
    ensures
        r matches Some(i) ==> i <= s@.len() && occurs_at(s@, p@, i as int) && first_word_index(
            s@,
            p@,
        ) == Some(i as int),
        r is None ==> first_word_index(s@, p@) is None,
{
    let mut i: usize = 0;
    while i < s.len()
        invariant
            i <= s@.len(),
            forall|k: int| 0 <= k < i ==> !#[trigger] word_at(s@, p@, k),
        decreases s@.len() - i,
    {
        if word_at_exec(s, i, p) {
            proof {
                lemma_first_word_index(s@, p@, i as int);
            }
            return Some(i);
        }
        i += 1;
    }
    if word_at_exec(s, i, p) {
        proof {
            lemma_first_word_index(s@, p@, i as int);
        }
        return Some(i);
    }
    assert forall|k: int| 0 <= k <= s@.len() implies !#[trigger] word_at(s@, p@, k) by {}
    None
}

} // verus!
