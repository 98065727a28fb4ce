//! Byte- and character-level helpers used by the reader.
use vstd::prelude::*;

verus! {

/// `sub` occurs in `hay` at some position.
pub open spec fn has_substring(hay: Seq<u8>, sub: Seq<u8>) -> bool {
    exists|i: int| 0 <= i && i + sub.len() <= hay.len() && #[trigger] hay.subrange(i, i + sub.len()) == sub
}

fn matches_at(hay: &[u8], sub: &[u8], at: usize) -> (r: bool)
    requires
        at + sub@.len() <= hay@.len(),
    ensures
        r == (hay@.subrange(at as int, at + sub@.len()) == sub@),
{
    let mut j: usize = 0;
    while j < sub.len()
        invariant
            at + sub@.len() <= hay@.len(),
            j <= sub@.len(),
            forall|k: int| 0 <= k < j ==> hay@[at + k] == sub@[k],
        decreases sub@.len() - j,
    {
        assert(at + j < hay.len());
        if hay[at + j] != sub[j] {
            assert(hay@.subrange(at as int, at + sub@.len())[j as int] != sub@[j as int]);
            return false;
        }
        j += 1;
    }
    assert(hay@.subrange(at as int, at + sub@.len()) =~= sub@);
    true
}

/// Whether the byte string `sub` occurs anywhere in `hay`.
pub fn contains_substring(hay: &[u8], sub: &[u8]) -> (r: bool)
    ensures
        r == has_substring(hay@, sub@),
{
    if sub.len() > hay.len() {
        return false;
    }
    if sub.len() == 0 {
        assert(hay@.subrange(0, 0 + sub@.len() as int) =~= sub@);
        return true;
    }
    let mut i: usize = 0;
    while sub.len() <= hay.len() - i
        invariant
            1 <= sub@.len() <= hay@.len(),
            i <= hay@.len(),
            forall|k: int| 0 <= k < i ==> #[trigger] hay@.subrange(k, k + sub@.len()) != sub@,
        decreases hay@.len() - i,
    {
        if matches_at(hay, sub, i) {
            return true;
        }
        i += 1;
    }
    false
}

/// The characters that the markup pads date fields with.
pub open spec fn is_pad(c: char) -> bool {
    c == ' ' || c == '\r' || c == '\n'
}

/// `s` with padding removed from both ends.
pub open spec fn trim_pad(s: Seq<char>) -> Seq<char>
    decreases s.len(),
{
    if s.len() > 0 && is_pad(s[0]) {
        trim_pad(s.drop_first())
    } else if s.len() > 0 && is_pad(s.last()) {
        trim_pad(s.drop_last())
    } else {
        s
    }
}

/// The characters with the Unicode `White_Space` property.
pub open spec fn is_white_space(c: char) -> bool {
    ('\u{9}' <= c && c <= '\u{D}') || c == ' ' || c == '\u{85}' || c == '\u{A0}' || c == '\u{1680}'
        || ('\u{2000}' <= c && c <= '\u{200A}') || c == '\u{2028}' || c == '\u{2029}' || c == '\u{202F}'
        || c == '\u{205F}' || c == '\u{3000}'
}

/// `s` with white space removed from both ends.
pub open spec fn trim_white(s: Seq<char>) -> Seq<char>
    decreases s.len(),
{
    if s.len() > 0 && is_white_space(s[0]) {
        trim_white(s.drop_first())
    } else if s.len() > 0 && is_white_space(s.last()) {
        trim_white(s.drop_last())
    } else {
        s
    }
}

/// Whether two byte strings are equal.
pub fn same_bytes(a: &[u8], b: &[u8]) -> (r: bool)
    ensures
        r == (a@ == b@),
{
    if a.len() != b.len() {
        return false;
    }
    let r = matches_at(a, b, 0);
    assert(a@.subrange(0, 0 + b@.len() as int) =~= a@);
    r
}

/// Whether `c` occurs in `v`.
pub fn has_char(v: &[char], c: char) -> (r: bool)
    ensures
        r == v@.contains(c),
{
    let mut i: usize = 0;
    while i < v.len()
        invariant
            i <= v@.len(),
            forall|k: int| 0 <= k < i ==> v@[k] != c,
        decreases v@.len() - i,
    {
        if v[i] == c {
            assert(v@[i as int] == c);
            return true;
        }
        i += 1;
    }
    false
}

/// A copy of `v[from..to]`.
pub fn copy_range(v: &[char], from: usize, to: usize) -> (r: Vec<char>)
    requires
        from <= to <= v@.len(),
    ensures
        r@ == v@.subrange(from as int, to as int),
{
    let mut r: Vec<char> = Vec::new();
    let mut i: usize = from;
    while i < to
        invariant
            from <= i <= to <= v@.len(),
            r@ == v@.subrange(from as int, i as int),
        decreases to - i,
    {
        r.push(v[i]);
        i += 1;
        assert(r@ =~= v@.subrange(from as int, i as int));
    }
    r
}

proof fn lemma_trim_front(v: Seq<char>, i: int, j: int)
    requires
        0 <= i < j <= v.len(),
        is_pad(v[i]),
    ensures
        trim_pad(v.subrange(i, j)) == trim_pad(v.subrange(i + 1, j)),
{
    assert(v.subrange(i, j).drop_first() =~= v.subrange(i + 1, j));
}

proof fn lemma_trim_back(v: Seq<char>, i: int, j: int)
    requires
        0 <= i < j <= v.len(),
        !is_pad(v[i]),
        is_pad(v[j - 1]),
    ensures
        trim_pad(v.subrange(i, j)) == trim_pad(v.subrange(i, j - 1)),
{
    assert(v.subrange(i, j).drop_last() =~= v.subrange(i, j - 1));
}

/// `v` without the spaces, carriage returns and line feeds at either end.
pub fn pad_trimmed(v: &[char]) -> (r: Vec<char>)
    ensures
        r@ == trim_pad(v@),
{
    let mut i: usize = 0;
    assert(v@.subrange(0, v@.len() as int) =~= v@);
    while i < v.len() && (v[i] == ' ' || v[i] == '\r' || v[i] == '\n')
        invariant
            i <= v@.len(),
            trim_pad(v@) == trim_pad(v@.subrange(i as int, v@.len() as int)),
        decreases v@.len() - i,
    {
        proof {
            lemma_trim_front(v@, i as int, v@.len() as int);
        }
        i += 1;
    }
    let mut j: usize = v.len();
    while j > i && (v[j - 1] == ' ' || v[j - 1] == '\r' || v[j - 1] == '\n')
        invariant
            i <= j <= v@.len(),
            i < v@.len() ==> !is_pad(v@[i as int]),
            trim_pad(v@) == trim_pad(v@.subrange(i as int, j as int)),
        decreases j,
    {
        proof {
            lemma_trim_back(v@, i as int, j as int);
        }
        j -= 1;
    }
    let r = copy_range(v, i, j);
    proof {
        let w = v@.subrange(i as int, j as int);
        if w.len() > 0 {
            assert(w[0] == v@[i as int]);
            assert(w.last() == v@[j - 1]);
        }
    }
    r
}

} // verus!
