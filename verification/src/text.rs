//! Character-level helpers: Unicode white space, trimming, and building
//! strings from characters.
use vstd::prelude::*;

verus! {

/// Unicode `White_Space`, the set that `str::trim` removes.
pub open spec fn is_white_space(c: char) -> bool {
    ||| '\t' <= c && c <= '\r'
    ||| c == ' '
    ||| c == '\u{85}'
    ||| c == '\u{A0}'
    ||| c == '\u{1680}'
    ||| '\u{2000}' <= c && c <= '\u{200A}'
    ||| c == '\u{2028}'
    ||| c == '\u{2029}'
    ||| c == '\u{202F}'
    ||| c == '\u{205F}'
    ||| c == '\u{3000}'
}

/// The number of leading white-space characters of `s`.
pub open spec fn white_prefix(s: Seq<char>) -> int
    decreases s.len(),
{
    if s.len() > 0 && is_white_space(s[0]) {
        1 + white_prefix(s.drop_first())
    } else {
        0
    }
}

/// The number of trailing white-space characters of `s`.
pub open spec fn white_suffix(s: Seq<char>) -> int
    decreases s.len(),
{
    if s.len() > 0 && is_white_space(s.last()) {
        1 + white_suffix(s.drop_last())
    } else {
        0
    }
}

/// `s` without leading and trailing white space.
pub open spec fn trim(s: Seq<char>) -> Seq<char> {
    let t = s.skip(white_prefix(s));
    t.take(t.len() - white_suffix(t))
}

pub proof fn lemma_white_prefix(s: Seq<char>)
    ensures
        0 <= white_prefix(s) <= s.len(),
        forall|k: int| 0 <= k < white_prefix(s) ==> is_white_space(#[trigger] s[k]),
        white_prefix(s) == s.len() || !is_white_space(s[white_prefix(s)]),
    decreases s.len(),
{
    if s.len() > 0 && is_white_space(s[0]) {
        let d = s.drop_first();
        lemma_white_prefix(d);
        assert forall|k: int| 0 <= k < white_prefix(s) implies is_white_space(#[trigger] s[k]) by {
            if k > 0 {
                assert(s[k] == d[k - 1]);
            }
        }
        if white_prefix(s) < s.len() {
            assert(s[white_prefix(s)] == d[white_prefix(d)]);
        }
    }
}

pub proof fn lemma_white_suffix(s: Seq<char>)
    ensures
        0 <= white_suffix(s) <= s.len(),
        forall|k: int|
            s.len() - white_suffix(s) <= k < s.len() ==> is_white_space(#[trigger] s[k]),
        white_suffix(s) == s.len() || !is_white_space(s[s.len() - white_suffix(s) - 1]),
    decreases s.len(),
{
    if s.len() > 0 && is_white_space(s.last()) {
        let d = s.drop_last();
        lemma_white_suffix(d);
        assert forall|k: int|
            s.len() - white_suffix(s) <= k < s.len() implies is_white_space(#[trigger] s[k]) by {
            if k < s.len() - 1 {
                assert(s[k] == d[k]);
            }
        }
        if white_suffix(s) < s.len() {
            assert(s[s.len() - white_suffix(s) - 1] == d[d.len() - white_suffix(d) - 1]);
        }
    }
}

proof fn lemma_white_prefix_at(s: Seq<char>, i: int)
    requires
        0 <= i <= s.len(),
        forall|k: int| 0 <= k < i ==> #[trigger] is_white_space(s[k]),
        i == s.len() || !is_white_space(s[i]),
    ensures
        white_prefix(s) == i,
    decreases i,
{
    if i > 0 {
        let d = s.drop_first();
        assert forall|k: int| 0 <= k < i - 1 implies #[trigger] is_white_space(d[k]) by {
            assert(d[k] == s[k + 1]);
        }
        if i < s.len() {
            assert(d[i - 1] == s[i]);
        }
        lemma_white_prefix_at(d, i - 1);
    }
}

proof fn lemma_white_suffix_at(s: Seq<char>, j: int)
    requires
        0 <= j <= s.len(),
        forall|k: int| j <= k < s.len() ==> #[trigger] is_white_space(s[k]),
        j == 0 || !is_white_space(s[j - 1]),
    ensures
        white_suffix(s) == s.len() - j,
    decreases s.len() - j,
{
    if j < s.len() {
        let d = s.drop_last();
        assert forall|k: int| j <= k < d.len() implies #[trigger] is_white_space(d[k]) by {
            assert(d[k] == s[k]);
        }
        if j > 0 {
            assert(d[j - 1] == s[j - 1]);
        }
        lemma_white_suffix_at(d, j);
    }
}

pub fn is_white_space_char(c: char) -> (r: bool)
    ensures
        r == is_white_space(c),
{
    ('\t' <= c && c <= '\r') || c == ' ' || c == '\u{85}' || c == '\u{A0}' || c == '\u{1680}' || (
    '\u{2000}' <= c && c <= '\u{200A}') || c == '\u{2028}' || c == '\u{2029}' || c == '\u{202F}'
        || c == '\u{205F}' || c == '\u{3000}'
}

/// The characters of `s` from `from` up to `to`.
pub fn slice_range(s: &[char], from: usize, to: usize) -> (r: &[char])
    requires
        from <= to <= s@.len(),
    ensures
        r@ == s@.subrange(from as int, to as int),
{
    let r = &s[from..to];
    assert(r@ =~= s@.subrange(from as int, to as int));
    r
}

/// The characters of `s` from position `start` on.
pub fn slice_from(s: &[char], start: usize) -> (r: &[char])
    requires
        start <= s@.len(),
    ensures
        r@ == s@.skip(start as int),
{
    let r = &s[start..s.len()];
    assert(r@ =~= s@.skip(start as int));
    r
}

/// `s` without leading and trailing white space.
pub fn trim_chars(s: &[char]) -> (r: &[char])
    ensures
        r@ == trim(s@),
{
    let mut i: usize = 0;
    while i < s.len() && is_white_space_char(s[i])
        invariant
            i <= s@.len(),
            forall|k: int| 0 <= k < i ==> #[trigger] is_white_space(s@[k]),
        decreases s@.len() - i,
    {
        i += 1;
    }
    proof {
        lemma_white_prefix_at(s@, i as int);
    }
    let t = slice_from(s, i);
    let mut j: usize = t.len();
    while j > 0 && is_white_space_char(t[j - 1])
        invariant
            j <= t@.len(),
            forall|k: int| j <= k < t@.len() ==> #[trigger] is_white_space(t@[k]),
        decreases j,
    {
        j -= 1;
    }
    proof {
        lemma_white_suffix_at(t@, j as int);
    }
    let r = slice_range(t, 0, j);
    assert(r@ =~= trim(s@));
    r
}

/// The characters of `s`, in order.
pub fn chars_of(s: &str) -> (v: Vec<char>)
    ensures
        v@ == s@,
{
    let mut v: Vec<char> = Vec::new();
    for c in it: s.chars()
        invariant
            v@ == it.seq().take(it.index() as int),
    {
        v.push(c);
    }
    v
}

/// Appends `c` to `s` (`String::push`).
#[verifier::external_body]
pub fn push_char(s: &mut String, c: char)
    ensures
        final(s)@ == old(s)@.push(c),
{
    s.push(c);
}

/// A string holding the characters of `cs`.
pub fn string_of(cs: &[char]) -> (r: String)
    ensures
        r@ == cs@,
{
    let mut r = String::new();
    let mut i: usize = 0;
    while i < cs.len()
        invariant
            i <= cs@.len(),
            r@ == cs@.take(i as int),
        decreases cs@.len() - i,
    {
        push_char(&mut r, cs[i]);
        assert(cs@.take(i + 1) =~= cs@.take(i as int).push(cs@[i as int]));
        i += 1;
    }
    assert(cs@.take(cs@.len() as int) =~= cs@);
    r
}

} // verus!
