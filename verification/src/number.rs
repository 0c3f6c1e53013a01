//! Numeric tokens of SVG attributes (lengths, path data, transform
//! arguments): the grammar `[+-]?(digits(.digits)?|.digits)([eE][+-]?digits)?`.
use vstd::prelude::*;

use crate::text::{chars_of, slice_from, slice_range, string_of};


verus! {

pub open spec fn is_digit(c: char) -> bool {
    '0' <= c && c <= '9'
}

pub open spec fn is_sign(c: char) -> bool {
    c == '+' || c == '-'
}

pub open spec fn is_exp_marker(c: char) -> bool {
    c == 'e' || c == 'E'
}

/// Every character of `s` is a decimal digit (vacuous for the empty sequence).
pub open spec fn all_digits(s: Seq<char>) -> bool {
    forall|i: int| 0 <= i < s.len() ==> #[trigger] is_digit(s[i])
}

/// One or more decimal digits.
pub open spec fn is_digits(s: Seq<char>) -> bool {
    s.len() > 0 && all_digits(s)
}

/// `digits`, `digits.digits` or `.digits`: a dot, where present, is preceded
/// by zero or more digits and followed by at least one.
pub open spec fn is_mantissa(s: Seq<char>) -> bool {
    ||| is_digits(s)
    ||| exists|k: int|
        #![trigger s[k]]
        0 <= k < s.len() && s[k] == '.' && all_digits(s.take(k)) && is_digits(s.skip(k + 1))
}

/// The optional exponent: empty, or `e`/`E`, an optional sign and digits.
pub open spec fn is_exponent(s: Seq<char>) -> bool {
    ||| s.len() == 0
    ||| s.len() > 0 && is_exp_marker(s[0]) && is_digits(s.skip(1))
    ||| s.len() > 1 && is_exp_marker(s[0]) && is_sign(s[1]) && is_digits(s.skip(2))
}

/// The sign part of a token split at `a` (0 or 1) and its mantissa ending at `m`.
pub open spec fn is_token_split(t: Seq<char>, a: int, m: int) -> bool {
    &&& 0 <= a <= 1
    &&& a <= m <= t.len()
    &&& (a == 1 ==> is_sign(t[0]))
    &&& is_mantissa(t.subrange(a, m))
    &&& is_exponent(t.skip(m))
}

/// `t` is, as a whole, one number in SVG's number grammar.
pub open spec fn is_number_token(t: Seq<char>) -> bool {
    exists|a: int, m: int| is_token_split(t, a, m)
}

/// `n` is the length of the longest prefix of `s` that is a number.
pub open spec fn is_longest_number_prefix(s: Seq<char>, n: int) -> bool {
    &&& 0 < n <= s.len()
    &&& is_number_token(s.take(n))
    &&& forall|m: int| n < m <= s.len() ==> !is_number_token(#[trigger] s.take(m))
}

/// Some prefix of `s` is a number.
pub open spec fn has_number_prefix(s: Seq<char>) -> bool {
    exists|m: int| 0 <= m <= s.len() && is_number_token(#[trigger] s.take(m))
}

/// The length of the longest numeric prefix of `s`, if there is one.
pub open spec fn longest_number_prefix(s: Seq<char>) -> Option<int> {
    if exists|n: int| is_longest_number_prefix(s, n) {
        Some(choose|n: int| is_longest_number_prefix(s, n))
    } else {
        None
    }
}

/// The whitespace that `pop_number` skips: ASCII space, tab, line feed,
/// vertical tab, form feed and carriage return.
pub open spec fn is_space_char(c: char) -> bool {
    c == ' ' || c == '\t' || c == '\n' || c == '\x0B' || c == '\x0C' || c == '\r'
}

/// The number of leading `is_space_char` characters of `s`.
pub open spec fn space_run(s: Seq<char>) -> int
    decreases s.len(),
{
    if s.len() > 0 && is_space_char(s[0]) {
        1 + space_run(s.drop_first())
    } else {
        0
    }
}

/// A number token directly followed by one of these would need more digits.
pub open spec fn starts_incomplete(r: Seq<char>) -> bool {
    r.len() > 0 && (r[0] == '.' || is_exp_marker(r[0]))
}

/// What `pop_number` takes from `s` when it succeeds: the number token and
/// the text after it. `None` when `s` (after leading spaces) does not start
/// with a number, or the number is directly followed by `.`, `e` or `E`.
pub open spec fn spec_pop_number(s: Seq<char>) -> Option<(Seq<char>, Seq<char>)> {
    let t = s.skip(space_run(s));
    match longest_number_prefix(t) {
        Some(n) => if starts_incomplete(t.skip(n)) {
            None
        } else {
            Some((t.take(n), t.skip(n)))
        },
        None => None,
    }
}

/// `pop_number` fails on `s` because its number would need more digits.
pub open spec fn pop_is_incomplete(s: Seq<char>) -> bool {
    let t = s.skip(space_run(s));
    match longest_number_prefix(t) {
        Some(n) => starts_incomplete(t.skip(n)),
        None => false,
    }
}

/// A number token of the grammar above, kept as its exact text.
#[derive(Debug, PartialEq, Eq)]
pub struct Number {
    token: String,
}

impl View for Number {
    type V = Seq<char>;

    closed spec fn view(&self) -> Seq<char> {
        self.token@
    }
}

impl Number {
    /// The token's text.
    pub fn as_str(&self) -> (r: &str)
        ensures
            r@ == self@,
    {
        self.token.as_str()
    }

    /// A second number with the same text.
    pub fn duplicate(&self) -> (r: Number)
        ensures
            r@ == self@,
    {
        Number { token: self.token.clone() }
    }
}

#[derive(Debug, PartialEq, Eq)]
pub enum NumberError {
    /// The whole input is not a number.
    NotANumber(String),
    /// The input does not start with optional whitespace and a number.
    NoLeadingNumber(String),
    /// The input starts with a number that continues with `.`, `e` or `E`.
    Incomplete(String),
}

pub fn is_space(c: char) -> (r: bool)
    ensures
        r == is_space_char(c),
{
    c == ' ' || c == '\t' || c == '\n' || c == '\x0B' || c == '\x0C' || c == '\r'
}

fn is_digit_char(c: char) -> (r: bool)
    ensures
        r == is_digit(c),
{
    '0' <= c && c <= '9'
}

/// `s[start..end]` is a maximal run of digits starting at `start`.
pub open spec fn digit_run(s: Seq<char>, start: int, end: int) -> bool {
    &&& 0 <= start <= end <= s.len()
    &&& all_digits(s.subrange(start, end))
    &&& (end == s.len() || !is_digit(s[end]))
}

/// The positions that the greedy scan of `s` computes: the sign length `a`,
/// the end `i1` of the integer digits, the end `jf` of the digits after a
/// dot at `i1`, the mantissa end `i2`, the start `j2` and end `j3` of the
/// exponent digits, and the end of the whole token.
pub open spec fn greedy_positions(
    s: Seq<char>,
    a: int,
    i1: int,
    jf: int,
    i2: int,
    j2: int,
    j3: int,
    end: int,
) -> bool {
    &&& a == (if s.len() > 0 && is_sign(s[0]) { 1int } else { 0int })
    &&& digit_run(s, a, i1)
    &&& if i1 < s.len() && s[i1] == '.' {
        &&& digit_run(s, i1 + 1, jf)
        &&& i2 == (if jf > i1 + 1 { jf } else { i1 })
    } else {
        i2 == i1
    }
    &&& if i2 < s.len() && is_exp_marker(s[i2]) {
        &&& j2 == (if i2 + 1 < s.len() && is_sign(s[i2 + 1]) { i2 + 2 } else { i2 + 1 })
        &&& digit_run(s, j2, j3)
        &&& end == (if j3 > j2 { j3 } else { i2 })
    } else {
        end == i2
    }
}

proof fn lemma_greedy_prefix_is_token(
    s: Seq<char>,
    a: int,
    i1: int,
    jf: int,
    i2: int,
    j2: int,
    j3: int,
    end: int,
)
    requires
        greedy_positions(s, a, i1, jf, i2, j2, j3, end),
        i1 > a || i2 > i1,
    ensures
        is_number_token(s.take(end)),
        0 < end <= s.len(),
{
    let t = s.take(end);
    let ms = t.subrange(a, i2);
    if i2 > i1 {
        let k = i1 - a;
        assert(ms[k] == '.');
        assert(ms.take(k) =~= s.subrange(a, i1));
        assert(ms.skip(k + 1) =~= s.subrange(i1 + 1, i2));
    } else {
        assert(ms =~= s.subrange(a, i1));
    }
    assert(is_mantissa(ms));
    let e = t.skip(i2);
    if end > i2 {
        if j2 == i2 + 2 {
            assert(e.skip(2) =~= s.subrange(j2, j3));
        } else {
            assert(e.skip(1) =~= s.subrange(j2, j3));
        }
    } else {
        assert(e.len() == 0);
    }
    assert(is_token_split(t, a, i2));
}

proof fn lemma_greedy_is_longest(
    s: Seq<char>,
    a: int,
    i1: int,
    jf: int,
    i2: int,
    j2: int,
    j3: int,
    end: int,
    m: int,
    a2: int,
    m2: int,
)
    requires
        greedy_positions(s, a, i1, jf, i2, j2, j3, end),
        end < m <= s.len(),
    ensures
        !is_token_split(s.take(m), a2, m2),
{
    if !is_token_split(s.take(m), a2, m2) {
        return;
    }
    let t = s.take(m);
    let ms = t.subrange(a2, m2);
    assert(ms.len() > 0);
    assert(ms[0] == s[a2]);
    assert(is_digit(ms[0]) || ms[0] == '.') by {
        if !is_digits(ms) {
            let k = choose|k: int|
                #![trigger ms[k]]
                0 <= k < ms.len() && ms[k] == '.' && all_digits(ms.take(k)) && is_digits(
                    ms.skip(k + 1),
                );
            if k > 0 {
                assert(ms.take(k)[0] == ms[0]);
            }
        }
    }
    assert(a2 == a);
    // every character of s in [a, i2) is a digit or the dot at i1
    assert(m2 <= i2) by {
        if is_digits(ms) {
            if m2 > i1 {
                assert(ms[i1 - a] == s[i1]);
            }
        } else {
            let k = choose|k: int|
                #![trigger ms[k]]
                0 <= k < ms.len() && ms[k] == '.' && all_digits(ms.take(k)) && is_digits(
                    ms.skip(k + 1),
                );
            let p = a + k;
            assert(s[p] == '.');
            if p > i1 {
                assert(ms.take(k)[i1 - a] == s[i1]);
                assert(is_digit(ms.take(k)[i1 - a]));
            }
            if p < i1 {
                assert(s.subrange(a, i1)[p - a] == s[p]);
                assert(is_digit(s.subrange(a, i1)[p - a]));
            }
            assert(p == i1);
            assert(ms.skip(k + 1)[0] == s[i1 + 1]);
            if jf <= i1 + 1 {
                assert(s[jf] == s[i1 + 1]);
            }
            assert(jf > i1 + 1);
            assert(i2 == jf);
            if m2 > jf {
                assert(ms.skip(k + 1)[jf - i1 - 1] == s[jf]);
            }
        }
    }
    let e = t.skip(m2);
    assert(e.len() > 0);
    assert(e[0] == s[m2]);
    assert(is_exp_marker(s[m2]));
    if m2 < i2 {
        if m2 < i1 {
            assert(s.subrange(a, i1)[m2 - a] == s[m2]);
            assert(is_digit(s.subrange(a, i1)[m2 - a]));
        } else if m2 > i1 {
            assert(i1 < s.len() && s[i1] == '.' && i2 == jf);
            assert(s.subrange(i1 + 1, jf)[m2 - i1 - 1] == s[m2]);
            assert(is_digit(s.subrange(i1 + 1, jf)[m2 - i1 - 1]));
        } else {
            assert(s[i1] == '.');
        }
    }
    assert(m2 == i2);
    // the exponent digits of the token start where the greedy scan looked
    if e.len() > 1 && is_sign(e[1]) && is_digits(e.skip(2)) {
        assert(e[1] == s[i2 + 1]);
        assert(j2 == i2 + 2);
        assert(e.skip(2)[0] == s[j2]);
        if j3 == j2 {
            assert(s[j3] == s[j2]);
        }
        assert(end == j3);
        assert(e.skip(2)[end - j2] == s[end]);
    } else {
        assert(is_digits(e.skip(1)));
        assert(e.skip(1)[0] == s[i2 + 1]);
        assert(is_digit(e.skip(1)[0]));
        assert(j2 == i2 + 1);
        if j3 == j2 {
            assert(s[j3] == s[j2]);
        }
        assert(end == j3);
        assert(e.skip(1)[end - j2] == s[end]);
    }
}

proof fn lemma_greedy_no_prefix(
    s: Seq<char>,
    a: int,
    i1: int,
    jf: int,
    i2: int,
    j2: int,
    j3: int,
    end: int,
    m: int,
    a2: int,
    m2: int,
)
    requires
        greedy_positions(s, a, i1, jf, i2, j2, j3, end),
        i1 == a,
        i2 == i1,
        0 <= m <= s.len(),
    ensures
        !is_token_split(s.take(m), a2, m2),
{
    if !is_token_split(s.take(m), a2, m2) {
        return;
    }
    let t = s.take(m);
    let ms = t.subrange(a2, m2);
    assert(ms.len() > 0);
    assert(ms[0] == s[a2]);
    assert(t[0] == s[0]);
    if is_digits(ms) {
        assert(is_digit(ms[0]));
        assert(a2 == a);
    } else {
        let k = choose|k: int|
            #![trigger ms[k]]
            0 <= k < ms.len() && ms[k] == '.' && all_digits(ms.take(k)) && is_digits(
                ms.skip(k + 1),
            );
        if k > 0 {
            assert(ms.take(k)[0] == ms[0]);
            assert(is_digit(ms.take(k)[0]));
            assert(a2 == a);
        } else {
            if a2 == 1 {
                assert(is_sign(t[0]));
                assert(is_sign(s[0]));
            } else {
                assert(s[0] == '.');
            }
            assert(a2 == a);
            assert(ms.skip(1)[0] == s[a + 1]);
            assert(s[jf] == s[a + 1]);
        }
    }
}

proof fn lemma_longest_unique(s: Seq<char>, n: int)
    requires
        is_longest_number_prefix(s, n),
    ensures
        longest_number_prefix(s) == Some(n),
{
    let n2 = choose|n2: int| is_longest_number_prefix(s, n2);
    assert(is_longest_number_prefix(s, n2));
    if n2 < n {
        assert(!is_number_token(s.take(n)));
    }
    if n < n2 {
        assert(!is_number_token(s.take(n2)));
    }
}

/// The end of the run of digits in `s` that starts at `start`.
fn digit_run_end(s: &[char], start: usize) -> (end: usize)
    requires
        start <= s@.len(),
    ensures
        digit_run(s@, start as int, end as int),
{
    let mut i = start;
    while i < s.len() && is_digit_char(s[i])
        invariant
            start <= i <= s@.len(),
            all_digits(s@.subrange(start as int, i as int)),
        decreases s@.len() - i,
    {
        assert(s@.subrange(start as int, i + 1) =~= s@.subrange(start as int, i as int).push(
            s@[i as int],
        ));
        i += 1;
    }
    i
}

/// The length of the longest prefix of `s` that is a number, if any.
pub fn scan_number(s: &[char]) -> (r: Option<usize>)
    ensures
        match r {
            Some(n) => is_longest_number_prefix(s@, n as int),
            None => !has_number_prefix(s@),
        },
        r == match longest_number_prefix(s@) {
            Some(n) => Some(n as usize),
            None => None::<usize>,
        },
{
    let n = s.len();
    let a: usize = if n > 0 && (s[0] == '+' || s[0] == '-') {
        1
    } else {
        0
    };
    let i1 = digit_run_end(s, a);
    let mut jf: usize = i1;
    let mut i2: usize = i1;
    if i1 < n && s[i1] == '.' {
        jf = digit_run_end(s, i1 + 1);
        if jf > i1 + 1 {
            i2 = jf;
        }
    }
    let mut j2: usize = i2;
    let mut j3: usize = i2;
    let mut end: usize = i2;
    if i2 < n && (s[i2] == 'e' || s[i2] == 'E') {
        j2 = if i2 + 1 < n && (s[i2 + 1] == '+' || s[i2 + 1] == '-') {
            i2 + 2
        } else {
            i2 + 1
        };
        j3 = digit_run_end(s, j2);
        if j3 > j2 {
            end = j3;
        }
    }
    assert(greedy_positions(
        s@,
        a as int,
        i1 as int,
        jf as int,
        i2 as int,
        j2 as int,
        j3 as int,
        end as int,
    ));
    if i1 == a && i2 == i1 {
        proof {
            assert forall|m: int| 0 <= m <= s@.len() implies !is_number_token(
                #[trigger] s@.take(m),
            ) by {
                if is_number_token(s@.take(m)) {
                    let (a2, m2) = choose|a2: int, m2: int| is_token_split(s@.take(m), a2, m2);
                    lemma_greedy_no_prefix(
                        s@,
                        a as int,
                        i1 as int,
                        jf as int,
                        i2 as int,
                        j2 as int,
                        j3 as int,
                        end as int,
                        m,
                        a2,
                        m2,
                    );
                }
            }
        }
        return None;
    }
    proof {
        lemma_greedy_prefix_is_token(
            s@,
            a as int,
            i1 as int,
            jf as int,
            i2 as int,
            j2 as int,
            j3 as int,
            end as int,
        );
        assert forall|m: int| end < m <= s@.len() implies !is_number_token(
            #[trigger] s@.take(m),
        ) by {
            if is_number_token(s@.take(m)) {
                let (a2, m2) = choose|a2: int, m2: int| is_token_split(s@.take(m), a2, m2);
                lemma_greedy_is_longest(
                    s@,
                    a as int,
                    i1 as int,
                    jf as int,
                    i2 as int,
                    j2 as int,
                    j3 as int,
                    end as int,
                    m,
                    a2,
                    m2,
                );
            }
        }
        lemma_longest_unique(s@, end as int);
    }
    Some(end)
}

proof fn lemma_token_is_whole_longest(s: Seq<char>)
    ensures
        is_number_token(s) <==> longest_number_prefix(s) == Some(s.len() as int),
{
    assert(s.take(s.len() as int) =~= s);
    if is_number_token(s) {
        assert(s.len() > 0) by {
            let (a, m) = choose|a: int, m: int| is_token_split(s, a, m);
            assert(s.subrange(a, m).len() > 0);
        }
        assert(is_longest_number_prefix(s, s.len() as int));
        lemma_longest_unique(s, s.len() as int);
    } else if longest_number_prefix(s) == Some(s.len() as int) {
        let n = choose|n: int| is_longest_number_prefix(s, n);
        assert(is_longest_number_prefix(s, n));
    }
}

/// `space_run(s)` is the position of the first non-space character.
proof fn lemma_space_run(s: Seq<char>, i: int)
    requires
        0 <= i <= s.len(),
        forall|k: int| 0 <= k < i ==> #[trigger] is_space_char(s[k]),
        i == s.len() || !is_space_char(s[i]),
    ensures
        space_run(s) == i,
    decreases i,
{
    if i > 0 {
        let d = s.drop_first();
        assert forall|k: int| 0 <= k < i - 1 implies #[trigger] is_space_char(d[k]) by {
            assert(d[k] == s[k + 1]);
        }
        if i < s.len() {
            assert(d[i - 1] == s[i]);
        }
        lemma_space_run(d, i - 1);
    }
}

/// The number of leading spaces of `s`.
pub fn count_spaces(s: &[char]) -> (n: usize)
    ensures
        n == space_run(s@),
        n <= s@.len(),
{
    let mut i: usize = 0;
    while i < s.len() && is_space(s[i])
        invariant
            i <= s@.len(),
            forall|k: int| 0 <= k < i ==> #[trigger] is_space_char(s@[k]),
        decreases s@.len() - i,
    {
        i += 1;
    }
    proof {
        lemma_space_run(s@, i as int);
    }
    i
}

/// The number whose text is `cs`, which is a number token.
pub fn number_of(cs: &[char]) -> (n: Number)
    requires
        is_number_token(cs@),
    ensures
        n@ == cs@,
{
    Number { token: string_of(cs) }
}

/// Parses `input` as a number, requiring the entire string to be one.
pub fn parse_number(input: &str) -> (r: Result<Number, NumberError>)
    ensures
        match r {
            Ok(n) => is_number_token(input@) && n@ == input@,
            Err(e) => !is_number_token(input@) && (e matches NumberError::NotANumber(t)
                && t@ == input@),
        },
{
    let cs = chars_of(input);
    proof {
        lemma_token_is_whole_longest(input@);
    }
    match scan_number(cs.as_slice()) {
        Some(len) => if len == cs.len() {
            Ok(Number { token: input.to_owned() })
        } else {
            Err(NumberError::NotANumber(input.to_owned()))
        },
        None => Err(NumberError::NotANumber(input.to_owned())),
    }
}

/// Parses `input` as a number; `input` must be one as a whole.
pub fn must_parse_number(input: &str) -> (n: Number)
    requires
        is_number_token(input@),
    ensures
        n@ == input@,
{
    match parse_number(input) {
        Ok(n) => n,
        Err(_) => {
            assert(false);
            Number { token: input.to_owned() }
        },
    }
}

/// Parses `input` as a number, or gives `default_result` when it is not one.
pub fn parse_number_default(input: &str, default_result: Number) -> (n: Number)
    ensures
        n@ == (if is_number_token(input@) {
            input@
        } else {
            default_result@
        }),
{
    match parse_number(input) {
        Ok(n) => n,
        Err(_) => default_result,
    }
}

/// Consumes leading whitespace and a number from `s`, returning the number
/// and the position just after it.
pub fn pop_number_in(s: &[char]) -> (r: Result<(Number, usize), NumberError>)
    ensures
        match r {
            Ok((n, end)) => end <= s@.len() && spec_pop_number(s@) == Some(
                (n@, s@.skip(end as int)),
            ),
            Err(e) => spec_pop_number(s@) is None && match e {
                NumberError::Incomplete(t) => t@ == s@ && pop_is_incomplete(s@),
                NumberError::NoLeadingNumber(t) => t@ == s@ && !pop_is_incomplete(s@),
                NumberError::NotANumber(_) => false,
            },
        },
{
    let n = s.len();
    let ws = count_spaces(s);
    let after = slice_from(s, ws);
    match scan_number(after) {
        Some(len) => {
            let end = ws + len;
            if end < n && (s[end] == '.' || s[end] == 'e' || s[end] == 'E') {
                assert(s@.skip(ws as int).skip(len as int)[0] == s@[end as int]);
                return Err(NumberError::Incomplete(string_of(s)));
            }
            let token = string_of(slice_range(s, ws, end));
            assert(token@ =~= s@.skip(ws as int).take(len as int));
            assert(s@.skip(end as int) =~= s@.skip(ws as int).skip(len as int));
            Ok((Number { token }, end))
        },
        None => Err(NumberError::NoLeadingNumber(string_of(s))),
    }
}

/// Consumes leading whitespace and a number from `input`, returning the
/// number and the text after it.
pub fn pop_number(input: &str) -> (r: Result<(Number, &str), NumberError>)
    ensures
        match r {
            Ok((n, rest)) => spec_pop_number(input@) == Some((n@, rest@)),
            Err(e) => spec_pop_number(input@) is None && match e {
                NumberError::Incomplete(t) => t@ == input@ && pop_is_incomplete(input@),
                NumberError::NoLeadingNumber(t) => t@ == input@ && !pop_is_incomplete(input@),
                NumberError::NotANumber(_) => false,
            },
        },
{
    let cs = chars_of(input);
    match pop_number_in(cs.as_slice()) {
        Ok((n, end)) => {
            let rest = input.substring_char(end, cs.len());
            assert(rest@ =~= input@.skip(end as int));
            Ok((n, rest))
        },
        Err(e) => Err(e),
    }
}

/// What a successful `pop_number` takes apart: leading spaces, a number
/// token, and the rest of the input, which together are the input.
pub proof fn law_pop_number_splits_input(s: Seq<char>)
    requires
        spec_pop_number(s) is Some,
    ensures
        ({
            let (token, rest) = spec_pop_number(s).unwrap();
            let ws = space_run(s);
            &&& is_number_token(token)
            &&& s =~= s.take(ws) + token + rest
            &&& forall|k: int| 0 <= k < ws ==> is_space_char(#[trigger] s[k])
            &&& !starts_incomplete(rest)
        }),
{
    lemma_space_run_bounds(s);
    let t = s.skip(space_run(s));
    let n = longest_number_prefix(t).unwrap();
    assert(is_longest_number_prefix(t, n));
    assert(s =~= s.take(space_run(s)) + t.take(n) + t.skip(n));
}

/// A number token on its own pops whole: `pop_number` on the exact text of
/// a number gives that number back and leaves nothing after it.
pub proof fn law_token_pops_whole(t: Seq<char>)
    requires
        is_number_token(t),
    ensures
        spec_pop_number(t) == Some((t, Seq::<char>::empty())),
{
    let (a, m) = choose|a: int, m: int| is_token_split(t, a, m);
    let mant = t.subrange(a, m);
    assert(mant.len() > 0);
    if a == 0 {
        assert(mant[0] == t[0]);
        if is_digits(mant) {
            assert(is_digit(mant[0]));
        } else {
            let k = choose|k: int|
                #![trigger mant[k]]
                0 <= k < mant.len() && mant[k] == '.' && all_digits(mant.take(k)) && is_digits(
                    mant.skip(k + 1),
                );
            if k > 0 {
                assert(mant.take(k)[0] == mant[0]);
                assert(is_digit(mant.take(k)[0]));
            }
        }
    }
    assert(!is_space_char(t[0]));
    assert(space_run(t) == 0);
    assert(t.skip(0) =~= t);
    lemma_token_is_whole_longest(t);
    assert(t.skip(t.len() as int) =~= Seq::<char>::empty());
    assert(t.take(t.len() as int) =~= t);
}

/// A character that can occur in a number: a digit, a sign, a dot or an
/// exponent marker.
pub open spec fn is_number_char(c: char) -> bool {
    ('0' <= c && c <= '9') || c == '+' || c == '-' || c == '.' || c == 'e' || c == 'E'
}

/// Every character of a number is a digit, a sign, a dot or an exponent
/// marker.
pub proof fn lemma_token_chars(t: Seq<char>)
    requires
        is_number_token(t),
    ensures
        forall|k: int| 0 <= k < t.len() ==> is_number_char(#[trigger] t[k]),
{
    let (a, m) = choose|a: int, m: int| is_token_split(t, a, m);
    let mant = t.subrange(a, m);
    let ex = t.skip(m);
    assert forall|k: int| 0 <= k < t.len() implies is_number_char(#[trigger] t[k]) by {
        if k < a {
            assert(is_sign(t[0]));
        } else if k < m {
            let j = k - a;
            assert(mant[j] == t[k]);
            if is_digits(mant) {
                assert(is_digit(mant[j]));
            } else {
                let d = choose|d: int|
                    #![trigger mant[d]]
                    0 <= d < mant.len() && mant[d] == '.' && all_digits(mant.take(d)) && is_digits(
                        mant.skip(d + 1),
                    );
                if j < d {
                    assert(mant.take(d)[j] == mant[j]);
                    assert(is_digit(mant.take(d)[j]));
                } else if j > d {
                    assert(mant.skip(d + 1)[j - d - 1] == mant[j]);
                    assert(is_digit(mant.skip(d + 1)[j - d - 1]));
                }
            }
        } else {
            let j = k - m;
            assert(ex[j] == t[k]);
            if j > 0 {
                if ex.len() > 1 && is_exp_marker(ex[0]) && is_sign(ex[1]) && is_digits(ex.skip(2)) {
                    if j > 1 {
                        assert(ex.skip(2)[j - 2] == ex[j]);
                        assert(is_digit(ex.skip(2)[j - 2]));
                    }
                } else {
                    assert(ex.skip(1)[j - 1] == ex[j]);
                    assert(is_digit(ex.skip(1)[j - 1]));
                }
            }
        }
    }
}

/// A number followed by text that cannot continue a number pops as that
/// number, leaving exactly the text after it.
pub proof fn law_number_then_text(t: Seq<char>, w: Seq<char>)
    requires
        is_number_token(t),
        w.len() > 0,
        !is_number_char(w[0]),
    ensures
        longest_number_prefix(t + w) == Some(t.len() as int),
        spec_pop_number(t + w) == Some((t, w)),
{
    let s = t + w;
    lemma_token_chars(t);
    assert(t.len() > 0) by {
        lemma_token_is_whole_longest(t);
    }
    assert(s.take(t.len() as int) =~= t);
    assert forall|m: int| t.len() < m <= s.len() implies !is_number_token(#[trigger] s.take(m)) by {
        if is_number_token(s.take(m)) {
            lemma_token_chars(s.take(m));
            assert(s.take(m)[t.len() as int] == w[0]);
        }
    }
    assert(is_longest_number_prefix(s, t.len() as int));
    lemma_longest_unique(s, t.len() as int);
    assert(s[0] == t[0]);
    assert(is_number_char(t[0]));
    assert(!is_space_char(s[0]));
    assert(space_run(s) == 0);
    assert(s.skip(0) =~= s);
    assert(s.skip(t.len() as int) =~= w);
}

/// Text that does not start with a space or a number character holds no
/// number at its start.
pub proof fn law_no_number_prefix(s: Seq<char>)
    requires
        s.len() > 0,
        !is_number_char(s[0]),
        !is_space_char(s[0]),
    ensures
        longest_number_prefix(s) is None,
        spec_pop_number(s) is None,
{
    assert forall|n: int| !is_longest_number_prefix(s, n) by {
        if is_longest_number_prefix(s, n) {
            lemma_token_chars(s.take(n));
            assert(s.take(n)[0] == s[0]);
        }
    }
    assert(space_run(s) == 0);
    assert(s.skip(0) =~= s);
}

/// `space_run` counts a prefix of spaces.
pub proof fn lemma_space_run_bounds(s: Seq<char>)
    ensures
        0 <= space_run(s) <= s.len(),
        forall|k: int| 0 <= k < space_run(s) ==> is_space_char(#[trigger] s[k]),
        space_run(s) == s.len() || !is_space_char(s[space_run(s)]),
    decreases s.len(),
{
    if s.len() > 0 && is_space_char(s[0]) {
        let d = s.drop_first();
        lemma_space_run_bounds(d);
        assert forall|k: int| 0 <= k < space_run(s) implies is_space_char(#[trigger] s[k]) by {
            if k > 0 {
                assert(s[k] == d[k - 1]);
            }
        }
        if space_run(s) < s.len() {
            assert(s[space_run(s)] == d[space_run(d)]);
        }
    }
}

} // verus!
