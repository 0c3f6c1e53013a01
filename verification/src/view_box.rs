//! The SVG `viewBox` attribute: four numbers, each pair separated by an
//! optional comma and required whitespace.
use vstd::prelude::*;

use crate::number::{
    count_spaces, is_space_char, lemma_space_run_bounds, longest_number_prefix, scan_number, space_run,
    Number, number_of,
};
use crate::text::{chars_of, slice_from, slice_range, string_of};

verus! {

#[derive(Debug, PartialEq, Eq)]
pub struct ViewBox {
    pub min_x: Number,
    pub min_y: Number,
    pub width: Number,
    pub height: Number,
}

/// The text at which parsing a view box stopped.
#[derive(Debug, PartialEq, Eq)]
pub struct ViewBoxError(pub String);

/// The length of a separator at the start of `s`: an optional comma and at
/// least one space.
pub open spec fn separator_len(s: Seq<char>) -> Option<int> {
    let c: int = if s.len() > 0 && s[0] == ',' { 1 } else { 0 };
    let w = space_run(s.skip(c));
    if w > 0 {
        Some(c + w)
    } else {
        None
    }
}

/// A number at the start of `s` followed by a separator: the number's
/// token and the text after the separator, or the text that failed.
pub open spec fn number_then_separator(s: Seq<char>) -> Result<(Seq<char>, Seq<char>), Seq<char>> {
    match longest_number_prefix(s) {
        Some(n) => match separator_len(s.skip(n)) {
            Some(k) => Ok((s.take(n), s.skip(n + k))),
            None => Err(s.skip(n)),
        },
        None => Err(s),
    }
}

/// The four number tokens of the view box written as `s`, or the text
/// reported in the error.
pub open spec fn spec_parse_view_box(s: Seq<char>) -> Result<Seq<Seq<char>>, Seq<char>> {
    match number_then_separator(s) {
        Err(e) => Err(e),
        Ok((x, r1)) => match number_then_separator(r1) {
            Err(e) => Err(e),
            Ok((y, r2)) => match number_then_separator(r2) {
                Err(e) => Err(e),
                Ok((w, r3)) => match longest_number_prefix(r3) {
                    None => Err(r3),
                    Some(n) => if n == r3.len() {
                        Ok(seq![x, y, w, r3])
                    } else {
                        Err(s)
                    },
                },
            },
        },
    }
}

/// A separator is an optional comma followed by the whole run of spaces
/// after it: on success, everything after the comma up to the separator's
/// end is a space and the text after it does not start with one; without
/// a space after the optional comma there is no separator.
pub proof fn law_separator_takes_all_spaces(s: Seq<char>)
    ensures
        match separator_len(s) {
            Some(k) => {
                let c: int = if s.len() > 0 && s[0] == ',' { 1 } else { 0 };
                &&& c < k <= s.len()
                &&& forall|j: int| c <= j < k ==> is_space_char(#[trigger] s[j])
                &&& (k == s.len() || !is_space_char(s[k]))
            },
            None => if s.len() > 0 && s[0] == ',' {
                s.len() == 1 || !is_space_char(s[1])
            } else {
                s.len() == 0 || !is_space_char(s[0])
            },
        },
{
    let c: int = if s.len() > 0 && s[0] == ',' { 1 } else { 0 };
    let r = s.skip(c);
    lemma_space_run_bounds(r);
    let w = space_run(r);
    assert forall|j: int| c <= j < c + w implies is_space_char(#[trigger] s[j]) by {
        assert(r[j - c] == s[j]);
    }
    if c + w < s.len() {
        assert(r[w] == s[c + w]);
    }
}

/// A number at the start of `s`, and the position after it.
pub fn take_number(s: &[char]) -> (r: Result<(Number, usize), ViewBoxError>)
    ensures
        match r {
            Ok((n, end)) => longest_number_prefix(s@) == Some(end as int) && n@ == s@.take(
                end as int,
            ) && 0 < end <= s@.len(),
            Err(e) => longest_number_prefix(s@) is None && e.0@ == s@,
        },
{
    match scan_number(s) {
        Some(len) => Ok((number_of(slice_range(s, 0, len)), len)),
        None => Err(ViewBoxError(string_of(s))),
    }
}

/// The length of the separator at the start of `s`.
pub fn take_separator(s: &[char]) -> (r: Result<usize, ViewBoxError>)
    ensures
        match r {
            Ok(k) => separator_len(s@) == Some(k as int) && 0 < k <= s@.len(),
            Err(e) => separator_len(s@) is None && e.0@ == s@,
        },
{
    let c: usize = if s.len() > 0 && s[0] == ',' {
        1
    } else {
        0
    };
    let w = count_spaces(slice_from(s, c));
    if w == 0 {
        return Err(ViewBoxError(string_of(s)));
    }
    Ok(c + w)
}

fn take_number_and_separator(s: &[char]) -> (r: Result<(Number, usize), ViewBoxError>)
    ensures
        match r {
            Ok((n, end)) => end <= s@.len() && number_then_separator(s@) == Ok::<
                (Seq<char>, Seq<char>),
                Seq<char>,
            >((n@, s@.skip(end as int))),
            Err(e) => number_then_separator(s@) == Err::<(Seq<char>, Seq<char>), Seq<char>>(
                e.0@,
            ),
        },
{
    let (n, len) = match take_number(s) {
        Ok(p) => p,
        Err(e) => return Err(e),
    };
    let rest = slice_from(s, len);
    let k = match take_separator(rest) {
        Ok(k) => k,
        Err(e) => return Err(e),
    };
    let total = s.len();
    assert(len + k <= total);
    assert(s@.skip(len + k) =~= rest@.skip(k as int));
    Ok((n, len + k))
}

/// Parses a `viewBox` attribute value.
pub fn parse_view_box(input: &str) -> (r: Result<ViewBox, ViewBoxError>)
    ensures
        match r {
            Ok(vb) => spec_parse_view_box(input@) == Ok::<Seq<Seq<char>>, Seq<char>>(
                seq![vb.min_x@, vb.min_y@, vb.width@, vb.height@],
            ),
            Err(e) => spec_parse_view_box(input@) == Err::<Seq<Seq<char>>, Seq<char>>(e.0@),
        },
{
    let cs = chars_of(input);
    let s0 = cs.as_slice();
    let (min_x, e1) = take_number_and_separator(s0)?;
    let s1 = slice_from(s0, e1);
    let (min_y, e2) = take_number_and_separator(s1)?;
    let s2 = slice_from(s1, e2);
    let (width, e3) = take_number_and_separator(s2)?;
    let s3 = slice_from(s2, e3);
    let (height, e4) = take_number(s3)?;
    if e4 < s3.len() {
        return Err(ViewBoxError(input.to_owned()));
    }
    assert(s3@.take(e4 as int) =~= s3@);
    Ok(ViewBox { min_x, min_y, width, height })
}

} // verus!
