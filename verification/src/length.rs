//! SVG lengths: a number followed by an optional unit.
use vstd::prelude::*;

use crate::number::{
    is_number_token, law_number_then_text, law_token_pops_whole, pop_is_incomplete, pop_number_in, spec_pop_number, Number,
    NumberError,
};
use crate::text::{chars_of, slice_from, trim, trim_chars, white_prefix, white_suffix};

verus! {

/// The units of an SVG length. Text after the number other than one of the
/// named units (including none at all, or `mm`) means millimeters.
#[derive(Debug, Clone, Copy, PartialEq, Eq)]
pub enum LengthUnit {
    Millimeter,
    Centimeter,
    Inch,
    Point,
    Pica,
    Pixel,
}

/// A length as written: its number and its unit.
#[derive(Debug, PartialEq, Eq)]
pub struct Length {
    pub value: Number,
    pub unit: LengthUnit,
}

/// The unit named by the (trimmed) text after a length's number.
pub open spec fn unit_of(t: Seq<char>) -> LengthUnit {
    if t == seq!['c', 'm'] {
        LengthUnit::Centimeter
    } else if t == seq!['i', 'n'] {
        LengthUnit::Inch
    } else if t == seq!['p', 't'] {
        LengthUnit::Point
    } else if t == seq!['p', 'c'] {
        LengthUnit::Pica
    } else if t == seq!['p', 'x'] {
        LengthUnit::Pixel
    } else {
        LengthUnit::Millimeter
    }
}

/// The number token and unit of the length written as `s`, if it is one.
pub open spec fn spec_parse_length(s: Seq<char>) -> Option<(Seq<char>, LengthUnit)> {
    match spec_pop_number(s) {
        Some((token, rest)) => Some((token, unit_of(trim(rest)))),
        None => None,
    }
}

fn unit_of_chars(t: &[char]) -> (u: LengthUnit)
    ensures
        u == unit_of(t@),
{
    if t.len() == 2 {
        let (a, b) = (t[0], t[1]);
        if a == 'c' && b == 'm' {
            assert(t@ =~= seq!['c', 'm']);
            return LengthUnit::Centimeter;
        } else if a == 'i' && b == 'n' {
            assert(t@ =~= seq!['i', 'n']);
            return LengthUnit::Inch;
        } else if a == 'p' && b == 't' {
            assert(t@ =~= seq!['p', 't']);
            return LengthUnit::Point;
        } else if a == 'p' && b == 'c' {
            assert(t@ =~= seq!['p', 'c']);
            return LengthUnit::Pica;
        } else if a == 'p' && b == 'x' {
            assert(t@ =~= seq!['p', 'x']);
            return LengthUnit::Pixel;
        }
        assert(t@ != seq!['c', 'm'] && t@ != seq!['i', 'n'] && t@ != seq!['p', 't']) by {
            if t@ == seq!['c', 'm'] {
                assert(t@[0] == 'c');
            }
            if t@ == seq!['i', 'n'] {
                assert(t@[0] == 'i');
            }
            if t@ == seq!['p', 't'] {
                assert(t@[0] == 'p' && t@[1] == 't');
            }
        }
        assert(t@ != seq!['p', 'c'] && t@ != seq!['p', 'x']) by {
            if t@ == seq!['p', 'c'] {
                assert(t@[0] == 'p' && t@[1] == 'c');
            }
            if t@ == seq!['p', 'x'] {
                assert(t@[0] == 'p' && t@[1] == 'x');
            }
        }
    }
    LengthUnit::Millimeter
}

/// Parses the length written as `s`.
pub fn parse_length_in(s: &[char]) -> (r: Result<Length, NumberError>)
    ensures
        match r {
            Ok(l) => spec_parse_length(s@) == Some((l.value@, l.unit)),
            Err(e) => spec_parse_length(s@) is None && match e {
                NumberError::Incomplete(t) => t@ == s@ && pop_is_incomplete(s@),
                NumberError::NoLeadingNumber(t) => t@ == s@ && !pop_is_incomplete(s@),
                NumberError::NotANumber(_) => false,
            },
        },
{
    let (value, end) = pop_number_in(s)?;
    let unit = unit_of_chars(trim_chars(slice_from(s, end)));
    Ok(Length { value, unit })
}

/// Parses an SVG length string into its number and unit; unitless values
/// and unknown unit text count as millimeters.
pub fn parse_length_mm(s: &str) -> (r: Result<Length, NumberError>)
    ensures
        match r {
            Ok(l) => spec_parse_length(s@) == Some((l.value@, l.unit)),
            Err(e) => spec_parse_length(s@) is None && match e {
                NumberError::Incomplete(t) => t@ == s@ && pop_is_incomplete(s@),
                NumberError::NoLeadingNumber(t) => t@ == s@ && !pop_is_incomplete(s@),
                NumberError::NotANumber(_) => false,
            },
        },
{
    let cs = chars_of(s);
    parse_length_in(cs.as_slice())
}

/// A bare number is a length in millimeters: the unit defaults when no unit
/// text follows the number.
pub proof fn law_bare_number_is_millimeters(t: Seq<char>)
    requires
        is_number_token(t),
    ensures
        spec_parse_length(t) == Some((t, LengthUnit::Millimeter)),
{
    law_token_pops_whole(t);
    let e = Seq::<char>::empty();
    assert(white_prefix(e) == 0);
    assert(trim(e) =~= e);
    assert(e != seq!['c', 'm']);
    assert(e != seq!['i', 'n']);
    assert(e != seq!['p', 't']);
    assert(e != seq!['p', 'c']);
    assert(e != seq!['p', 'x']);
}

/// A number followed directly by a unit name is a length in that unit:
/// `cm`, `mm`, `in`, `pt`, `pc` and `px`.
pub proof fn law_length_keeps_unit(t: Seq<char>)
    requires
        is_number_token(t),
    ensures
        spec_parse_length(t + seq!['c', 'm']) == Some((t, LengthUnit::Centimeter)),
        spec_parse_length(t + seq!['m', 'm']) == Some((t, LengthUnit::Millimeter)),
        spec_parse_length(t + seq!['i', 'n']) == Some((t, LengthUnit::Inch)),
        spec_parse_length(t + seq!['p', 't']) == Some((t, LengthUnit::Point)),
        spec_parse_length(t + seq!['p', 'c']) == Some((t, LengthUnit::Pica)),
        spec_parse_length(t + seq!['p', 'x']) == Some((t, LengthUnit::Pixel)),
{
    lemma_unit_suffix(t, seq!['c', 'm']);
    lemma_unit_suffix(t, seq!['m', 'm']);
    lemma_unit_suffix(t, seq!['i', 'n']);
    lemma_unit_suffix(t, seq!['p', 't']);
    lemma_unit_suffix(t, seq!['p', 'c']);
    lemma_unit_suffix(t, seq!['p', 'x']);
    assert(seq!['m', 'm'] != seq!['c', 'm']) by {
        assert(seq!['m', 'm'][0] != seq!['c', 'm'][0]);
    }
    assert(seq!['m', 'm'] != seq!['i', 'n']) by {
        assert(seq!['m', 'm'][0] != seq!['i', 'n'][0]);
    }
    assert(seq!['m', 'm'] != seq!['p', 't']) by {
        assert(seq!['m', 'm'][0] != seq!['p', 't'][0]);
    }
    assert(seq!['m', 'm'] != seq!['p', 'c']) by {
        assert(seq!['m', 'm'][0] != seq!['p', 'c'][0]);
    }
    assert(seq!['m', 'm'] != seq!['p', 'x']) by {
        assert(seq!['m', 'm'][0] != seq!['p', 'x'][0]);
    }
    assert(seq!['i', 'n'] != seq!['c', 'm']) by {
        assert(seq!['i', 'n'][0] != seq!['c', 'm'][0]);
    }
    assert(seq!['p', 't'] != seq!['c', 'm']) by {
        assert(seq!['p', 't'][0] != seq!['c', 'm'][0]);
    }
    assert(seq!['p', 't'] != seq!['i', 'n']) by {
        assert(seq!['p', 't'][0] != seq!['i', 'n'][0]);
    }
    assert(seq!['p', 'c'] != seq!['c', 'm']) by {
        assert(seq!['p', 'c'][0] != seq!['c', 'm'][0]);
    }
    assert(seq!['p', 'c'] != seq!['i', 'n']) by {
        assert(seq!['p', 'c'][0] != seq!['i', 'n'][0]);
    }
    assert(seq!['p', 'c'] != seq!['p', 't']) by {
        assert(seq!['p', 'c'][1] != seq!['p', 't'][1]);
    }
    assert(seq!['p', 'x'] != seq!['c', 'm']) by {
        assert(seq!['p', 'x'][0] != seq!['c', 'm'][0]);
    }
    assert(seq!['p', 'x'] != seq!['i', 'n']) by {
        assert(seq!['p', 'x'][0] != seq!['i', 'n'][0]);
    }
    assert(seq!['p', 'x'] != seq!['p', 't']) by {
        assert(seq!['p', 'x'][1] != seq!['p', 't'][1]);
    }
    assert(seq!['p', 'x'] != seq!['p', 'c']) by {
        assert(seq!['p', 'x'][1] != seq!['p', 'c'][1]);
    }
}

/// A two-letter unit name after a number is the length's unit text.
proof fn lemma_unit_suffix(t: Seq<char>, w: Seq<char>)
    requires
        is_number_token(t),
        w.len() == 2,
        'a' <= w[0] <= 'z',
        'a' <= w[1] <= 'z',
        w[0] != 'e',
    ensures
        spec_parse_length(t + w) == Some((t, unit_of(w))),
{
    law_number_then_text(t, w);
    assert(white_prefix(w) == 0);
    assert(w.skip(0) =~= w);
    assert(w.drop_last().last() == w[0]);
    assert(white_suffix(w) == 0);
    assert(w.take(w.len() as int) =~= w);
    assert(trim(w) == w);
}

} // verus!
