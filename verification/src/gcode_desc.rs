//! The CNC settings that an SVG element's `<desc>` carries, and carve
//! depths that are either a fixed length or a named sentinel.
use vstd::prelude::*;

use crate::length::{
    law_bare_number_is_millimeters, law_length_keeps_unit, parse_length_mm, spec_parse_length, Length,
    LengthUnit,
};
use crate::number::{is_number_token, law_no_number_prefix};

verus! {

/// The settings of an element's `<desc>` (its YAML keys are
/// `origin-marker`, `carve-depth` and `safe-height`).
#[derive(Debug, Clone, Default, PartialEq)]
pub struct GCodeDesc {
    pub origin_marker: bool,
    pub carve_depth: Option<String>,
    pub safe_height: Option<String>,
}

/// A carve depth: a fixed length, or a sentinel such as `full` that the
/// caller has to resolve.
#[derive(Debug, PartialEq)]
pub enum CutDepth {
    Fixed(Length),
    Sentinel(String),
}

/// Why a depth sentinel could not be resolved.
#[derive(Debug, PartialEq, Eq)]
pub struct ResolveError(pub String);

/// `d` is the carve depth written as `raw`.
pub open spec fn is_cut_depth_of(d: CutDepth, raw: Seq<char>) -> bool {
    match spec_parse_length(raw) {
        Some((token, unit)) => d matches CutDepth::Fixed(l) && l.value@ == token && l.unit == unit,
        None => d matches CutDepth::Sentinel(s) && s@ == raw,
    }
}

/// `r` is the safe height that `d` gives (see `GCodeDesc::get_safe_height`).
pub open spec fn is_safe_height_of(d: GCodeDesc, r: Option<Length>) -> bool {
    match d.safe_height {
        Some(s) => match spec_parse_length(s@) {
            Some((token, unit)) => r matches Some(l) && l.value@ == token && l.unit == unit,
            None => r is None,
        },
        None => r is None,
    }
}

impl CutDepth {
    /// A fixed depth when `raw` is a length, a sentinel holding `raw` otherwise.
    pub fn parse(raw: &str) -> (d: CutDepth)
        ensures
            is_cut_depth_of(d, raw@),
    {
        match parse_length_mm(raw) {
            Ok(l) => CutDepth::Fixed(l),
            Err(_) => CutDepth::Sentinel(raw.to_owned()),
        }
    }
}

fn copy_text(s: &Option<String>) -> (r: Option<String>)
    ensures
        r == *s,
{
    match s {
        Some(t) => Some(t.clone()),
        None => None,
    }
}

impl GCodeDesc {
    /// A second desc with the same settings.
    pub fn duplicate(&self) -> (r: GCodeDesc)
        ensures
            r == *self,
    {
        GCodeDesc {
            origin_marker: self.origin_marker,
            carve_depth: copy_text(&self.carve_depth),
            safe_height: copy_text(&self.safe_height),
        }
    }

    /// The safe height as a length; `None` when it is missing or is not a
    /// length, in which case the caller's default applies.
    pub fn get_safe_height(&self) -> (r: Option<Length>)
        ensures
            is_safe_height_of(*self, r),
    {
        match &self.safe_height {
            Some(s) => match parse_length_mm(s.as_str()) {
                Ok(l) => Some(l),
                Err(_) => None,
            },
            None => None,
        }
    }

    /// The element's carve depth; `None` when no carve depth is given (the
    /// element is not carved).
    pub fn carve_depth(&self) -> (r: Option<CutDepth>)
        ensures
            match self.carve_depth {
                Some(s) => r matches Some(d) && is_cut_depth_of(d, s@),
                None => r is None,
            },
    {
        match &self.carve_depth {
            Some(s) => Some(CutDepth::parse(s.as_str())),
            None => None,
        }
    }
}

/// A carve depth written as a number and a unit is a fixed depth of that
/// number in that unit, and one written as a bare number is in
/// millimeters; a carve depth that starts with a letter is a sentinel
/// holding exactly its text.
pub proof fn law_carve_depth_keeps_unit(t: Seq<char>, d: CutDepth)
    requires
        is_number_token(t),
    ensures
        is_cut_depth_of(d, t + seq!['c', 'm']) ==> (d matches CutDepth::Fixed(l) && l.value@ == t
            && l.unit == LengthUnit::Centimeter),
        is_cut_depth_of(d, t + seq!['m', 'm']) ==> (d matches CutDepth::Fixed(l) && l.value@ == t
            && l.unit == LengthUnit::Millimeter),
        is_cut_depth_of(d, t + seq!['i', 'n']) ==> (d matches CutDepth::Fixed(l) && l.value@ == t
            && l.unit == LengthUnit::Inch),
        is_cut_depth_of(d, t + seq!['p', 't']) ==> (d matches CutDepth::Fixed(l) && l.value@ == t
            && l.unit == LengthUnit::Point),
        is_cut_depth_of(d, t + seq!['p', 'c']) ==> (d matches CutDepth::Fixed(l) && l.value@ == t
            && l.unit == LengthUnit::Pica),
        is_cut_depth_of(d, t + seq!['p', 'x']) ==> (d matches CutDepth::Fixed(l) && l.value@ == t
            && l.unit == LengthUnit::Pixel),
        is_cut_depth_of(d, t) ==> (d matches CutDepth::Fixed(l) && l.value@ == t && l.unit
            == LengthUnit::Millimeter),
{
    law_length_keeps_unit(t);
    law_bare_number_is_millimeters(t);
}

/// A carve depth that starts with a letter, such as `full`, is a sentinel
/// holding exactly its text.
pub proof fn law_word_depth_is_sentinel(raw: Seq<char>, d: CutDepth)
    requires
        raw.len() > 0,
        ('a' <= raw[0] <= 'z' || 'A' <= raw[0] <= 'Z') && raw[0] != 'e' && raw[0] != 'E',
        is_cut_depth_of(d, raw),
    ensures
        d matches CutDepth::Sentinel(s) && s@ == raw,
{
    law_no_number_prefix(raw);
}

/// A safe height written as a number and a unit is that length.
pub proof fn law_safe_height_keeps_unit(desc: GCodeDesc, r: Option<Length>, t: Seq<char>, u: Seq<char>)
    requires
        is_number_token(t),
        desc.safe_height matches Some(s) && s@ == t + u,
        is_safe_height_of(desc, r),
    ensures
        u == seq!['c', 'm'] ==> (r matches Some(l) && l.value@ == t && l.unit == LengthUnit::Centimeter),
        u == seq!['m', 'm'] ==> (r matches Some(l) && l.value@ == t && l.unit == LengthUnit::Millimeter),
        u == seq!['i', 'n'] ==> (r matches Some(l) && l.value@ == t && l.unit == LengthUnit::Inch),
        u == seq!['p', 't'] ==> (r matches Some(l) && l.value@ == t && l.unit == LengthUnit::Point),
        u == seq!['p', 'c'] ==> (r matches Some(l) && l.value@ == t && l.unit == LengthUnit::Pica),
        u == seq!['p', 'x'] ==> (r matches Some(l) && l.value@ == t && l.unit == LengthUnit::Pixel),
        u.len() == 0 ==> (r matches Some(l) && l.value@ == t && l.unit == LengthUnit::Millimeter),
{
    law_length_keeps_unit(t);
    law_bare_number_is_millimeters(t);
    if u.len() == 0 {
        assert(t + u =~= t);
    }
}

} // verus!
