//! The SVG `transform` attribute: a list of `name(parameters)` calls.
use vstd::prelude::*;

use crate::number::{longest_number_prefix, number_of, scan_number, Number};
use crate::path_data::{lemma_trim_len, number_texts};
use crate::text::{chars_of, slice_from, slice_range, string_of, trim, trim_chars};

verus! {

#[derive(Debug, PartialEq)]
pub struct Transform {
    pub name: String,
    pub parameters: Vec<Number>,
}

impl View for Transform {
    type V = (Seq<char>, Seq<Seq<char>>);

    open spec fn view(&self) -> (Seq<char>, Seq<Seq<char>>) {
        (self.name@, number_texts(self.parameters@))
    }
}

/// The views of a list of transforms.
pub open spec fn transform_views(v: Seq<Transform>) -> Seq<(Seq<char>, Seq<Seq<char>>)> {
    v.map_values(|t: Transform| t@)
}

#[derive(Debug, PartialEq, Eq)]
pub enum TransformError {
    /// The list holds text that is not a `name(parameters)` call; the
    /// payload is the text from there on.
    IncompleteList(String),
    /// A call's parameters are not all numbers; the payload is the text
    /// between the parentheses.
    IncompleteParameters(String),
}

/// Why a transform list does not parse, and the text reported with it.
pub enum TransformFailure {
    List(Seq<char>),
    Parameters(Seq<char>),
}

impl View for TransformError {
    type V = TransformFailure;

    open spec fn view(&self) -> TransformFailure {
        match self {
            TransformError::IncompleteList(s) => TransformFailure::List(s@),
            TransformError::IncompleteParameters(s) => TransformFailure::Parameters(s@),
        }
    }
}

/// `s` trimmed, without one leading comma, and trimmed again.
pub open spec fn strip_separator(s: Seq<char>) -> Seq<char> {
    let t = trim(s);
    let u = if t.len() > 0 && t[0] == ',' {
        t.drop_first()
    } else {
        t
    };
    trim(u)
}

/// The numbers of a parameter list whose separators have already been
/// stripped from the front: each number is followed by `strip_separator`.
pub open spec fn parameters_from(r: Seq<char>) -> Option<Seq<Seq<char>>>
    decreases r.len(),
{
    if r.len() == 0 {
        Some(seq![])
    } else {
        match longest_number_prefix(r) {
            Some(n) => {
                let r2 = strip_separator(r.skip(n));
                if r2.len() < r.len() {
                    match parameters_from(r2) {
                        Some(ps) => Some(seq![r.take(n)] + ps),
                        None => None,
                    }
                } else {
                    None
                }
            },
            None => None,
        }
    }
}

/// The numbers of a comma-or-whitespace separated parameter list.
pub open spec fn spec_transform_parameters(s: Seq<char>) -> Option<Seq<Seq<char>>> {
    parameters_from(strip_separator(s))
}

pub open spec fn is_ascii_alpha(c: char) -> bool {
    ('a' <= c && c <= 'z') || ('A' <= c && c <= 'Z')
}

pub open spec fn is_ascii_alnum(c: char) -> bool {
    is_ascii_alpha(c) || ('0' <= c && c <= '9')
}

/// `s` starts with a call `name(parameters)`: the name is `s[..name_end]`
/// (a letter, then letters and digits), `(` is at `name_end`, and the first
/// `)` after it is at `close`.
pub open spec fn is_call_at(s: Seq<char>, name_end: int, close: int) -> bool {
    &&& 1 <= name_end < close < s.len()
    &&& is_ascii_alpha(s[0])
    &&& forall|k: int| 1 <= k < name_end ==> #[trigger] is_ascii_alnum(s[k])
    &&& s[name_end] == '('
    &&& s[close] == ')'
    &&& forall|k: int| name_end < k < close ==> #[trigger] s[k] != ')'
}

/// Where the call at the start of `s` splits, if `s` starts with one.
pub open spec fn call_split(s: Seq<char>) -> Option<(int, int)> {
    if exists|ne: int, cl: int| is_call_at(s, ne, cl) {
        Some(choose|ne: int, cl: int| is_call_at(s, ne, cl))
    } else {
        None
    }
}

/// The calls (name and parameters) of a transform list whose separators
/// have already been stripped from the front, in the order written.
pub open spec fn calls_from(r: Seq<char>) -> Result<Seq<(Seq<char>, Seq<Seq<char>>)>, TransformFailure>
    decreases r.len(),
{
    if r.len() == 0 {
        Ok(seq![])
    } else {
        match call_split(r) {
            Some((ne, cl)) => {
                let inner = r.subrange(ne + 1, cl);
                match spec_transform_parameters(inner) {
                    Some(ps) => {
                        let r2 = strip_separator(r.skip(cl + 1));
                        if r2.len() < r.len() {
                            match calls_from(r2) {
                                Ok(cs) => Ok(seq![(r.take(ne), ps)] + cs),
                                Err(e) => Err(e),
                            }
                        } else {
                            Err(TransformFailure::List(r))
                        }
                    },
                    None => Err(TransformFailure::Parameters(inner)),
                }
            },
            None => Err(TransformFailure::List(r)),
        }
    }
}

/// The transforms of the list written as `s`, rightmost first: folding them
/// left to right applies the rightmost call to a point first.
pub open spec fn spec_parse_transform_list(s: Seq<char>) -> Result<Seq<(Seq<char>, Seq<Seq<char>>)>, TransformFailure> {
    match calls_from(strip_separator(s)) {
        Ok(cs) => Ok(cs.reverse()),
        Err(e) => Err(e),
    }
}

proof fn lemma_strip_separator_len(s: Seq<char>)
    ensures
        strip_separator(s).len() <= s.len(),
{
    lemma_trim_len(s);
    let t = trim(s);
    let u = if t.len() > 0 && t[0] == ',' {
        t.drop_first()
    } else {
        t
    };
    lemma_trim_len(u);
}

/// `s` trimmed, without one leading comma, and trimmed again.
pub fn remove_whitespace_leading_comma(s: &[char]) -> (r: &[char])
    ensures
        r@ == strip_separator(s@),
{
    let t = trim_chars(s);
    let u = if t.len() > 0 && t[0] == ',' {
        slice_from(t, 1)
    } else {
        t
    };
    assert(t@.len() > 0 && t@[0] == ',' ==> u@ =~= t@.drop_first());
    trim_chars(u)
}

/// Parses the numbers of a call's parameter list.
fn parse_transform_parameters(input: &[char]) -> (r: Result<Vec<Number>, TransformError>)
    ensures
        match r {
            Ok(ps) => spec_transform_parameters(input@) == Some(number_texts(ps@)),
            Err(e) => spec_transform_parameters(input@) is None && e@ == TransformFailure::Parameters(
                input@,
            ),
        },
{
    let mut remaining = remove_whitespace_leading_comma(input);
    let mut result: Vec<Number> = Vec::new();
    while remaining.len() > 0
        invariant
            spec_transform_parameters(input@) == match parameters_from(remaining@) {
                Some(ps) => Some(number_texts(result@) + ps),
                None => None::<Seq<Seq<char>>>,
            },
        decreases remaining@.len(),
    {
        match scan_number(remaining) {
            Some(len) => {
                let next = remove_whitespace_leading_comma(slice_from(remaining, len));
                proof {
                    lemma_strip_separator_len(remaining@.skip(len as int));
                }
                assert(remaining@.subrange(0, len as int) =~= remaining@.take(len as int));
                let n = number_of(slice_range(remaining, 0, len));
                proof {
                    assert(number_texts(result@.push(n)) =~= number_texts(result@) + seq![n@]);
                    match parameters_from(next@) {
                        Some(ps) => {
                            assert(number_texts(result@) + (seq![n@] + ps) =~= number_texts(
                                result@.push(n),
                            ) + ps);
                        },
                        None => {},
                    }
                }
                result.push(n);
                remaining = next;
            },
            None => {
                return Err(TransformError::IncompleteParameters(string_of(input)));
            },
        }
    }
    assert(number_texts(result@) + seq![] =~= number_texts(result@));
    Ok(result)
}

/// What a transform does to a point, with the parameters it uses.
#[derive(Debug, PartialEq)]
pub enum TransformOp<N> {
    /// The point is left as it is (unknown name, or too few parameters).
    Identity,
    /// `(a*x + c*y + e, b*x + d*y + f)`.
    Matrix { a: N, b: N, c: N, d: N, e: N, f: N },
    /// `(x + dx, y + dy)`; a missing `dy` is zero.
    Translate { dx: N, dy: Option<N> },
    /// `(x * sx, y * sy)`; a missing `sy` is `sx`.
    Scale { sx: N, sy: Option<N> },
    /// Rotation by `angle` degrees about `center`; a missing center is the origin.
    Rotate { angle: N, center: Option<(N, N)> },
    /// Skew along x by `angle` degrees.
    SkewX { angle: N },
    /// Skew along y by `angle` degrees.
    SkewY { angle: N },
}

pub open spec fn matrix_name() -> Seq<char> {
    seq!['m', 'a', 't', 'r', 'i', 'x']
}

pub open spec fn translate_name() -> Seq<char> {
    seq!['t', 'r', 'a', 'n', 's', 'l', 'a', 't', 'e']
}

pub open spec fn scale_name() -> Seq<char> {
    seq!['s', 'c', 'a', 'l', 'e']
}

pub open spec fn rotate_name() -> Seq<char> {
    seq!['r', 'o', 't', 'a', 't', 'e']
}

pub open spec fn skew_x_name() -> Seq<char> {
    seq!['s', 'k', 'e', 'w', 'X']
}

pub open spec fn skew_y_name() -> Seq<char> {
    seq!['s', 'k', 'e', 'w', 'Y']
}

/// `op` is the operation of a transform named `name` with parameters `p`.
pub open spec fn op_matches<N>(op: TransformOp<N>, name: Seq<char>, p: Seq<N>) -> bool {
    if name == matrix_name() && p.len() >= 6 {
        op == TransformOp::Matrix { a: p[0], b: p[1], c: p[2], d: p[3], e: p[4], f: p[5] }
    } else if name == translate_name() && p.len() >= 1 {
        op == TransformOp::Translate {
            dx: p[0],
            dy: if p.len() >= 2 {
                Some(p[1])
            } else {
                None
            },
        }
    } else if name == scale_name() && p.len() >= 1 {
        op == TransformOp::Scale {
            sx: p[0],
            sy: if p.len() >= 2 {
                Some(p[1])
            } else {
                None
            },
        }
    } else if name == rotate_name() && p.len() >= 1 {
        op == TransformOp::Rotate {
            angle: p[0],
            center: if p.len() >= 3 {
                Some((p[1], p[2]))
            } else {
                None
            },
        }
    } else if name == skew_x_name() && p.len() >= 1 {
        op == TransformOp::SkewX { angle: p[0] }
    } else if name == skew_y_name() && p.len() >= 1 {
        op == TransformOp::SkewY { angle: p[0] }
    } else {
        op == TransformOp::<N>::Identity
    }
}

/// What each transform does with its parameters, in order: `translate(dx
/// [dy])`, `scale(sx [sy])`, `rotate(angle [cx cy])`, `matrix(a b c d e f)`,
/// `skewX(angle)` and `skewY(angle)`; parameters beyond these are ignored,
/// and too few parameters or an unknown name leave points unchanged.
pub proof fn law_transform_arguments<N>(op: TransformOp<N>, name: Seq<char>, p: Seq<N>)
    requires
        op_matches(op, name, p),
    ensures
        name == seq!['t', 'r', 'a', 'n', 's', 'l', 'a', 't', 'e'] && p.len() >= 2 ==> op == (TransformOp::Translate {
            dx: p[0],
            dy: Some(p[1]),
        }),
        name == seq!['t', 'r', 'a', 'n', 's', 'l', 'a', 't', 'e'] && p.len() == 1 ==> op == (TransformOp::Translate { dx: p[0], dy: None }),
        name == seq!['s', 'c', 'a', 'l', 'e'] && p.len() >= 2 ==> op == (TransformOp::Scale { sx: p[0], sy: Some(p[1]) }),
        name == seq!['s', 'c', 'a', 'l', 'e'] && p.len() == 1 ==> op == (TransformOp::Scale { sx: p[0], sy: None }),
        name == seq!['r', 'o', 't', 'a', 't', 'e'] && p.len() >= 3 ==> op == (TransformOp::Rotate {
            angle: p[0],
            center: Some((p[1], p[2])),
        }),
        name == seq!['r', 'o', 't', 'a', 't', 'e'] && 1 <= p.len() <= 2 ==> op == (TransformOp::Rotate {
            angle: p[0],
            center: None,
        }),
        name == seq!['m', 'a', 't', 'r', 'i', 'x'] && p.len() >= 6 ==> op == (TransformOp::Matrix {
            a: p[0],
            b: p[1],
            c: p[2],
            d: p[3],
            e: p[4],
            f: p[5],
        }),
        name == seq!['m', 'a', 't', 'r', 'i', 'x'] && p.len() < 6 ==> op == (TransformOp::<N>::Identity),
        name == seq!['s', 'k', 'e', 'w', 'X'] && p.len() >= 1 ==> op == (TransformOp::SkewX { angle: p[0] }),
        name == seq!['s', 'k', 'e', 'w', 'Y'] && p.len() >= 1 ==> op == (TransformOp::SkewY { angle: p[0] }),
        p.len() == 0 ==> op == (TransformOp::<N>::Identity),
        name != seq!['t', 'r', 'a', 'n', 's', 'l', 'a', 't', 'e'] && name != seq!['s', 'c', 'a', 'l', 'e'] && name != seq!['r', 'o', 't', 'a', 't', 'e'] && name != seq!['m', 'a', 't', 'r', 'i', 'x'] && name != seq!['s', 'k', 'e', 'w', 'X'] && name != seq!['s', 'k', 'e', 'w', 'Y']
            ==> op == (TransformOp::<N>::Identity),
{
    assert(seq!['m', 'a', 't', 'r', 'i', 'x'] != seq!['t', 'r', 'a', 'n', 's', 'l', 'a', 't', 'e']) by {
        assert(seq!['m', 'a', 't', 'r', 'i', 'x'][0] != seq!['t', 'r', 'a', 'n', 's', 'l', 'a', 't', 'e'][0]);
    }
    assert(seq!['m', 'a', 't', 'r', 'i', 'x'] != seq!['s', 'c', 'a', 'l', 'e']) by {
        assert(seq!['m', 'a', 't', 'r', 'i', 'x'][0] != seq!['s', 'c', 'a', 'l', 'e'][0]);
    }
    assert(seq!['m', 'a', 't', 'r', 'i', 'x'] != seq!['r', 'o', 't', 'a', 't', 'e']) by {
        assert(seq!['m', 'a', 't', 'r', 'i', 'x'][0] != seq!['r', 'o', 't', 'a', 't', 'e'][0]);
    }
    assert(seq!['t', 'r', 'a', 'n', 's', 'l', 'a', 't', 'e'] != seq!['s', 'c', 'a', 'l', 'e']) by {
        assert(seq!['t', 'r', 'a', 'n', 's', 'l', 'a', 't', 'e'][0] != seq!['s', 'c', 'a', 'l', 'e'][0]);
    }
    assert(seq!['t', 'r', 'a', 'n', 's', 'l', 'a', 't', 'e'] != seq!['r', 'o', 't', 'a', 't', 'e']) by {
        assert(seq!['t', 'r', 'a', 'n', 's', 'l', 'a', 't', 'e'][0] != seq!['r', 'o', 't', 'a', 't', 'e'][0]);
    }
    assert(seq!['s', 'c', 'a', 'l', 'e'] != seq!['r', 'o', 't', 'a', 't', 'e']) by {
        assert(seq!['s', 'c', 'a', 'l', 'e'][0] != seq!['r', 'o', 't', 'a', 't', 'e'][0]);
    }
    assert(seq!['s', 'c', 'a', 'l', 'e'] != seq!['s', 'k', 'e', 'w', 'X']) by {
        assert(seq!['s', 'c', 'a', 'l', 'e'][1] != seq!['s', 'k', 'e', 'w', 'X'][1]);
    }
    assert(seq!['s', 'c', 'a', 'l', 'e'] != seq!['s', 'k', 'e', 'w', 'Y']) by {
        assert(seq!['s', 'c', 'a', 'l', 'e'][1] != seq!['s', 'k', 'e', 'w', 'Y'][1]);
    }
    assert(seq!['s', 'k', 'e', 'w', 'X'] != seq!['s', 'k', 'e', 'w', 'Y']) by {
        assert(seq!['s', 'k', 'e', 'w', 'X'][4] != seq!['s', 'k', 'e', 'w', 'Y'][4]);
    }
    assert(seq!['t', 'r', 'a', 'n', 's', 'l', 'a', 't', 'e'] != seq!['s', 'k', 'e', 'w', 'X']) by {
        assert(seq!['t', 'r', 'a', 'n', 's', 'l', 'a', 't', 'e'][0] != seq!['s', 'k', 'e', 'w', 'X'][0]);
    }
    assert(seq!['t', 'r', 'a', 'n', 's', 'l', 'a', 't', 'e'] != seq!['s', 'k', 'e', 'w', 'Y']) by {
        assert(seq!['t', 'r', 'a', 'n', 's', 'l', 'a', 't', 'e'][0] != seq!['s', 'k', 'e', 'w', 'Y'][0]);
    }
    assert(seq!['r', 'o', 't', 'a', 't', 'e'] != seq!['s', 'k', 'e', 'w', 'X']) by {
        assert(seq!['r', 'o', 't', 'a', 't', 'e'][0] != seq!['s', 'k', 'e', 'w', 'X'][0]);
    }
    assert(seq!['r', 'o', 't', 'a', 't', 'e'] != seq!['s', 'k', 'e', 'w', 'Y']) by {
        assert(seq!['r', 'o', 't', 'a', 't', 'e'][0] != seq!['s', 'k', 'e', 'w', 'Y'][0]);
    }
    assert(seq!['m', 'a', 't', 'r', 'i', 'x'] != seq!['s', 'k', 'e', 'w', 'X']) by {
        assert(seq!['m', 'a', 't', 'r', 'i', 'x'][0] != seq!['s', 'k', 'e', 'w', 'X'][0]);
    }
    assert(seq!['m', 'a', 't', 'r', 'i', 'x'] != seq!['s', 'k', 'e', 'w', 'Y']) by {
        assert(seq!['m', 'a', 't', 'r', 'i', 'x'][0] != seq!['s', 'k', 'e', 'w', 'Y'][0]);
    }
}

fn same_chars(a: &[char], b: &[char]) -> (r: bool)
    ensures
        r == (a@ == b@),
{
    if a.len() != b.len() {
        return false;
    }
    let mut i: usize = 0;
    while i < a.len()
        invariant
            a@.len() == b@.len(),
            i <= a@.len(),
            forall|k: int| 0 <= k < i ==> a@[k] == b@[k],
        decreases a@.len() - i,
    {
        if a[i] != b[i] {
            return false;
        }
        i += 1;
    }
    assert(a@ =~= b@);
    true
}

/// Copies of a list of numbers.
pub fn duplicate_numbers(v: &Vec<Number>) -> (r: Vec<Number>)
    ensures
        number_texts(r@) == number_texts(v@),
{
    let mut r: Vec<Number> = Vec::new();
    let mut i: usize = 0;
    while i < v.len()
        invariant
            i <= v@.len(),
            r@.len() == i,
            forall|k: int| 0 <= k < i ==> (#[trigger] r@[k])@ == v@[k]@,
        decreases v@.len() - i,
    {
        r.push(v[i].duplicate());
        i += 1;
    }
    assert(number_texts(r@) =~= number_texts(v@));
    r
}

/// Copies of a list of transforms.
pub fn duplicate_transforms(v: &Vec<Transform>) -> (r: Vec<Transform>)
    ensures
        transform_views(r@) == transform_views(v@),
{
    let mut r: Vec<Transform> = Vec::new();
    let mut i: usize = 0;
    while i < v.len()
        invariant
            i <= v@.len(),
            r@.len() == i,
            forall|k: int| 0 <= k < i ==> (#[trigger] r@[k])@ == v@[k]@,
        decreases v@.len() - i,
    {
        r.push(v[i].duplicate());
        i += 1;
    }
    assert(transform_views(r@) =~= transform_views(v@));
    r
}

impl Transform {
    /// A second transform with the same name and parameters.
    pub fn duplicate(&self) -> (r: Transform)
        ensures
            r@ == self@,
    {
        Transform { name: self.name.clone(), parameters: duplicate_numbers(&self.parameters) }
    }
}

/// Which operation a transform named `name` with the given parameters
/// performs, and with which parameters; names it does not know, and known
/// names with too few parameters, leave points unchanged.
pub fn transform_operation<N: Copy>(name: &str, parameters: &[N]) -> (op: TransformOp<N>)
    ensures
        op_matches(op, name@, parameters@),
{
    let name = chars_of(name);
    let name = name.as_slice();
    let p = parameters;
    let n = p.len();
    let matrix = vec!['m', 'a', 't', 'r', 'i', 'x'];
    let translate = vec!['t', 'r', 'a', 'n', 's', 'l', 'a', 't', 'e'];
    let scale = vec!['s', 'c', 'a', 'l', 'e'];
    let rotate = vec!['r', 'o', 't', 'a', 't', 'e'];
    let skew_x = vec!['s', 'k', 'e', 'w', 'X'];
    let skew_y = vec!['s', 'k', 'e', 'w', 'Y'];
    assert(matrix@ =~= matrix_name());
    assert(translate@ =~= translate_name());
    assert(scale@ =~= scale_name());
    assert(rotate@ =~= rotate_name());
    assert(skew_x@ =~= skew_x_name());
    assert(skew_y@ =~= skew_y_name());
    if same_chars(name, matrix.as_slice()) && n >= 6 {
        TransformOp::Matrix { a: p[0], b: p[1], c: p[2], d: p[3], e: p[4], f: p[5] }
    } else if same_chars(name, translate.as_slice()) && n >= 1 {
        let dy = if n >= 2 {
            Some(p[1])
        } else {
            None
        };
        TransformOp::Translate { dx: p[0], dy }
    } else if same_chars(name, scale.as_slice()) && n >= 1 {
        let sy = if n >= 2 {
            Some(p[1])
        } else {
            None
        };
        TransformOp::Scale { sx: p[0], sy }
    } else if same_chars(name, rotate.as_slice()) && n >= 1 {
        let center = if n >= 3 {
            Some((p[1], p[2]))
        } else {
            None
        };
        TransformOp::Rotate { angle: p[0], center }
    } else if same_chars(name, skew_x.as_slice()) && n >= 1 {
        TransformOp::SkewX { angle: p[0] }
    } else if same_chars(name, skew_y.as_slice()) && n >= 1 {
        TransformOp::SkewY { angle: p[0] }
    } else {
        TransformOp::Identity
    }
}

fn is_ascii_alpha_char(c: char) -> (r: bool)
    ensures
        r == is_ascii_alpha(c),
{
    ('a' <= c && c <= 'z') || ('A' <= c && c <= 'Z')
}

fn is_ascii_alnum_char(c: char) -> (r: bool)
    ensures
        r == is_ascii_alnum(c),
{
    ('a' <= c && c <= 'z') || ('A' <= c && c <= 'Z') || ('0' <= c && c <= '9')
}

proof fn lemma_call_unique(s: Seq<char>, ne: int, cl: int)
    requires
        is_call_at(s, ne, cl),
    ensures
        call_split(s) == Some((ne, cl)),
{
    let (ne2, cl2) = choose|ne2: int, cl2: int| is_call_at(s, ne2, cl2);
    assert(is_call_at(s, ne2, cl2));
    if ne2 < ne {
        assert(is_ascii_alnum(s[ne2]));
    }
    if ne < ne2 {
        assert(is_ascii_alnum(s[ne]));
    }
    assert(ne == ne2);
    if cl2 < cl {
        assert(s[cl2] != ')');
    }
    if cl < cl2 {
        assert(s[cl] != ')');
    }
}

/// Finds a call `name(parameters)` at the start of `s` (no nested
/// parentheses): the end of the name and the position of the `)`.
pub fn find_transform_call(s: &[char]) -> (r: Option<(usize, usize)>)
    ensures
        match r {
            Some((ne, cl)) => call_split(s@) == Some((ne as int, cl as int)),
            None => call_split(s@) is None,
        },
{
    let n = s.len();
    if n == 0 || !is_ascii_alpha_char(s[0]) {
        return None;
    }
    let mut i: usize = 1;
    while i < n && is_ascii_alnum_char(s[i])
        invariant
            1 <= i <= n,
            n == s@.len(),
            forall|k: int| 1 <= k < i ==> #[trigger] is_ascii_alnum(s@[k]),
        decreases n - i,
    {
        i += 1;
    }
    if i >= n || s[i] != '(' {
        proof {
            assert forall|ne: int, cl: int| !is_call_at(s@, ne, cl) by {
                if is_call_at(s@, ne, cl) {
                    if ne < i {
                        assert(s@[ne] == '(');
                        assert(is_ascii_alnum(s@[ne]));
                    } else if ne > i {
                        assert(is_ascii_alnum(s@[i as int]));
                    }
                }
            }
        }
        return None;
    }
    let name_end = i;
    let mut j: usize = i + 1;
    while j < n && s[j] != ')'
        invariant
            name_end < j <= n,
            n == s@.len(),
            forall|k: int| name_end < k < j ==> #[trigger] s@[k] != ')',
        decreases n - j,
    {
        j += 1;
    }
    if j >= n {
        proof {
            assert forall|ne: int, cl: int| !is_call_at(s@, ne, cl) by {
                if is_call_at(s@, ne, cl) {
                    if ne < name_end {
                        assert(s@[ne] == '(');
                        assert(is_ascii_alnum(s@[ne]));
                    } else if ne > name_end {
                        assert(is_ascii_alnum(s@[name_end as int]));
                    }
                    assert(s@[cl] != ')');
                }
            }
        }
        return None;
    }
    proof {
        assert(is_call_at(s@, name_end as int, j as int));
        lemma_call_unique(s@, name_end as int, j as int);
    }
    Some((name_end, j))
}

/// Parses an SVG `transform` attribute value into its transforms, ordered
/// so that folding them left to right applies the rightmost call first.
pub fn parse_transform_list(input: &str) -> (r: Result<Vec<Transform>, TransformError>)
    ensures
        match r {
            Ok(ts) => spec_parse_transform_list(input@) == Ok::<
                Seq<(Seq<char>, Seq<Seq<char>>)>,
                TransformFailure,
            >(transform_views(ts@)),
            Err(e) => spec_parse_transform_list(input@) == Err::<
                Seq<(Seq<char>, Seq<Seq<char>>)>,
                TransformFailure,
            >(e@),
        },
{
    let cs = chars_of(input);
    let mut result: Vec<Transform> = Vec::new();
    let mut remaining = remove_whitespace_leading_comma(cs.as_slice());
    while remaining.len() > 0
        invariant
            calls_from(strip_separator(input@)) == match calls_from(remaining@) {
                Ok(cs) => Ok(transform_views(result@) + cs),
                Err(e) => Err(e),
            },
        decreases remaining@.len(),
    {
        match find_transform_call(remaining) {
            Some((name_end, close)) => {
                let parameters = parse_transform_parameters(
                    slice_range(remaining, name_end + 1, close),
                )?;
                let next = remove_whitespace_leading_comma(slice_from(remaining, close + 1));
                proof {
                    lemma_strip_separator_len(remaining@.skip(close + 1));
                }
                let t = Transform {
                    name: string_of(slice_range(remaining, 0, name_end)),
                    parameters,
                };
                proof {
                    assert(remaining@.subrange(0, name_end as int) =~= remaining@.take(
                        name_end as int,
                    ));
                    assert(transform_views(result@.push(t)) =~= transform_views(result@) + seq![
                        t@,
                    ]);
                    match calls_from(next@) {
                        Ok(cs) => {
                            assert(transform_views(result@) + (seq![t@] + cs) =~= transform_views(
                                result@.push(t),
                            ) + cs);
                        },
                        Err(_) => {},
                    }
                }
                result.push(t);
                remaining = next;
            },
            None => {
                return Err(TransformError::IncompleteList(string_of(remaining)));
            },
        }
    }
    assert(transform_views(result@) + seq![] =~= transform_views(result@));
    let mut reversed: Vec<Transform> = Vec::new();
    let ghost forward = transform_views(result@);
    while result.len() > 0
        invariant
            transform_views(result@) + transform_views(reversed@).reverse() =~= forward,
        decreases result@.len(),
    {
        let t = result.pop().unwrap();
        proof {
            assert(transform_views(reversed@.push(t)).reverse() =~= seq![t@] + transform_views(
                reversed@,
            ).reverse());
        }
        reversed.push(t);
    }
    assert(transform_views(reversed@) =~= forward.reverse());
    Ok(reversed)
}

} // verus!
