//! The SVG path `d` attribute: a list of command letters, each carrying
//! every number that follows it up to the next command letter.
use vstd::prelude::*;

use crate::number::{
    law_pop_number_splits_input, pop_number_in, spec_pop_number, Number, is_number_token,
};
use crate::text::{
    chars_of, is_white_space, is_white_space_char, lemma_white_suffix, slice_from, slice_range,
    trim, trim_chars, white_suffix, lemma_white_prefix, white_prefix,
};

verus! {

#[derive(Debug, PartialEq)]
pub struct PathCommand {
    pub command: char,
    pub parameters: Vec<Number>,
}

/// The texts of a list of numbers.
pub open spec fn number_texts(v: Seq<Number>) -> Seq<Seq<char>> {
    v.map_values(|n: Number| n@)
}

impl View for PathCommand {
    type V = (char, Seq<Seq<char>>);

    open spec fn view(&self) -> (char, Seq<Seq<char>>) {
        (self.command, number_texts(self.parameters@))
    }
}

/// The commands of a list of path commands.
pub open spec fn command_views(v: Seq<PathCommand>) -> Seq<(char, Seq<Seq<char>>)> {
    v.map_values(|c: PathCommand| c@)
}

pub open spec fn is_command_letter(c: char) -> bool {
    c == 'M' || c == 'm' || c == 'L' || c == 'l' || c == 'H' || c == 'h' || c == 'V' || c == 'v'
        || c == 'C' || c == 'c' || c == 'S' || c == 's' || c == 'Q' || c == 'q' || c == 'T' || c
        == 't' || c == 'A' || c == 'a' || c == 'Z' || c == 'z'
}

pub open spec fn is_space_or_comma(c: char) -> bool {
    is_white_space(c) || c == ','
}

/// The number of leading white-space and comma characters of `s`.
pub open spec fn space_comma_prefix(s: Seq<char>) -> int
    decreases s.len(),
{
    if s.len() > 0 && is_space_or_comma(s[0]) {
        1 + space_comma_prefix(s.drop_first())
    } else {
        0
    }
}

/// `s` without its leading white space and commas and its trailing white space.
pub open spec fn trim_space_comma(s: Seq<char>) -> Seq<char> {
    let t = s.skip(space_comma_prefix(s));
    t.take(t.len() - white_suffix(t))
}

/// The numbers that follow a command letter in `s`, each preceded by white
/// space and commas, and the text after them.
pub open spec fn spec_pop_parameters(s: Seq<char>) -> (Seq<Seq<char>>, Seq<char>)
    decreases s.len(),
{
    let t = trim_space_comma(s);
    match spec_pop_number(t) {
        Some((token, rest)) => if rest.len() < s.len() {
            let (ps, r) = spec_pop_parameters(rest);
            (seq![token] + ps, r)
        } else {
            (seq![token], rest)
        },
        None => (seq![], t),
    }
}

/// The commands of the path data `s`: characters that are not command
/// letters are skipped.
pub open spec fn spec_parse_path_data(s: Seq<char>) -> Seq<(char, Seq<Seq<char>>)>
    decreases s.len(),
{
    let t = trim(s);
    if t.len() == 0 || t.len() > s.len() {
        seq![]
    } else {
        let c = t[0];
        let r = t.drop_first();
        if is_command_letter(c) {
            let (ps, r2) = spec_pop_parameters(r);
            if r2.len() < s.len() {
                seq![(c, ps)] + spec_parse_path_data(r2)
            } else {
                seq![(c, ps)]
            }
        } else {
            spec_parse_path_data(r)
        }
    }
}

pub proof fn lemma_trim_len(s: Seq<char>)
    ensures
        trim(s).len() <= s.len(),
{
    lemma_white_prefix(s);
    lemma_white_suffix(s.skip(white_prefix(s)));
}

proof fn lemma_space_comma_prefix(s: Seq<char>)
    ensures
        0 <= space_comma_prefix(s) <= s.len(),
        forall|k: int| 0 <= k < space_comma_prefix(s) ==> is_space_or_comma(#[trigger] s[k]),
        space_comma_prefix(s) == s.len() || !is_space_or_comma(s[space_comma_prefix(s)]),
    decreases s.len(),
{
    if s.len() > 0 && is_space_or_comma(s[0]) {
        let d = s.drop_first();
        lemma_space_comma_prefix(d);
        assert forall|k: int| 0 <= k < space_comma_prefix(s) implies is_space_or_comma(
            #[trigger] s[k],
        ) by {
            if k > 0 {
                assert(s[k] == d[k - 1]);
            }
        }
        if space_comma_prefix(s) < s.len() {
            assert(s[space_comma_prefix(s)] == d[space_comma_prefix(d)]);
        }
    }
}

proof fn lemma_space_comma_prefix_at(s: Seq<char>, i: int)
    requires
        0 <= i <= s.len(),
        forall|k: int| 0 <= k < i ==> #[trigger] is_space_or_comma(s[k]),
        i == s.len() || !is_space_or_comma(s[i]),
    ensures
        space_comma_prefix(s) == i,
    decreases i,
{
    if i > 0 {
        let d = s.drop_first();
        assert forall|k: int| 0 <= k < i - 1 implies #[trigger] is_space_or_comma(d[k]) by {
            assert(d[k] == s[k + 1]);
        }
        if i < s.len() {
            assert(d[i - 1] == s[i]);
        }
        lemma_space_comma_prefix_at(d, i - 1);
    }
}

pub proof fn lemma_trim_space_comma_len(s: Seq<char>)
    ensures
        trim_space_comma(s).len() <= s.len(),
{
    lemma_space_comma_prefix(s);
    lemma_white_suffix(s.skip(space_comma_prefix(s)));
}

/// A successful `pop_number` leaves less text than it was given.
pub proof fn lemma_pop_number_shrinks(s: Seq<char>)
    requires
        spec_pop_number(s) is Some,
    ensures
        spec_pop_number(s).unwrap().1.len() < s.len(),
{
    law_pop_number_splits_input(s);
    let (token, rest) = spec_pop_number(s).unwrap();
    assert(token.len() > 0) by {
        let (a, m) = choose|a: int, m: int| crate::number::is_token_split(token, a, m);
        assert(token.subrange(a, m).len() > 0);
    }
}

/// `s` without its leading white space and commas and trailing white space.
pub fn trim_space_and_comma(s: &[char]) -> (r: &[char])
    ensures
        r@ == trim_space_comma(s@),
{
    let mut i: usize = 0;
    while i < s.len() && (is_white_space_char(s[i]) || s[i] == ',')
        invariant
            i <= s@.len(),
            forall|k: int| 0 <= k < i ==> #[trigger] is_space_or_comma(s@[k]),
        decreases s@.len() - i,
    {
        i += 1;
    }
    proof {
        lemma_space_comma_prefix_at(s@, i as int);
    }
    let t = slice_from(s, i);
    let tt = trim_chars(t);
    proof {
        lemma_white_prefix(t@);
        assert(t@.len() == 0 || !is_white_space(t@[0]));
        assert(white_prefix(t@) == 0);
        assert(t@.skip(0) =~= t@);
    }
    tt
}

/// The numbers after a command letter, and the position where they end.
fn pop_svg_path_parameters(s: &[char]) -> (r: (Vec<Number>, &[char]))
    ensures
        (number_texts(r.0@), r.1@) == spec_pop_parameters(s@),
{
    let mut result: Vec<Number> = Vec::new();
    let mut remaining = s;
    loop
        invariant
            ({
                let (ps, r) = spec_pop_parameters(remaining@);
                spec_pop_parameters(s@) == (number_texts(result@) + ps, r)
            }),
        decreases remaining@.len(),
    {
        let t = trim_space_and_comma(remaining);
        proof {
            lemma_trim_space_comma_len(remaining@);
        }
        match pop_number_in(t) {
            Ok((value, end)) => {
                let rest = slice_from(t, end);
                proof {
                    lemma_pop_number_shrinks(t@);
                    let (ps, r) = spec_pop_parameters(rest@);
                    assert(number_texts(result@.push(value)) =~= number_texts(result@) + seq![
                        value@,
                    ]);
                    assert(number_texts(result@) + (seq![value@] + ps) =~= number_texts(
                        result@.push(value),
                    ) + ps);
                }
                result.push(value);
                remaining = rest;
            },
            Err(_) => {
                assert(number_texts(result@) + seq![] =~= number_texts(result@));
                return (result, t);
            },
        }
    }
}

fn is_command_letter_char(c: char) -> (r: bool)
    ensures
        r == is_command_letter(c),
{
    c == 'M' || c == 'm' || c == 'L' || c == 'l' || c == 'H' || c == 'h' || c == 'V' || c == 'v'
        || c == 'C' || c == 'c' || c == 'S' || c == 's' || c == 'Q' || c == 'q' || c == 'T' || c
        == 't' || c == 'A' || c == 'a' || c == 'Z' || c == 'z'
}

/// Tokenizes SVG path data into its commands; characters that are not
/// command letters (where a command letter is expected) are skipped.
pub fn parse_svg_path_data(input: &str) -> (r: Vec<PathCommand>)
    ensures
        command_views(r@) == spec_parse_path_data(input@),
{
    let cs = chars_of(input);
    let mut result: Vec<PathCommand> = Vec::new();
    let mut remaining = cs.as_slice();
    loop
        invariant
            spec_parse_path_data(input@) == command_views(result@) + spec_parse_path_data(
                remaining@,
            ),
        decreases remaining@.len(),
    {
        let t = trim_chars(remaining);
        proof {
            lemma_trim_len(remaining@);
        }
        if t.len() == 0 {
            assert(command_views(result@) + seq![] =~= command_views(result@));
            return result;
        }
        let command = t[0];
        let r = slice_from(t, 1);
        assert(r@ =~= t@.drop_first());
        if is_command_letter_char(command) {
            let (parameters, rest) = pop_svg_path_parameters(r);
            proof {
                lemma_pop_parameters_len(r@);
            }
            let cmd = PathCommand { command, parameters };
            proof {
                assert(command_views(result@.push(cmd)) =~= command_views(result@) + seq![cmd@]);
                assert(command_views(result@) + (seq![cmd@] + spec_parse_path_data(rest@))
                    =~= command_views(result@.push(cmd)) + spec_parse_path_data(rest@));
            }
            result.push(cmd);
            remaining = rest;
        } else {
            remaining = r;
        }
    }
}

proof fn lemma_pop_parameters_len(s: Seq<char>)
    ensures
        spec_pop_parameters(s).1.len() <= s.len(),
    decreases s.len(),
{
    let t = trim_space_comma(s);
    lemma_trim_space_comma_len(s);
    match spec_pop_number(t) {
        Some((token, rest)) => {
            lemma_pop_number_shrinks(t);
            if rest.len() < s.len() {
                lemma_pop_parameters_len(rest);
            }
        },
        None => {},
    }
}

/// How many numbers one segment of command `c` takes (0 for close-path).
pub open spec fn arity(c: char) -> int {
    if c == 'M' || c == 'm' || c == 'L' || c == 'l' || c == 'T' || c == 't' {
        2
    } else if c == 'H' || c == 'h' || c == 'V' || c == 'v' {
        1
    } else if c == 'C' || c == 'c' {
        6
    } else if c == 'S' || c == 's' || c == 'Q' || c == 'q' {
        4
    } else if c == 'A' || c == 'a' {
        7
    } else {
        0
    }
}

/// The command letter of segment `i` of command `c`: the pairs after a
/// move-to are line-tos (absolute after `M`, relative after `m`).
pub open spec fn segment_letter(c: char, i: int) -> char {
    if i > 0 && c == 'M' {
        'L'
    } else if i > 0 && c == 'm' {
        'l'
    } else {
        c
    }
}

/// `segs` are the segments of the command `c` with numbers `ps`: one per
/// full group of `arity(c)` numbers (left over numbers are ignored), or
/// one segment without numbers for close-path.
pub open spec fn is_split_of(c: char, ps: Seq<Seq<char>>, segs: Seq<(char, Seq<Seq<char>>)>) -> bool {
    if arity(c) == 0 {
        segs == seq![(c, Seq::<Seq<char>>::empty())]
    } else {
        let k = arity(c);
        &&& segs.len() == (ps.len() as int) / k
        &&& forall|i: int|
            0 <= i < segs.len() ==> #[trigger] segs[i] == (segment_letter(c, i), ps.subrange(
                k * i,
                k * i + k,
            ))
    }
}

/// Each of the SVG path command letters `M m L l H h V v C c S s Q q T t
/// A a Z z` starts a command: path data that is such a letter followed by
/// text `s` (with no trailing white space) gives first a command with that
/// letter and the numbers at the start of `s`.
pub proof fn law_command_letters_start_commands(c: char, s: Seq<char>)
    requires
        c == 'M' || c == 'm' || c == 'L' || c == 'l' || c == 'H' || c == 'h' || c == 'V' || c
            == 'v' || c == 'C' || c == 'c' || c == 'S' || c == 's' || c == 'Q' || c == 'q' || c
            == 'T' || c == 't' || c == 'A' || c == 'a' || c == 'Z' || c == 'z',
        s.len() == 0 || !is_white_space(s.last()),
    ensures
        spec_parse_path_data(seq![c] + s).len() >= 1,
        spec_parse_path_data(seq![c] + s)[0] == (c, spec_pop_parameters(s).0),
{
    let x = seq![c] + s;
    assert(x[0] == c);
    assert(!is_white_space(c));
    assert(white_prefix(x) == 0);
    assert(x.skip(0) =~= x);
    assert(x.last() == if s.len() == 0 { c } else { s.last() });
    assert(white_suffix(x) == 0);
    assert(x.take(x.len() as int) =~= x);
    assert(trim(x) == x);
    assert(x.drop_first() =~= s);
}

/// Every parameter of a command is a number token.
pub proof fn law_parameters_are_numbers(s: Seq<char>)
    ensures
        forall|k: int|
            0 <= k < spec_pop_parameters(s).0.len() ==> is_number_token(
                #[trigger] spec_pop_parameters(s).0[k],
            ),
    decreases s.len(),
{
    let t = trim_space_comma(s);
    match spec_pop_number(t) {
        Some((token, rest)) => {
            law_pop_number_splits_input(t);
            if rest.len() < s.len() {
                law_parameters_are_numbers(rest);
                let ps = spec_pop_parameters(rest).0;
                assert forall|k: int|
                    0 <= k < spec_pop_parameters(s).0.len() implies is_number_token(
                    #[trigger] spec_pop_parameters(s).0[k],
                ) by {
                    if k > 0 {
                        assert(spec_pop_parameters(s).0[k] == ps[k - 1]);
                    }
                }
            }
        },
        None => {},
    }
}

/// How commands split into segments, by letter: a move-to or line-to takes
/// 2 numbers (the pairs after the first of a move-to are line-tos), a
/// horizontal or vertical line 1, a cubic Bezier 6, a smooth cubic or a
/// quadratic Bezier 4, an elliptic arc 7, and a close-path is one segment
/// without numbers. Numbers left over after the last full segment are
/// dropped.
pub proof fn law_segment_sizes(c: char, ps: Seq<Seq<char>>, segs: Seq<(char, Seq<Seq<char>>)>)
    requires
        is_split_of(c, ps, segs),
    ensures
        (c == 'C' || c == 'c') ==> (segs.len() == ps.len() / 6 && forall|i: int|
            0 <= i < segs.len() ==> #[trigger] segs[i] == (c, ps.subrange(6 * i, 6 * i + 6))),
        (c == 'S' || c == 's' || c == 'Q' || c == 'q') ==> (segs.len() == ps.len() / 4 && forall|
            i: int,
        |
            0 <= i < segs.len() ==> #[trigger] segs[i] == (c, ps.subrange(4 * i, 4 * i + 4))),
        (c == 'A' || c == 'a') ==> (segs.len() == ps.len() / 7 && forall|i: int|
            0 <= i < segs.len() ==> #[trigger] segs[i] == (c, ps.subrange(7 * i, 7 * i + 7))),
        (c == 'H' || c == 'h' || c == 'V' || c == 'v') ==> (segs.len() == ps.len() && forall|
            i: int,
        | 0 <= i < segs.len() ==> #[trigger] segs[i] == (c, seq![ps[i]])),
        (c == 'L' || c == 'l' || c == 'T' || c == 't') ==> (segs.len() == ps.len() / 2 && forall|
            i: int,
        | 0 <= i < segs.len() ==> #[trigger] segs[i] == (c, seq![ps[2 * i], ps[2 * i + 1]])),
        c == 'M' ==> (segs.len() == ps.len() / 2 && forall|i: int|
            0 <= i < segs.len() ==> #[trigger] segs[i] == (if i == 0 {
                'M'
            } else {
                'L'
            }, seq![ps[2 * i], ps[2 * i + 1]])),
        c == 'm' ==> (segs.len() == ps.len() / 2 && forall|i: int|
            0 <= i < segs.len() ==> #[trigger] segs[i] == (if i == 0 {
                'm'
            } else {
                'l'
            }, seq![ps[2 * i], ps[2 * i + 1]])),
        (c == 'Z' || c == 'z') ==> segs == seq![(c, Seq::<Seq<char>>::empty())],
{
    if c == 'H' || c == 'h' || c == 'V' || c == 'v' {
        assert forall|i: int| 0 <= i < segs.len() implies #[trigger] segs[i] == (c, seq![ps[i]]) by {
            assert(ps.subrange(i, i + 1) =~= seq![ps[i]]);
        }
    }
    if c == 'L' || c == 'l' || c == 'T' || c == 't' || c == 'M' || c == 'm' {
        assert forall|i: int| 0 <= i < segs.len() implies #[trigger] segs[i].1 == seq![
            ps[2 * i],
            ps[2 * i + 1],
        ] by {
            assert(2 * i + 2 <= ps.len()) by (nonlinear_arith)
                requires
                    0 <= i < segs.len(),
                    segs.len() == ps.len() as int / 2,
            ;
            assert(ps.subrange(2 * i, 2 * i + 2) =~= seq![ps[2 * i], ps[2 * i + 1]]);
        }
    }
}

fn arity_of(c: char) -> (k: usize)
    requires
        is_command_letter(c),
    ensures
        k == arity(c),
{
    if c == 'M' || c == 'm' || c == 'L' || c == 'l' || c == 'T' || c == 't' {
        2
    } else if c == 'H' || c == 'h' || c == 'V' || c == 'v' {
        1
    } else if c == 'C' || c == 'c' {
        6
    } else if c == 'S' || c == 's' || c == 'Q' || c == 'q' {
        4
    } else if c == 'A' || c == 'a' {
        7
    } else {
        0
    }
}

impl PathCommand {
    /// Splits this command into its segments, each a command with exactly
    /// the numbers one segment takes; e.g. `M 0,0 1,1 2,2` becomes
    /// `M 0,0`, `L 1,1`, `L 2,2`.
    pub fn segments(&self) -> (segs: Vec<PathCommand>)
        requires
            is_command_letter(self.command),
        ensures
            is_split_of(self.command, number_texts(self.parameters@), command_views(segs@)),
    {
        let c = self.command;
        let k = arity_of(c);
        let mut segs: Vec<PathCommand> = Vec::new();
        if k == 0 {
            let none: Vec<Number> = Vec::new();
            assert(number_texts(none@) =~= Seq::<Seq<char>>::empty());
            let seg = PathCommand { command: c, parameters: none };
            segs.push(seg);
            assert(command_views(segs@)[0] == seg@);
            assert(command_views(segs@) =~= seq![(c, Seq::<Seq<char>>::empty())]);
            return segs;
        }
        let ghost ps = number_texts(self.parameters@);
        let n = self.parameters.len();
        let mut start: usize = 0;
        while n - start >= k
            invariant
                1 <= k <= 7,
                k == arity(c),
                n == self.parameters@.len(),
                ps == number_texts(self.parameters@),
                start <= n,
                start == k * segs@.len(),
                forall|i: int|
                    0 <= i < segs@.len() ==> #[trigger] command_views(segs@)[i] == (segment_letter(c, i), ps.subrange(
                        k * i,
                        k * i + k,
                    )),
            decreases n - start,
        {
            let letter = if start > 0 && c == 'M' {
                'L'
            } else if start > 0 && c == 'm' {
                'l'
            } else {
                c
            };
            let mut group: Vec<Number> = Vec::new();
            let mut j: usize = 0;
            while j < k
                invariant
                    k <= n - start,
                    j <= k,
                    start + k <= n,
                    n == self.parameters@.len(),
                    group@.len() == j,
                    forall|m: int| 0 <= m < j ==> (#[trigger] group@[m])@ == self.parameters@[start + m]@,
                decreases k - j,
            {
                group.push(self.parameters[start + j].duplicate());
                j += 1;
            }
            let seg = PathCommand { command: letter, parameters: group };
            proof {
                let i = segs@.len() as int;
                assert(start > 0 <==> i > 0) by (nonlinear_arith)
                    requires start == k * i, k >= 1, i >= 0;
                assert(number_texts(group@) =~= ps.subrange(k * i, k * i + k));
            }
            let ghost old_segs = segs@;
            segs.push(seg);
            proof {
                assert forall|i: int|
                    0 <= i < segs@.len() implies #[trigger] command_views(segs@)[i] == (segment_letter(c, i), ps.subrange(
                        k * i,
                        k * i + k,
                    )) by {
                    if i < old_segs.len() {
                        assert(command_views(segs@)[i] == command_views(old_segs)[i]);
                    }
                }
                assert(start + k == k * (old_segs.len() + 1)) by (nonlinear_arith)
                    requires start == k * old_segs.len();
            }
            start = start + k;
        }
        proof {
            let m = segs@.len() as int;
            assert(m == (n as int) / (k as int)) by (nonlinear_arith)
                requires start == k * m, n - start < k, start <= n, k >= 1;
        }
        segs
    }
}

} // verus!
