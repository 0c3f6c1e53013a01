//! G-code text that does not depend on coordinates: comments and the
//! switch to absolute positioning.
use vstd::prelude::*;

use crate::text::{chars_of, push_char};

verus! {

/// `s` with each line feed written as the two characters `\` and `n`.
pub open spec fn escape_newlines(s: Seq<char>) -> Seq<char>
    decreases s.len(),
{
    if s.len() == 0 {
        seq![]
    } else {
        escape_newlines(s.drop_last()) + if s.last() == '\n' {
            seq!['\\', 'n']
        } else {
            seq![s.last()]
        }
    }
}

/// The G-code comment line for `input`: `; `, the input with its line feeds
/// escaped, and a line feed.
pub fn comment_line(input: &str) -> (r: String)
    ensures
        r@ == seq![';', ' '] + escape_newlines(input@) + seq!['\n'],
{
    let cs = chars_of(input);
    let mut out = String::new();
    push_char(&mut out, ';');
    push_char(&mut out, ' ');
    let mut i: usize = 0;
    while i < cs.len()
        invariant
            i <= cs@.len(),
            cs@ == input@,
            out@ == seq![';', ' '] + escape_newlines(cs@.take(i as int)),
        decreases cs@.len() - i,
    {
        let c = cs[i];
        proof {
            assert(cs@.take(i + 1).drop_last() =~= cs@.take(i as int));
        }
        if c == '\n' {
            push_char(&mut out, '\\');
            push_char(&mut out, 'n');
        } else {
            push_char(&mut out, c);
        }
        i += 1;
    }
    assert(cs@.take(cs@.len() as int) =~= cs@);
    push_char(&mut out, '\n');
    assert(out@ =~= seq![';', ' '] + escape_newlines(input@) + seq!['\n']);
    out
}

/// The G-code that switches to absolute positioning.
pub open spec fn absolute_mode_line() -> Seq<char> {
    "G90 ; Use absolute positioning.\n"@
}

/// The lines needed before an absolute move, and whether absolute
/// positioning is on afterwards (it always is): nothing when it is already
/// on, else the switch.
pub fn use_absolute_lines(using_absolute: bool) -> (r: (Vec<String>, bool))
    ensures
        r.1,
        using_absolute ==> r.0@.len() == 0,
        !using_absolute ==> r.0@.len() == 1 && r.0@[0]@ == absolute_mode_line(),
{
    if using_absolute {
        return (Vec::new(), true);
    }
    let mut lines: Vec<String> = Vec::new();
    lines.push("G90 ; Use absolute positioning.\n".to_owned());
    (lines, true)
}

} // verus!
