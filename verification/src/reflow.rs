//! The width-driven layout policy shared by the assignment stages: a
//! matched left/right pair is collapsed onto one line when the collapsed
//! form fits the configured width, wrapped into a parenthesized indented
//! block when wrapping is enabled, and otherwise left as it was.

use vstd::prelude::*;
use crate::config::Configuration;
use crate::text::{push_all, push_spaces, views};

verus! {

/// `n` spaces.
pub open spec fn spec_spaces(n: nat) -> Seq<char> {
    Seq::new(n, |i: int| ' ')
}

/// The collapsed single-line form `indent + left + " = " + right`, the form
/// measured against the configured line width.
pub open spec fn collapsed_line(indent: Seq<char>, left: Seq<char>, right: Seq<char>) -> Seq<char> {
    indent + left + seq![' ', '=', ' '] + right
}

/// The length of the collapsed form (the 3 accounts for `" = "`).
pub open spec fn combined_len(indent: Seq<char>, left: Seq<char>, right: Seq<char>) -> int {
    indent.len() + left.len() + 3 + right.len() as int
}

/// The three-line wrapped form: `indent + left + " = ("`, the right side on
/// its own line indented one step further, and a closing `indent + ")"`,
/// with whatever followed the matched right side (`tail`) kept after it.
pub open spec fn wrapped_lines(
    indent: Seq<char>,
    left: Seq<char>,
    right: Seq<char>,
    indent_width: u32,
    tail: Seq<char>,
) -> Seq<Seq<char>> {
    seq![
        indent + left + seq![' ', '=', ' ', '('],
        spec_spaces((indent.len() + indent_width) as nat) + right,
        indent + seq![')'] + tail,
    ]
}

/// Builds the collapsed line.
pub fn build_collapsed(indent: &Vec<char>, left: &Vec<char>, right: &Vec<char>) -> (r: Vec<char>)
    ensures
        r@ == collapsed_line(indent@, left@, right@),
{
    let mut line: Vec<char> = Vec::new();
    push_all(&mut line, indent);
    push_all(&mut line, left);
    line.push(' ');
    line.push('=');
    line.push(' ');
    push_all(&mut line, right);
    proof {
        assert(line@ =~= collapsed_line(indent@, left@, right@));
    }
    line
}

/// Builds the three wrapped lines.
pub fn build_wrapped(
    indent: &Vec<char>,
    left: &Vec<char>,
    right: &Vec<char>,
    indent_width: u32,
    tail: &Vec<char>,
) -> (r: Vec<Vec<char>>)
    ensures
        views(r@) == wrapped_lines(indent@, left@, right@, indent_width, tail@),
{
    let mut first: Vec<char> = Vec::new();
    push_all(&mut first, indent);
    push_all(&mut first, left);
    first.push(' ');
    first.push('=');
    first.push(' ');
    first.push('(');
    let mut mid: Vec<char> = Vec::new();
    proof {
        assert(mid@ =~= spec_spaces(0));
    }
    let mut k: usize = 0;
    while k < indent.len()
        invariant
            k <= indent.len(),
            mid@ == spec_spaces(k as nat),
        decreases indent.len() - k,
    {
        mid.push(' ');
        proof {
            assert(mid@ =~= spec_spaces((k + 1) as nat));
        }
        k = k + 1;
    }
    push_spaces(&mut mid, indent_width);
    push_all(&mut mid, right);
    let mut last: Vec<char> = Vec::new();
    push_all(&mut last, indent);
    last.push(')');
    push_all(&mut last, tail);
    let mut out: Vec<Vec<char>> = Vec::new();
    proof {
        assert(first@ =~= indent@ + left@ + seq![' ', '=', ' ', '(']);
        assert(mid@ =~= spec_spaces((indent@.len() + indent_width) as nat) + right@);
        assert(last@ =~= indent@ + seq![')'] + tail@);
    }
    out.push(first);
    out.push(mid);
    out.push(last);
    proof {
        assert(views(out@) =~= wrapped_lines(indent@, left@, right@, indent_width, tail@));
    }
    out
}

/// Whether the collapsed form fits within the configured line width.
pub fn fits_width(indent: &Vec<char>, left: &Vec<char>, right: &Vec<char>, cfg: &Configuration) -> (r:
    bool)
    ensures
        r == (combined_len(indent@, left@, right@) <= cfg.line_width),
{
    let total: u128 = indent.len() as u128 + left.len() as u128 + 3u128 + right.len() as u128;
    total <= cfg.line_width as u128
}

} // verus!
