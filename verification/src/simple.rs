//! The broken simple-assignment stage: a line holding only a left side (no
//! `=` anywhere on it), a line holding `=` (optionally already followed by
//! the right side), and otherwise the right side on the line after, are
//! rewritten by the width policy — unless the left side looks like an
//! object-literal property, which is left untouched.

use vstd::prelude::*;
use crate::classify::{
    is_destructuring_chars, is_object_property_chars, spec_is_destructuring,
    spec_is_object_property,
};
use crate::config::Configuration;
use crate::reflow::{
    build_collapsed, build_wrapped, collapsed_line, combined_len, fits_width, wrapped_lines,
};
use crate::text::{
    append_lines, clone_line, contains_char, has_char, indent_of, lemma_views_push, line_indent,
    scan_ws, subvec, trim, trim_start, trim_vec, views, ws_len,
};

verus! {

/// A broken simple assignment matched at the head of `ls`:
/// the lines consumed and the indent, left side and right side captured.
pub open spec fn match_simple(ls: Seq<Seq<char>>) -> Option<(int, Seq<char>, Seq<char>, Seq<char>)> {
    if ls.len() < 2 {
        Option::None
    } else {
        let l0 = ls[0];
        let left = trim(l0);
        if left.len() == 0 || contains_char(l0, '=') {
            Option::None
        } else {
            let t1 = trim_start(ls[1]);
            if t1.len() == 0 || t1[0] != '=' {
                Option::None
            } else {
                let after = trim(t1.skip(1));
                if after.len() > 0 {
                    Option::Some((2int, line_indent(l0), left, after))
                } else if ls.len() >= 3 && trim(ls[2]).len() > 0 {
                    Option::Some((3int, line_indent(l0), left, trim(ls[2])))
                } else {
                    Option::None
                }
            }
        }
    }
}

/// The replacement for a matched simple assignment, or None when the span
/// is kept as it was: an object-literal-property left side (that is not a
/// destructuring pattern) is never rewritten; a collapsed form that fits
/// the width becomes that one line; otherwise, when wrapping is enabled and
/// the right side is not already parenthesized, the three-line wrapped form.
pub open spec fn spec_reflow_simple(
    indent: Seq<char>,
    left: Seq<char>,
    right: Seq<char>,
    cfg: Configuration,
) -> Option<Seq<Seq<char>>> {
    if spec_is_object_property(left) && !spec_is_destructuring(left) {
        Option::None
    } else if combined_len(indent, left, right) <= cfg.line_width {
        Option::Some(seq![collapsed_line(indent, left, right)])
    } else if cfg.wrap_long_assignments && !(right.len() > 0 && right[0] == '(') {
        Option::Some(wrapped_lines(indent, left, right, cfg.indent_width, Seq::empty()))
    } else {
        Option::None
    }
}

/// Width respect: a matched assignment whose collapsed single-line form
/// fits within the configured line width — and which is not excluded as an
/// object-literal property — is emitted as exactly that one collapsed
/// line, never as a multi-line form.
pub proof fn lemma_width_respect(
    indent: Seq<char>,
    left: Seq<char>,
    right: Seq<char>,
    cfg: Configuration,
)
    requires
        !(spec_is_object_property(left) && !spec_is_destructuring(left)),
        combined_len(indent, left, right) <= cfg.line_width,
    ensures
        spec_reflow_simple(indent, left, right, cfg) == Option::Some(
            seq![collapsed_line(indent, left, right)],
        ),
        (spec_reflow_simple(indent, left, right, cfg)->Some_0).len() == 1,
{
}

/// Object-property safety: a left side shaped like `key: value` (it holds
/// a `:` and no `?`) that is not a destructuring pattern is never rewritten
/// by the simple-assignment stage, whatever the widths.
pub proof fn lemma_object_property_safety(
    indent: Seq<char>,
    left: Seq<char>,
    right: Seq<char>,
    cfg: Configuration,
)
    requires
        spec_is_object_property(left),
        !spec_is_destructuring(left),
    ensures
        spec_reflow_simple(indent, left, right, cfg) is None,
{
}

/// The whole stage: scan the lines from the top; at a match, emit the
/// replacement (or the original span) and continue past it; elsewhere copy
/// the line.
pub open spec fn spec_fix_broken(ls: Seq<Seq<char>>, cfg: Configuration) -> Seq<Seq<char>>
    decreases ls.len(),
{
    if ls.len() == 0 {
        Seq::empty()
    } else {
        match match_simple(ls) {
            Option::None => seq![ls[0]] + spec_fix_broken(ls.drop_first(), cfg),
            Option::Some((k, indent, left, right)) => {
                let rep = match spec_reflow_simple(indent, left, right, cfg) {
                    Option::Some(lines) => lines,
                    Option::None => ls.take(k),
                };
                rep + spec_fix_broken(ls.skip(k), cfg)
            },
        }
    }
}

/// A matched simple assignment, executable.
pub struct SimpleMatch {
    pub consumed: usize,
    pub indent: Vec<char>,
    pub left: Vec<char>,
    pub right: Vec<char>,
}

/// Matches a broken simple assignment starting at line `i`.
pub fn try_match_simple(lines: &Vec<Vec<char>>, i: usize) -> (r: Option<SimpleMatch>)
    requires
        i < lines.len(),
    ensures
        ({
            let m = match_simple(views(lines@).skip(i as int));
            match r {
                Option::None => m is None,
                Option::Some(sm) => m == Option::Some(
                    (sm.consumed as int, sm.indent@, sm.left@, sm.right@),
                ) && (sm.consumed == 2 || sm.consumed == 3) && i + sm.consumed <= lines.len(),
            }
        }),
{
    let ghost ls = views(lines@).skip(i as int);
    proof {
        assert(ls[0] == lines@[i as int]@);
    }
    if lines.len() - i < 2 {
        return Option::None;
    }
    proof {
        assert(ls[1] == lines@[i + 1]@);
    }
    let l0 = &lines[i];
    let left = trim_vec(l0);
    if left.len() == 0 {
        return Option::None;
    }
    if has_char(l0, '=') {
        return Option::None;
    }
    let indent = indent_of(l0);
    let l1 = &lines[i + 1];
    let a1 = scan_ws(l1, 0);
    proof {
        assert(l1@.skip(0) =~= l1@);
        assert(trim_start(l1@) =~= l1@.skip(ws_len(l1@)));
    }
    if a1 == l1.len() {
        return Option::None;
    }
    if l1[a1] != '=' {
        proof {
            assert(trim_start(l1@)[0] == l1@[a1 as int]);
        }
        return Option::None;
    }
    proof {
        assert(trim_start(l1@)[0] == l1@[a1 as int]);
        assert(trim_start(l1@).skip(1) =~= l1@.subrange(a1 + 1, l1@.len() as int));
    }
    let rest1 = subvec(l1, a1 + 1, l1.len());
    let after = trim_vec(&rest1);
    if after.len() > 0 {
        return Option::Some(SimpleMatch { consumed: 2, indent, left, right: after });
    }
    if lines.len() - i >= 3 {
        proof {
            assert(ls[2] == lines@[i + 2]@);
        }
        let r2 = trim_vec(&lines[i + 2]);
        if r2.len() > 0 {
            return Option::Some(SimpleMatch { consumed: 3, indent, left, right: r2 });
        }
    }
    Option::None
}

/// Applies the width policy to one matched simple assignment.
pub fn reflow_simple(
    indent: &Vec<char>,
    left: &Vec<char>,
    right: &Vec<char>,
    cfg: &Configuration,
) -> (r: Option<Vec<Vec<char>>>)
    ensures
        ({
            let m = spec_reflow_simple(indent@, left@, right@, *cfg);
            match r {
                Option::None => m is None,
                Option::Some(v) => m == Option::Some(views(v@)),
            }
        }),
{
    if is_object_property_chars(left) && !is_destructuring_chars(left) {
        return Option::None;
    }
    if fits_width(indent, left, right, cfg) {
        let line = build_collapsed(indent, left, right);
        let mut v: Vec<Vec<char>> = Vec::new();
        proof {
            lemma_views_push(v@, line);
        }
        v.push(line);
        proof {
            assert(views(v@) =~= seq![collapsed_line(indent@, left@, right@)]);
        }
        return Option::Some(v);
    }
    if cfg.wrap_long_assignments && !(right.len() > 0 && right[0] == '(') {
        let empty_tail: Vec<char> = Vec::new();
        proof {
            assert(empty_tail@ =~= Seq::<char>::empty());
        }
        let v = build_wrapped(indent, left, right, cfg.indent_width, &empty_tail);
        return Option::Some(v);
    }
    Option::None
}

/// The broken simple-assignment stage over the whole document.
pub fn fix_broken_lines(lines: &Vec<Vec<char>>, cfg: &Configuration) -> (r: Vec<Vec<char>>)
    ensures
        views(r@) == spec_fix_broken(views(lines@), *cfg),
{
    let ghost big = views(lines@);
    let mut out: Vec<Vec<char>> = Vec::new();
    let mut i: usize = 0;
    proof {
        assert(big.skip(0) =~= big);
        assert(views(out@) + spec_fix_broken(big, *cfg) =~= spec_fix_broken(big, *cfg));
    }
    while i < lines.len()
        invariant
            i <= lines.len(),
            big == views(lines@),
            views(out@) + spec_fix_broken(big.skip(i as int), *cfg) == spec_fix_broken(big, *cfg),
        decreases lines.len() - i,
    {
        let ghost suf = big.skip(i as int);
        match try_match_simple(lines, i) {
            Option::None => {
                let line = clone_line(&lines[i]);
                proof {
                    lemma_views_push(out@, line);
                    assert(suf[0] == big[i as int]);
                    assert(suf.drop_first() =~= big.skip(i + 1));
                    assert(spec_fix_broken(suf, *cfg) == seq![suf[0]] + spec_fix_broken(
                        big.skip(i + 1),
                        *cfg,
                    ));
                    assert(views(out@).push(line@) + spec_fix_broken(big.skip(i + 1), *cfg) =~= views(
                        out@,
                    ) + spec_fix_broken(suf, *cfg));
                }
                out.push(line);
                i = i + 1;
            },
            Option::Some(m) => {
                let k = m.consumed;
                let ghost rep = match spec_reflow_simple(m.indent@, m.left@, m.right@, *cfg) {
                    Option::Some(lines2) => lines2,
                    Option::None => suf.take(k as int),
                };
                proof {
                    assert(spec_fix_broken(suf, *cfg) == rep + spec_fix_broken(
                        suf.skip(k as int),
                        *cfg,
                    ));
                    assert(suf.skip(k as int) =~= big.skip(i + k));
                }
                match reflow_simple(&m.indent, &m.left, &m.right, cfg) {
                    Option::Some(repl) => {
                        proof {
                            assert(views(out@) + views(repl@) + spec_fix_broken(
                                big.skip(i + k),
                                *cfg,
                            ) =~= views(out@) + (views(repl@) + spec_fix_broken(
                                big.skip(i + k),
                                *cfg,
                            )));
                        }
                        append_lines(&mut out, &repl);
                    },
                    Option::None => {
                        let orig = subvec_lines(lines, i, i + k);
                        proof {
                            assert(views(orig@) =~= suf.take(k as int));
                            assert(views(out@) + views(orig@) + spec_fix_broken(
                                big.skip(i + k),
                                *cfg,
                            ) =~= views(out@) + (views(orig@) + spec_fix_broken(
                                big.skip(i + k),
                                *cfg,
                            )));
                        }
                        append_lines(&mut out, &orig);
                    },
                }
                i = i + k;
            },
        }
    }
    proof {
        assert(big.skip(lines@.len() as int) =~= Seq::<Seq<char>>::empty());
        assert(views(out@) + spec_fix_broken(Seq::<Seq<char>>::empty(), *cfg) =~= views(out@));
    }
    out
}

/// Copies the lines `a..b` into a fresh vector.
pub fn subvec_lines(lines: &Vec<Vec<char>>, a: usize, b: usize) -> (r: Vec<Vec<char>>)
    requires
        a <= b <= lines.len(),
    ensures
        views(r@) == views(lines@).subrange(a as int, b as int),
{
    let mut r: Vec<Vec<char>> = Vec::new();
    proof {
        assert(views(r@) =~= views(lines@).subrange(a as int, a as int));
    }
    let mut j = a;
    while j < b
        invariant
            a <= j <= b <= lines.len(),
            views(r@) == views(lines@).subrange(a as int, j as int),
        decreases b - j,
    {
        let c = clone_line(&lines[j]);
        proof {
            lemma_views_push(r@, c);
            assert(views(lines@).subrange(a as int, j + 1) =~= views(lines@).subrange(
                a as int,
                j as int,
            ).push(views(lines@)[j as int]));
        }
        r.push(c);
        j = j + 1;
    }
    r
}

} // verus!
