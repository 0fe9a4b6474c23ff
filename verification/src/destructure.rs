//! The destructuring-assignment stage: an optional declaration keyword, a
//! brace- or bracket-delimited pattern (one enclosing pair, no nesting),
//! and a `=` with a value — together on one line or broken over up to
//! three — are always rewritten onto one parenthesized line, whatever the
//! width: parenthesized destructuring assignment is required syntax when
//! such an assignment stands as an expression statement.

use vstd::prelude::*;
use crate::text::{
    char_is_ws, clone_line, is_ws, lemma_views_push, push_all, scan_until, scan_ws, subvec, trim,
    trim_vec, until_len, views, ws_len,
};

verus! {

/// The length of an optional declaration keyword plus the whitespace run
/// after it (`const`, `let` or `var`, then at least one blank), at the
/// head of `p`; 0 when none is there.
pub open spec fn decl_ws_len(p: Seq<char>) -> int {
    if p.len() > 5 && p.subrange(0, 5) == seq!['c', 'o', 'n', 's', 't'] && is_ws(p[5]) {
        5 + ws_len(p.skip(5))
    } else if p.len() > 3 && p.subrange(0, 3) == seq!['l', 'e', 't'] && is_ws(p[3]) {
        3 + ws_len(p.skip(3))
    } else if p.len() > 3 && p.subrange(0, 3) == seq!['v', 'a', 'r'] && is_ws(p[3]) {
        3 + ws_len(p.skip(3))
    } else {
        0
    }
}

/// The length of a destructuring pattern starting at position `pp` of the
/// line: `{` or `[`, at least one character that is not the closing
/// delimiter, and the closing delimiter; 0 when no such pattern starts
/// there.
pub open spec fn pattern_len_at(l: Seq<char>, pp: int) -> int {
    if 0 <= pp && pp < l.len() && l[pp] == '{' {
        let k = until_len(l.skip(pp + 1), '}');
        if k >= 1 && pp + 1 + k < l.len() {
            k + 2
        } else {
            0
        }
    } else if 0 <= pp && pp < l.len() && l[pp] == '[' {
        let k = until_len(l.skip(pp + 1), ']');
        if k >= 1 && pp + 1 + k < l.len() {
            k + 2
        } else {
            0
        }
    } else {
        0
    }
}

/// A destructuring assignment matched at the head of `ls`: the lines
/// consumed and the indent, declaration keyword (possibly empty), pattern
/// and trimmed value captured. The `=` and the value may sit on the
/// pattern's line, or each on the line below.
pub open spec fn match_destr(ls: Seq<Seq<char>>) -> Option<
    (int, Seq<char>, Seq<char>, Seq<char>, Seq<char>),
> {
    if ls.len() < 1 {
        Option::None
    } else {
        let l0 = ls[0];
        let ind = ws_len(l0);
        let dl = decl_ws_len(l0.skip(ind));
        let pp = ind + dl;
        let pl = pattern_len_at(l0, pp);
        if pl == 0 {
            Option::None
        } else {
            let indent = l0.take(ind);
            let decl = l0.subrange(ind, pp);
            let pat = l0.subrange(pp, pp + pl);
            let w1 = pp + pl + ws_len(l0.skip(pp + pl));
            if w1 < l0.len() {
                if l0[w1] != '=' {
                    Option::None
                } else {
                    let after = trim(l0.skip(w1 + 1));
                    if after.len() > 0 {
                        Option::Some((1int, indent, decl, pat, after))
                    } else if ls.len() >= 2 && trim(ls[1]).len() > 0 {
                        Option::Some((2int, indent, decl, pat, trim(ls[1])))
                    } else {
                        Option::None
                    }
                }
            } else {
                if ls.len() < 2 {
                    Option::None
                } else {
                    let l1 = ls[1];
                    let a = ws_len(l1);
                    if !(a < l1.len() && l1[a] == '=') {
                        Option::None
                    } else {
                        let after = trim(l1.skip(a + 1));
                        if after.len() > 0 {
                            Option::Some((2int, indent, decl, pat, after))
                        } else if ls.len() >= 3 && trim(ls[2]).len() > 0 {
                            Option::Some((3int, indent, decl, pat, trim(ls[2])))
                        } else {
                            Option::None
                        }
                    }
                }
            }
        }
    }
}

/// The single parenthesized line a matched destructuring assignment
/// becomes, whatever its width.
pub open spec fn destr_replacement(
    indent: Seq<char>,
    decl: Seq<char>,
    pat: Seq<char>,
    value: Seq<char>,
) -> Seq<char> {
    indent + seq!['('] + decl + pat + seq![' ', '=', ' '] + value + seq![')']
}

/// Destructuring legality: whatever the destructuring stage emits is one
/// line enclosed in parentheses — `(` stands right after the indent, with
/// the optional declaration keyword inside, and `)` closes the line.
pub proof fn lemma_destructuring_parenthesized(
    indent: Seq<char>,
    decl: Seq<char>,
    pat: Seq<char>,
    value: Seq<char>,
)
    ensures
        ({
            let r = destr_replacement(indent, decl, pat, value);
            &&& r.len() == indent.len() + decl.len() + pat.len() + value.len() + 5
            &&& r[indent.len() as int] == '('
            &&& r[r.len() - 1] == ')'
        }),
{
    let r = destr_replacement(indent, decl, pat, value);
    assert(r[indent.len() as int] == '(');
    assert(r[r.len() - 1] == ')');
}

/// The whole stage over the document's lines.
pub open spec fn spec_fix_destr(ls: Seq<Seq<char>>) -> Seq<Seq<char>>
    decreases ls.len(),
{
    if ls.len() == 0 {
        Seq::empty()
    } else {
        match match_destr(ls) {
            Option::None => seq![ls[0]] + spec_fix_destr(ls.drop_first()),
            Option::Some((k, indent, decl, pat, value)) => seq![
                destr_replacement(indent, decl, pat, value),
            ] + spec_fix_destr(ls.skip(k)),
        }
    }
}

/// Scans an optional declaration keyword and its trailing blanks.
pub fn decl_scan(l: &Vec<char>, from: usize) -> (r: usize)
    requires
        from <= l.len(),
    ensures
        r == decl_ws_len(l@.skip(from as int)),
        from + r <= l.len(),
{
    let ghost p = l@.skip(from as int);
    if l.len() - from > 5 && l[from] == 'c' && l[from + 1] == 'o' && l[from + 2] == 'n' && l[from
        + 3] == 's' && l[from + 4] == 't' && char_is_ws(l[from + 5]) {
        let e = scan_ws(l, from + 5);
        proof {
            assert(p.subrange(0, 5) =~= seq!['c', 'o', 'n', 's', 't']);
            assert(p[5] == l@[from + 5]);
            assert(p.skip(5) =~= l@.skip(from + 5));
        }
        e - from
    } else if l.len() - from > 3 && l[from] == 'l' && l[from + 1] == 'e' && l[from + 2] == 't'
        && char_is_ws(l[from + 3]) {
        let e = scan_ws(l, from + 3);
        proof {
            assert(p.subrange(0, 3) =~= seq!['l', 'e', 't']);
            assert(p[3] == l@[from + 3]);
            assert(p.skip(3) =~= l@.skip(from + 3));
            if p.len() > 5 && p.subrange(0, 5) == seq!['c', 'o', 'n', 's', 't'] && is_ws(p[5]) {
                assert(p.subrange(0, 5)[0] == 'c');
            }
        }
        e - from
    } else if l.len() - from > 3 && l[from] == 'v' && l[from + 1] == 'a' && l[from + 2] == 'r'
        && char_is_ws(l[from + 3]) {
        let e = scan_ws(l, from + 3);
        proof {
            assert(p.subrange(0, 3) =~= seq!['v', 'a', 'r']);
            assert(p[3] == l@[from + 3]);
            assert(p.skip(3) =~= l@.skip(from + 3));
            if p.len() > 5 && p.subrange(0, 5) == seq!['c', 'o', 'n', 's', 't'] && is_ws(p[5]) {
                assert(p.subrange(0, 5)[0] == 'c');
            }
            if p.len() > 3 && p.subrange(0, 3) == seq!['l', 'e', 't'] && is_ws(p[3]) {
                assert(p.subrange(0, 3)[0] == 'l');
            }
        }
        e - from
    } else {
        proof {
            if p.len() > 5 && p.subrange(0, 5) == seq!['c', 'o', 'n', 's', 't'] && is_ws(p[5]) {
                assert(p.subrange(0, 5)[0] == 'c');
                assert(p.subrange(0, 5)[1] == 'o');
                assert(p.subrange(0, 5)[2] == 'n');
                assert(p.subrange(0, 5)[3] == 's');
                assert(p.subrange(0, 5)[4] == 't');
                assert(p[5] == l@[from + 5]);
                assert(false);
            }
            if p.len() > 3 && p.subrange(0, 3) == seq!['l', 'e', 't'] && is_ws(p[3]) {
                assert(p.subrange(0, 3)[0] == 'l');
                assert(p.subrange(0, 3)[1] == 'e');
                assert(p.subrange(0, 3)[2] == 't');
                assert(p[3] == l@[from + 3]);
                assert(false);
            }
            if p.len() > 3 && p.subrange(0, 3) == seq!['v', 'a', 'r'] && is_ws(p[3]) {
                assert(p.subrange(0, 3)[0] == 'v');
                assert(p.subrange(0, 3)[1] == 'a');
                assert(p.subrange(0, 3)[2] == 'r');
                assert(p[3] == l@[from + 3]);
                assert(false);
            }
        }
        0
    }
}

/// A matched destructuring assignment, executable.
pub struct DestrMatch {
    pub consumed: usize,
    pub indent: Vec<char>,
    pub decl: Vec<char>,
    pub pattern: Vec<char>,
    pub value: Vec<char>,
}

/// Matches a destructuring assignment starting at line `i`.
pub fn try_match_destr(lines: &Vec<Vec<char>>, i: usize) -> (r: Option<DestrMatch>)
    requires
        i < lines.len(),
    ensures
        ({
            let m = match_destr(views(lines@).skip(i as int));
            match r {
                Option::None => m is None,
                Option::Some(dm) => m == Option::Some(
                    (dm.consumed as int, dm.indent@, dm.decl@, dm.pattern@, dm.value@),
                ) && 1 <= dm.consumed <= 3 && i + dm.consumed <= lines.len(),
            }
        }),
{
    let ghost ls = views(lines@).skip(i as int);
    proof {
        assert(ls[0] == lines@[i as int]@);
    }
    let l0 = &lines[i];
    proof {
        assert(l0@.skip(0) =~= l0@);
    }
    let ind = scan_ws(l0, 0);
    let dl = decl_scan(l0, ind);
    let pp = ind + dl;
    if pp >= l0.len() {
        return Option::None;
    }
    let open = l0[pp];
    if open != '{' && open != '[' {
        return Option::None;
    }
    let close: char = if open == '{' {
        '}'
    } else {
        ']'
    };
    let cl = scan_until(l0, pp + 1, close);
    if cl == l0.len() {
        return Option::None;
    }
    if cl == pp + 1 {
        return Option::None;
    }
    let pl = cl + 1 - pp;
    proof {
        assert(pattern_len_at(l0@, pp as int) == pl);
    }
    let indent = subvec(l0, 0, ind);
    let decl = subvec(l0, ind, pp);
    let pattern = subvec(l0, pp, pp + pl);
    proof {
        assert(indent@ =~= l0@.take(ind as int));
    }
    let w1 = scan_ws(l0, pp + pl);
    if w1 < l0.len() {
        if l0[w1] != '=' {
            return Option::None;
        }
        let rest = subvec(l0, w1 + 1, l0.len());
        proof {
            assert(rest@ =~= l0@.skip(w1 + 1));
        }
        let after = trim_vec(&rest);
        if after.len() > 0 {
            return Option::Some(
                DestrMatch { consumed: 1, indent, decl, pattern, value: after },
            );
        }
        if lines.len() - i >= 2 {
            proof {
                assert(ls[1] == lines@[i + 1]@);
            }
            let v = trim_vec(&lines[i + 1]);
            if v.len() > 0 {
                return Option::Some(
                    DestrMatch { consumed: 2, indent, decl, pattern, value: v },
                );
            }
        }
        return Option::None;
    }
    if lines.len() - i < 2 {
        return Option::None;
    }
    proof {
        assert(ls[1] == lines@[i + 1]@);
    }
    let l1 = &lines[i + 1];
    proof {
        assert(l1@.skip(0) =~= l1@);
    }
    let a = scan_ws(l1, 0);
    if a == l1.len() {
        return Option::None;
    }
    if l1[a] != '=' {
        return Option::None;
    }
    let rest = subvec(l1, a + 1, l1.len());
    proof {
        assert(rest@ =~= l1@.skip(a + 1));
    }
    let after = trim_vec(&rest);
    if after.len() > 0 {
        return Option::Some(DestrMatch { consumed: 2, indent, decl, pattern, value: after });
    }
    if lines.len() - i >= 3 {
        proof {
            assert(ls[2] == lines@[i + 2]@);
        }
        let v = trim_vec(&lines[i + 2]);
        if v.len() > 0 {
            return Option::Some(DestrMatch { consumed: 3, indent, decl, pattern, value: v });
        }
    }
    Option::None
}

/// Builds the parenthesized replacement line.
pub fn build_destr(
    indent: &Vec<char>,
    decl: &Vec<char>,
    pattern: &Vec<char>,
    value: &Vec<char>,
) -> (r: Vec<char>)
    ensures
        r@ == destr_replacement(indent@, decl@, pattern@, value@),
{
    let mut line: Vec<char> = Vec::new();
    push_all(&mut line, indent);
    line.push('(');
    push_all(&mut line, decl);
    push_all(&mut line, pattern);
    line.push(' ');
    line.push('=');
    line.push(' ');
    push_all(&mut line, value);
    line.push(')');
    proof {
        assert(line@ =~= destr_replacement(indent@, decl@, pattern@, value@));
    }
    line
}

/// The destructuring stage over the whole document.
pub fn fix_destr_lines(lines: &Vec<Vec<char>>) -> (r: Vec<Vec<char>>)
    ensures
        views(r@) == spec_fix_destr(views(lines@)),
{
    let ghost big = views(lines@);
    let mut out: Vec<Vec<char>> = Vec::new();
    let mut i: usize = 0;
    proof {
        assert(big.skip(0) =~= big);
        assert(views(out@) + spec_fix_destr(big) =~= spec_fix_destr(big));
    }
    while i < lines.len()
        invariant
            i <= lines.len(),
            big == views(lines@),
            views(out@) + spec_fix_destr(big.skip(i as int)) == spec_fix_destr(big),
        decreases lines.len() - i,
    {
        let ghost suf = big.skip(i as int);
        match try_match_destr(lines, i) {
            Option::None => {
                let line = clone_line(&lines[i]);
                proof {
                    lemma_views_push(out@, line);
                    assert(suf[0] == big[i as int]);
                    assert(suf.drop_first() =~= big.skip(i + 1));
                    assert(spec_fix_destr(suf) == seq![suf[0]] + spec_fix_destr(big.skip(i + 1)));
                    assert(views(out@).push(line@) + spec_fix_destr(big.skip(i + 1)) =~= views(out@)
                        + spec_fix_destr(suf));
                }
                out.push(line);
                i = i + 1;
            },
            Option::Some(m) => {
                let k = m.consumed;
                let line = build_destr(&m.indent, &m.decl, &m.pattern, &m.value);
                proof {
                    lemma_views_push(out@, line);
                    assert(spec_fix_destr(suf) == seq![
                        destr_replacement(m.indent@, m.decl@, m.pattern@, m.value@),
                    ] + spec_fix_destr(suf.skip(k as int)));
                    assert(suf.skip(k as int) =~= big.skip(i + k));
                    assert(views(out@).push(line@) + spec_fix_destr(big.skip(i + k)) =~= views(out@)
                        + spec_fix_destr(suf));
                }
                out.push(line);
                i = i + k;
            },
        }
    }
    proof {
        assert(big.skip(lines@.len() as int) =~= Seq::<Seq<char>>::empty());
        assert(views(out@) + spec_fix_destr(Seq::<Seq<char>>::empty()) =~= views(out@));
    }
    out
}

} // verus!
