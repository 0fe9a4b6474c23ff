//! The broken method-chain-assignment stage: a line `indent variable =`
//! whose `=` ends the line, followed by a line whose head is a dotted
//! method chain (`base.ident` segments, each optionally with a call whose
//! arguments run to the first closing parenthesis on the line), is
//! rewritten by the width policy; whatever follows the chain on its line is
//! kept after the replacement.

use vstd::prelude::*;
use crate::config::Configuration;
use crate::reflow::{
    build_collapsed, build_wrapped, collapsed_line, combined_len, fits_width, wrapped_lines,
};
use crate::text::{
    append_lines, char_is_ident_start, clone_line, ident_len, is_ident_start, lemma_ident_len,
    lemma_until_len, lemma_views_push, push_all, scan_ident, scan_until, scan_word, scan_ws,
    subvec, until_len, views, word_len, ws_len,
};

verus! {

/// One `.identifier` or `.identifier(args)` segment starting at position
/// `q` of the chain line, as its length; 0 when no segment starts there.
/// An argument list runs to the first `)` at or after the `(` and is part
/// of the segment only when that `)` exists on the line.
pub open spec fn seg_len(l: Seq<char>, q: int) -> int {
    if 0 <= q && q + 1 < l.len() && l[q] == '.' && is_ident_start(l[q + 1]) {
        let idl = 1 + ident_len(l.skip(q + 2));
        let e = q + 1 + idl;
        if e < l.len() && l[e] == '(' {
            let k = until_len(l.skip(e + 1), ')');
            if e + 1 + k < l.len() {
                1 + idl + k + 2
            } else {
                1 + idl
            }
        } else {
            1 + idl
        }
    } else {
        0
    }
}

pub proof fn lemma_segs_len_nonneg(l: Seq<char>, q: int)
    ensures
        segs_len(l, q) >= 0,
    decreases l.len() - q,
{
    let s = seg_len(l, q);
    if 0 <= q && s > 0 && q + s <= l.len() {
        lemma_segs_len_nonneg(l, q + s);
    }
}

pub proof fn lemma_seg_len(l: Seq<char>, q: int)
    ensures
        seg_len(l, q) >= 0,
        seg_len(l, q) > 0 ==> 2 <= seg_len(l, q) && q + seg_len(l, q) <= l.len(),
{
    if 0 <= q && q + 1 < l.len() && l[q] == '.' && is_ident_start(l[q + 1]) {
        lemma_ident_len(l.skip(q + 2));
        let idl = 1 + ident_len(l.skip(q + 2));
        let e = q + 1 + idl;
        if e < l.len() && l[e] == '(' {
            lemma_until_len(l.skip(e + 1), ')');
        }
    }
}

/// The total length of the maximal run of segments starting at `q`.
pub open spec fn segs_len(l: Seq<char>, q: int) -> int
    decreases l.len() - q,
{
    let s = seg_len(l, q);
    if 0 <= q && s > 0 && q + s <= l.len() {
        s + segs_len(l, q + s)
    } else {
        0
    }
}

/// A broken method-chain assignment matched at the two lines heading `ls`:
/// the indent, the assigned variable, the chain, and the tail of the chain
/// line after the chain.
pub open spec fn match_chain(ls: Seq<Seq<char>>) -> Option<
    (Seq<char>, Seq<char>, Seq<char>, Seq<char>),
> {
    if ls.len() < 2 {
        Option::None
    } else {
        let l0 = ls[0];
        let ind = ws_len(l0);
        let wl = word_len(l0.skip(ind));
        if wl == 0 {
            Option::None
        } else {
            let j = ind + wl + ws_len(l0.skip(ind + wl));
            if !(j < l0.len() && l0[j] == '=') {
                Option::None
            } else if j + 1 + ws_len(l0.skip(j + 1)) != l0.len() {
                Option::None
            } else {
                let l1 = ls[1];
                let p = ws_len(l1);
                if !(p < l1.len() && is_ident_start(l1[p])) {
                    Option::None
                } else {
                    let b = p + 1 + ident_len(l1.skip(p + 1));
                    if seg_len(l1, b) == 0 {
                        Option::None
                    } else {
                        let ce = b + segs_len(l1, b);
                        Option::Some(
                            (l0.take(ind), l0.subrange(ind, ind + wl), l1.subrange(p, ce), l1.skip(
                                ce,
                            )),
                        )
                    }
                }
            }
        }
    }
}

/// The replacement for a matched chain assignment, or None when the two
/// lines are kept: collapse when the collapsed form fits the width, else
/// wrap when wrapping is enabled; the tail of the chain line follows the
/// replacement either way.
pub open spec fn spec_reflow_chain(
    indent: Seq<char>,
    variable: Seq<char>,
    chain: Seq<char>,
    tail: Seq<char>,
    cfg: Configuration,
) -> Option<Seq<Seq<char>>> {
    if combined_len(indent, variable, chain) <= cfg.line_width {
        Option::Some(seq![collapsed_line(indent, variable, chain) + tail])
    } else if cfg.wrap_long_assignments {
        Option::Some(wrapped_lines(indent, variable, chain, cfg.indent_width, tail))
    } else {
        Option::None
    }
}

/// Width respect for the chain stage: a matched chain assignment whose
/// collapsed form fits within the configured line width is emitted as that
/// one collapsed line (with the chain line's tail kept after it), never as
/// a multi-line form.
pub proof fn lemma_width_respect_chain(
    indent: Seq<char>,
    variable: Seq<char>,
    chain: Seq<char>,
    tail: Seq<char>,
    cfg: Configuration,
)
    requires
        combined_len(indent, variable, chain) <= cfg.line_width,
    ensures
        spec_reflow_chain(indent, variable, chain, tail, cfg) == Option::Some(
            seq![collapsed_line(indent, variable, chain) + tail],
        ),
        (spec_reflow_chain(indent, variable, chain, tail, cfg)->Some_0).len() == 1,
{
}

/// The whole stage over the document's lines.
pub open spec fn spec_fix_chains(ls: Seq<Seq<char>>, cfg: Configuration) -> Seq<Seq<char>>
    decreases ls.len(),
{
    if ls.len() == 0 {
        Seq::empty()
    } else {
        match match_chain(ls) {
            Option::None => seq![ls[0]] + spec_fix_chains(ls.drop_first(), cfg),
            Option::Some((indent, variable, chain, tail)) => {
                let rep = match spec_reflow_chain(indent, variable, chain, tail, cfg) {
                    Option::Some(lines) => lines,
                    Option::None => ls.take(2),
                };
                rep + spec_fix_chains(ls.skip(2), cfg)
            },
        }
    }
}

/// The end of the maximal segment run starting at `start`, executable.
pub fn parse_chain_end(l: &Vec<char>, start: usize) -> (r: usize)
    requires
        start <= l.len(),
    ensures
        start <= r <= l.len(),
        r - start == segs_len(l@, start as int),
{
    let mut pos = start;
    loop
        invariant_except_break
            start <= pos <= l.len(),
            segs_len(l@, start as int) == pos - start + segs_len(l@, pos as int),
        ensures
            start <= pos <= l.len(),
            segs_len(l@, start as int) == pos - start,
        decreases l.len() - pos,
    {
        if !(pos < l.len() && pos + 1 < l.len() && l[pos] == '.' && char_is_ident_start(
            l[pos + 1],
        )) {
            proof {
                assert(seg_len(l@, pos as int) == 0);
                assert(segs_len(l@, pos as int) == 0);
            }
            break;
        }
        let ide = scan_ident(l, pos + 2);
        let mut seg_end = ide;
        if ide < l.len() && l[ide] == '(' {
            let cl = scan_until(l, ide + 1, ')');
            if cl < l.len() {
                seg_end = cl + 1;
            }
        }
        proof {
            let idl = 1 + ident_len(l@.skip(pos + 2));
            assert(ide == pos + 1 + idl);
            lemma_seg_len(l@, pos as int);
            assert(seg_len(l@, pos as int) == seg_end - pos);
            assert(segs_len(l@, pos as int) == (seg_end - pos) + segs_len(l@, seg_end as int));
        }
        pos = seg_end;
    }
    pos
}

/// A matched chain assignment, executable; two lines are always consumed.
pub struct ChainMatch {
    pub indent: Vec<char>,
    pub variable: Vec<char>,
    pub chain: Vec<char>,
    pub tail: Vec<char>,
}

/// Matches a broken method-chain assignment at lines `i` and `i + 1`.
pub fn try_match_chain(lines: &Vec<Vec<char>>, i: usize) -> (r: Option<ChainMatch>)
    requires
        i < lines.len(),
    ensures
        ({
            let m = match_chain(views(lines@).skip(i as int));
            match r {
                Option::None => m is None,
                Option::Some(cm) => m == Option::Some(
                    (cm.indent@, cm.variable@, cm.chain@, cm.tail@),
                ) && i + 2 <= lines.len(),
            }
        }),
{
    let ghost ls = views(lines@).skip(i as int);
    proof {
        assert(ls[0] == lines@[i as int]@);
    }
    if lines.len() - i < 2 {
        return Option::None;
    }
    proof {
        assert(ls[1] == lines@[i + 1]@);
    }
    let l0 = &lines[i];
    proof {
        assert(l0@.skip(0) =~= l0@);
    }
    let ind = scan_ws(l0, 0);
    let wend = scan_word(l0, ind);
    if wend == ind {
        return Option::None;
    }
    let j = scan_ws(l0, wend);
    if j == l0.len() {
        return Option::None;
    }
    if l0[j] != '=' {
        return Option::None;
    }
    let j2 = scan_ws(l0, j + 1);
    if j2 != l0.len() {
        return Option::None;
    }
    let l1 = &lines[i + 1];
    proof {
        assert(l1@.skip(0) =~= l1@);
    }
    let p = scan_ws(l1, 0);
    if p == l1.len() {
        return Option::None;
    }
    if !char_is_ident_start(l1[p]) {
        return Option::None;
    }
    let b = scan_ident(l1, p + 1);
    let ce = parse_chain_end(l1, b);
    if ce == b {
        proof {
            lemma_seg_len(l1@, b as int);
            if seg_len(l1@, b as int) > 0 {
                lemma_segs_len_nonneg(l1@, b as int + seg_len(l1@, b as int));
                assert(false);
            }
        }
        return Option::None;
    }
    proof {
        lemma_seg_len(l1@, b as int);
        assert(seg_len(l1@, b as int) != 0);
    }
    let indent = subvec(l0, 0, ind);
    let variable = subvec(l0, ind, wend);
    let chain = subvec(l1, p, ce);
    let tail = subvec(l1, ce, l1.len());
    proof {
        assert(indent@ =~= l0@.take(ind as int));
        assert(tail@ =~= l1@.skip(ce as int));
    }
    Option::Some(ChainMatch { indent, variable, chain, tail })
}

/// Applies the width policy to one matched chain assignment.
pub fn reflow_chain(
    indent: &Vec<char>,
    variable: &Vec<char>,
    chain: &Vec<char>,
    tail: &Vec<char>,
    cfg: &Configuration,
) -> (r: Option<Vec<Vec<char>>>)
    ensures
        ({
            let m = spec_reflow_chain(indent@, variable@, chain@, tail@, *cfg);
            match r {
                Option::None => m is None,
                Option::Some(v) => m == Option::Some(views(v@)),
            }
        }),
{
    if fits_width(indent, variable, chain, cfg) {
        let mut line = build_collapsed(indent, variable, chain);
        push_all(&mut line, tail);
        let mut v: Vec<Vec<char>> = Vec::new();
        proof {
            lemma_views_push(v@, line);
        }
        v.push(line);
        proof {
            assert(views(v@) =~= seq![collapsed_line(indent@, variable@, chain@) + tail@]);
        }
        return Option::Some(v);
    }
    if cfg.wrap_long_assignments {
        let v = build_wrapped(indent, variable, chain, cfg.indent_width, tail);
        return Option::Some(v);
    }
    Option::None
}

/// The broken method-chain stage over the whole document.
pub fn fix_chain_lines(lines: &Vec<Vec<char>>, cfg: &Configuration) -> (r: Vec<Vec<char>>)
    ensures
        views(r@) == spec_fix_chains(views(lines@), *cfg),
{
    let ghost big = views(lines@);
    let mut out: Vec<Vec<char>> = Vec::new();
    let mut i: usize = 0;
    proof {
        assert(big.skip(0) =~= big);
        assert(views(out@) + spec_fix_chains(big, *cfg) =~= spec_fix_chains(big, *cfg));
    }
    while i < lines.len()
        invariant
            i <= lines.len(),
            big == views(lines@),
            views(out@) + spec_fix_chains(big.skip(i as int), *cfg) == spec_fix_chains(big, *cfg),
        decreases lines.len() - i,
    {
        let ghost suf = big.skip(i as int);
        match try_match_chain(lines, i) {
            Option::None => {
                let line = clone_line(&lines[i]);
                proof {
                    lemma_views_push(out@, line);
                    assert(suf[0] == big[i as int]);
                    assert(suf.drop_first() =~= big.skip(i + 1));
                    assert(spec_fix_chains(suf, *cfg) == seq![suf[0]] + spec_fix_chains(
                        big.skip(i + 1),
                        *cfg,
                    ));
                    assert(views(out@).push(line@) + spec_fix_chains(big.skip(i + 1), *cfg)
                        =~= views(out@) + spec_fix_chains(suf, *cfg));
                }
                out.push(line);
                i = i + 1;
            },
            Option::Some(m) => {
                let ghost rep = match spec_reflow_chain(m.indent@, m.variable@, m.chain@, m.tail@, *cfg) {
                    Option::Some(lines2) => lines2,
                    Option::None => suf.take(2),
                };
                proof {
                    assert(spec_fix_chains(suf, *cfg) == rep + spec_fix_chains(
                        suf.skip(2),
                        *cfg,
                    ));
                    assert(suf.skip(2) =~= big.skip(i + 2));
                }
                match reflow_chain(&m.indent, &m.variable, &m.chain, &m.tail, cfg) {
                    Option::Some(repl) => {
                        proof {
                            assert(views(out@) + views(repl@) + spec_fix_chains(
                                big.skip(i + 2),
                                *cfg,
                            ) =~= views(out@) + (views(repl@) + spec_fix_chains(
                                big.skip(i + 2),
                                *cfg,
                            )));
                        }
                        append_lines(&mut out, &repl);
                    },
                    Option::None => {
                        let orig = crate::simple::subvec_lines(lines, i, i + 2);
                        proof {
                            assert(views(orig@) =~= suf.take(2));
                            assert(views(out@) + views(orig@) + spec_fix_chains(
                                big.skip(i + 2),
                                *cfg,
                            ) =~= views(out@) + (views(orig@) + spec_fix_chains(
                                big.skip(i + 2),
                                *cfg,
                            )));
                        }
                        append_lines(&mut out, &orig);
                    },
                }
                i = i + 2;
            },
        }
    }
    proof {
        assert(big.skip(lines@.len() as int) =~= Seq::<Seq<char>>::empty());
        assert(views(out@) + spec_fix_chains(Seq::<Seq<char>>::empty(), *cfg) =~= views(out@));
    }
    out
}

} // verus!
