//! The pipeline driver: the three stages in a fixed order over the whole
//! document, each stage fed the previous stage's output, with "no change"
//! detection; and the laws that hold of a full run.

use vstd::prelude::*;
use crate::chain::{fix_chain_lines, match_chain, spec_fix_chains, spec_reflow_chain};
use crate::config::Configuration;
use crate::destructure::{fix_destr_lines, match_destr, spec_fix_destr};
use crate::simple::{fix_broken_lines, match_simple, spec_fix_broken, spec_reflow_simple};
use crate::text::{
    chars_eq, chars_to_string, contains_char, join_lines, lemma_until_len, spec_lines,
    spec_unlines, split_lines, str_to_chars, until_len,
};

verus! {

/// What one full formatting run produces: broken simple assignments are
/// repaired first, then broken method-chain assignments, then destructuring
/// assignments are normalized, each stage over the previous stage's output.
pub open spec fn spec_fix_assignments(t: Seq<char>, cfg: Configuration) -> Seq<char> {
    spec_unlines(spec_fix_destr(spec_fix_chains(spec_fix_broken(spec_lines(t), cfg), cfg)))
}

/// Runs the full pipeline over a document.
pub fn fix_assignments(text: &str, config: &Configuration) -> (r: String)
    ensures
        r@ == spec_fix_assignments(text@, *config),
{
    let chars = str_to_chars(text);
    let lines = split_lines(&chars);
    let s1 = fix_broken_lines(&lines, config);
    let s2 = fix_chain_lines(&s1, config);
    let s3 = fix_destr_lines(&s2);
    let joined = join_lines(&s3);
    chars_to_string(&joined)
}

/// Formats a document and reports "no change" (None) when the pipeline's
/// output is textually identical to the input; otherwise the rewritten
/// text, which then differs from the input.
pub fn format_text(text: &str, config: &Configuration) -> (r: Option<String>)
    ensures
        (r is None) <==> spec_fix_assignments(text@, *config) == text@,
        r is Some ==> (r->Some_0)@ == spec_fix_assignments(text@, *config) && (r->Some_0)@
            != text@,
{
    let chars = str_to_chars(text);
    let lines = split_lines(&chars);
    let s1 = fix_broken_lines(&lines, config);
    let s2 = fix_chain_lines(&s1, config);
    let s3 = fix_destr_lines(&s2);
    let joined = join_lines(&s3);
    if chars_eq(&joined, &chars) {
        Option::None
    } else {
        Option::Some(chars_to_string(&joined))
    }
}

/// Splitting a document at newlines and joining the lines back yields the
/// document again.
pub proof fn lemma_unlines_lines(s: Seq<char>)
    ensures
        spec_unlines(spec_lines(s)) == s,
    decreases s.len(),
{
    let k = until_len(s, '\n');
    lemma_until_len(s, '\n');
    if 0 <= k && k < s.len() {
        lemma_unlines_lines(s.skip(k + 1));
        let rest = spec_lines(s.skip(k + 1));
        assert(rest.len() >= 1);
        assert((seq![s.take(k)] + rest).drop_first() =~= rest);
        assert(s.take(k) + seq!['\n'] + s.skip(k + 1) =~= s);
    }
}

/// No line of a split document holds a newline; so a stage that emits one
/// line for a matched span emits one document line.
pub proof fn lemma_lines_no_newline(s: Seq<char>)
    ensures
        forall|j: int|
            0 <= j < spec_lines(s).len() ==> !contains_char(#[trigger] spec_lines(s)[j], '\n'),
    decreases s.len(),
{
    let k = until_len(s, '\n');
    lemma_until_len(s, '\n');
    if 0 <= k && k < s.len() {
        lemma_lines_no_newline(s.skip(k + 1));
        assert forall|j: int| 0 <= j < spec_lines(s).len() implies !contains_char(
            #[trigger] spec_lines(s)[j],
            '\n',
        ) by {
            if j == 0 {
                assert(spec_lines(s)[0] == s.take(k));
                if contains_char(s.take(k), '\n') {
                    let i = choose|i: int| 0 <= i < s.take(k).len() && s.take(k)[i] == '\n';
                    assert(s[i] == '\n');
                    assert(false);
                }
            } else {
                assert(spec_lines(s)[j] == spec_lines(s.skip(k + 1))[j - 1]);
            }
        }
    } else {
        if contains_char(s, '\n') {
            let i = choose|i: int| 0 <= i < s.len() && s[i] == '\n';
            assert(false);
        }
    }
}

/// The simple stage keeps the head of `ls` as it is: either nothing
/// matches there, or the matched span's replacement is "leave unchanged".
pub open spec fn simple_keeps(ls: Seq<Seq<char>>, cfg: Configuration) -> bool {
    match match_simple(ls) {
        Option::None => true,
        Option::Some((k, indent, left, right)) => spec_reflow_simple(indent, left, right, cfg)
            is None,
    }
}

/// The chain stage keeps the head of `ls` as it is.
pub open spec fn chain_keeps(ls: Seq<Seq<char>>, cfg: Configuration) -> bool {
    match match_chain(ls) {
        Option::None => true,
        Option::Some((indent, variable, chain, tail)) => spec_reflow_chain(
            indent,
            variable,
            chain,
            tail,
            cfg,
        ) is None,
    }
}

/// No line of `ls` starts a simple-assignment rewrite.
pub open spec fn simple_settled(ls: Seq<Seq<char>>, cfg: Configuration) -> bool {
    forall|i: int| 0 <= i <= ls.len() ==> #[trigger] simple_keeps(ls.skip(i), cfg)
}

/// No line of `ls` starts a chain-assignment rewrite.
pub open spec fn chain_settled(ls: Seq<Seq<char>>, cfg: Configuration) -> bool {
    forall|i: int| 0 <= i <= ls.len() ==> #[trigger] chain_keeps(ls.skip(i), cfg)
}

/// No line of `ls` starts a destructuring match (that stage always
/// rewrites what it matches).
pub open spec fn destr_settled(ls: Seq<Seq<char>>) -> bool {
    forall|i: int| 0 <= i <= ls.len() ==> (#[trigger] match_destr(ls.skip(i))) is None
}

/// A settled document passes through the simple stage unchanged.
pub proof fn lemma_simple_settled_fix(ls: Seq<Seq<char>>, cfg: Configuration)
    requires
        simple_settled(ls, cfg),
    ensures
        spec_fix_broken(ls, cfg) == ls,
    decreases ls.len(),
{
    if ls.len() == 0 {
        assert(spec_fix_broken(ls, cfg) =~= ls);
    } else {
        assert(simple_keeps(ls.skip(0), cfg));
        assert(ls.skip(0) =~= ls);
        match match_simple(ls) {
            Option::None => {
                assert forall|i: int| 0 <= i <= ls.drop_first().len() implies #[trigger] simple_keeps(
                    ls.drop_first().skip(i),
                    cfg,
                ) by {
                    assert(ls.drop_first().skip(i) =~= ls.skip(i + 1));
                    assert(simple_keeps(ls.skip(i + 1), cfg));
                }
                lemma_simple_settled_fix(ls.drop_first(), cfg);
                assert(seq![ls[0]] + ls.drop_first() =~= ls);
            },
            Option::Some((k, indent, left, right)) => {
                assert(spec_reflow_simple(indent, left, right, cfg) is None);
                assert forall|i: int| 0 <= i <= ls.skip(k).len() implies #[trigger] simple_keeps(
                    ls.skip(k).skip(i),
                    cfg,
                ) by {
                    assert(ls.skip(k).skip(i) =~= ls.skip(k + i));
                    assert(simple_keeps(ls.skip(k + i), cfg));
                }
                lemma_simple_settled_fix(ls.skip(k), cfg);
                assert(ls.take(k) + ls.skip(k) =~= ls);
            },
        }
    }
}

/// A settled document passes through the chain stage unchanged.
pub proof fn lemma_chain_settled_fix(ls: Seq<Seq<char>>, cfg: Configuration)
    requires
        chain_settled(ls, cfg),
    ensures
        spec_fix_chains(ls, cfg) == ls,
    decreases ls.len(),
{
    if ls.len() == 0 {
        assert(spec_fix_chains(ls, cfg) =~= ls);
    } else {
        assert(chain_keeps(ls.skip(0), cfg));
        assert(ls.skip(0) =~= ls);
        match match_chain(ls) {
            Option::None => {
                assert forall|i: int| 0 <= i <= ls.drop_first().len() implies #[trigger] chain_keeps(
                    ls.drop_first().skip(i),
                    cfg,
                ) by {
                    assert(ls.drop_first().skip(i) =~= ls.skip(i + 1));
                    assert(chain_keeps(ls.skip(i + 1), cfg));
                }
                lemma_chain_settled_fix(ls.drop_first(), cfg);
                assert(seq![ls[0]] + ls.drop_first() =~= ls);
            },
            Option::Some((indent, variable, chain, tail)) => {
                assert(spec_reflow_chain(indent, variable, chain, tail, cfg) is None);
                assert forall|i: int| 0 <= i <= ls.skip(2).len() implies #[trigger] chain_keeps(
                    ls.skip(2).skip(i),
                    cfg,
                ) by {
                    assert(ls.skip(2).skip(i) =~= ls.skip(2 + i));
                    assert(chain_keeps(ls.skip(2 + i), cfg));
                }
                lemma_chain_settled_fix(ls.skip(2), cfg);
                assert(ls.take(2) + ls.skip(2) =~= ls);
            },
        }
    }
}

/// A settled document passes through the destructuring stage unchanged.
pub proof fn lemma_destr_settled_fix(ls: Seq<Seq<char>>)
    requires
        destr_settled(ls),
    ensures
        spec_fix_destr(ls) == ls,
    decreases ls.len(),
{
    if ls.len() == 0 {
        assert(spec_fix_destr(ls) =~= ls);
    } else {
        assert(match_destr(ls.skip(0)) is None);
        assert(ls.skip(0) =~= ls);
        assert forall|i: int| 0 <= i <= ls.drop_first().len() implies (#[trigger] match_destr(
            ls.drop_first().skip(i),
        )) is None by {
            assert(ls.drop_first().skip(i) =~= ls.skip(i + 1));
            assert(match_destr(ls.skip(i + 1)) is None);
        }
        lemma_destr_settled_fix(ls.drop_first());
        assert(seq![ls[0]] + ls.drop_first() =~= ls);
    }
}

/// A fully normalized document: no line of it starts any rewrite of any of
/// the three stages.
pub open spec fn normalized(t: Seq<char>, cfg: Configuration) -> bool {
    &&& simple_settled(spec_lines(t), cfg)
    &&& chain_settled(spec_lines(t), cfg)
    &&& destr_settled(spec_lines(t))
}

/// A normalized document is a fixpoint of the full pipeline.
pub proof fn lemma_normalized_fixpoint(t: Seq<char>, cfg: Configuration)
    requires
        normalized(t, cfg),
    ensures
        spec_fix_assignments(t, cfg) == t,
{
    lemma_simple_settled_fix(spec_lines(t), cfg);
    lemma_chain_settled_fix(spec_lines(t), cfg);
    lemma_destr_settled_fix(spec_lines(t));
    lemma_unlines_lines(t);
}

/// Idempotence, on every input whose output is fully normalized: running
/// the pipeline twice then yields what one run yields. (The restriction is
/// needed: a rewrite can lay a replacement next to untouched lines so that
/// together they form a new rewritable shape, which only a later run
/// repairs; such outputs are not normalized and are excluded here.)
pub proof fn lemma_idempotent_on_normalized_output(t: Seq<char>, cfg: Configuration)
    requires
        normalized(spec_fix_assignments(t, cfg), cfg),
    ensures
        spec_fix_assignments(spec_fix_assignments(t, cfg), cfg) == spec_fix_assignments(t, cfg),
{
    lemma_normalized_fixpoint(spec_fix_assignments(t, cfg), cfg);
}

} // verus!
