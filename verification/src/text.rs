//! Character-level text helpers: whitespace runs, trimming, character
//! classes, and splitting a document into lines and joining it back.
//!
//! Documents are handled as vectors of characters, one vector per line;
//! all specifications speak of `Seq<char>`.

use vstd::prelude::*;

verus! {

/// Relies on str::chars: it yields exactly the characters of the slice, in
/// order, so collecting them gives a vector whose view is the slice's view.
#[verifier::external_body]
pub fn str_to_chars(s: &str) -> (r: Vec<char>)
    ensures
        r@ == s@,
{
    s.chars().collect()
}

/// Relies on String's FromIterator<char> impl: collecting characters builds
/// the string of exactly those characters, in order.
#[verifier::external_body]
pub fn chars_to_string(v: &Vec<char>) -> (r: String)
    ensures
        r@ == v@,
{
    v.iter().collect()
}

/// Blank characters inside a line ('\n' separates lines and never occurs
/// within one).
pub open spec fn is_ws(c: char) -> bool {
    c == ' ' || c == '\t' || c == '\r'
}

/// Identifier characters of the word-shaped left side of a chain assignment.
pub open spec fn is_word_char(c: char) -> bool {
    ('a' as u32 <= c as u32 && c as u32 <= 'z' as u32)
    || ('A' as u32 <= c as u32 && c as u32 <= 'Z' as u32)
    || ('0' as u32 <= c as u32 && c as u32 <= '9' as u32)
    || c == '_'
}

/// First character of an identifier in a method chain.
pub open spec fn is_ident_start(c: char) -> bool {
    ('a' as u32 <= c as u32 && c as u32 <= 'z' as u32)
    || ('A' as u32 <= c as u32 && c as u32 <= 'Z' as u32)
    || c == '_'
    || c == '$'
}

/// Later characters of an identifier in a method chain.
pub open spec fn is_ident_char(c: char) -> bool {
    is_word_char(c) || c == '$'
}

pub fn char_is_ws(c: char) -> (r: bool)
    ensures
        r == is_ws(c),
{
    c == ' ' || c == '\t' || c == '\r'
}

pub fn char_is_word(c: char) -> (r: bool)
    ensures
        r == is_word_char(c),
{
    ('a' as u32 <= c as u32 && c as u32 <= 'z' as u32)
    || ('A' as u32 <= c as u32 && c as u32 <= 'Z' as u32)
    || ('0' as u32 <= c as u32 && c as u32 <= '9' as u32)
    || c == '_'
}

pub fn char_is_ident_start(c: char) -> (r: bool)
    ensures
        r == is_ident_start(c),
{
    ('a' as u32 <= c as u32 && c as u32 <= 'z' as u32)
    || ('A' as u32 <= c as u32 && c as u32 <= 'Z' as u32)
    || c == '_'
    || c == '$'
}

pub fn char_is_ident(c: char) -> (r: bool)
    ensures
        r == is_ident_char(c),
{
    char_is_word(c) || c == '$'
}

/// Length of the longest all-whitespace prefix of `s`.
pub open spec fn ws_len(s: Seq<char>) -> int
    decreases s.len(),
{
    if s.len() > 0 && is_ws(s[0]) {
        1 + ws_len(s.drop_first())
    } else {
        0
    }
}

/// Length of the longest word-character prefix of `s`.
pub open spec fn word_len(s: Seq<char>) -> int
    decreases s.len(),
{
    if s.len() > 0 && is_word_char(s[0]) {
        1 + word_len(s.drop_first())
    } else {
        0
    }
}

/// Length of the longest identifier-character prefix of `s`.
pub open spec fn ident_len(s: Seq<char>) -> int
    decreases s.len(),
{
    if s.len() > 0 && is_ident_char(s[0]) {
        1 + ident_len(s.drop_first())
    } else {
        0
    }
}

/// Distance from the start of `s` to the first occurrence of `c`
/// (the length of `s` when `c` does not occur).
pub open spec fn until_len(s: Seq<char>, c: char) -> int
    decreases s.len(),
{
    if s.len() > 0 && s[0] != c {
        1 + until_len(s.drop_first(), c)
    } else {
        0
    }
}

/// Length of the longest all-whitespace suffix of `s`.
pub open spec fn ws_len_end(s: Seq<char>) -> int
    decreases s.len(),
{
    if s.len() > 0 && is_ws(s[s.len() - 1]) {
        1 + ws_len_end(s.drop_last())
    } else {
        0
    }
}

pub open spec fn contains_char(s: Seq<char>, c: char) -> bool {
    exists|i: int| 0 <= i < s.len() && s[i] == c
}

pub proof fn lemma_ws_len(s: Seq<char>)
    ensures
        0 <= ws_len(s) <= s.len(),
        forall|i: int| 0 <= i < ws_len(s) ==> is_ws(s[i]),
        ws_len(s) < s.len() ==> !is_ws(s[ws_len(s)]),
    decreases s.len(),
{
    if s.len() > 0 && is_ws(s[0]) {
        lemma_ws_len(s.drop_first());
        assert forall|i: int| 0 <= i < ws_len(s) implies is_ws(s[i]) by {
            if i >= 1 {
                assert(s.drop_first()[i - 1] == s[i]);
            }
        }
    }
}

pub proof fn lemma_ws_len_is(s: Seq<char>, k: int)
    requires
        0 <= k <= s.len(),
        forall|i: int| 0 <= i < k ==> is_ws(s[i]),
        k < s.len() ==> !is_ws(s[k]),
    ensures
        ws_len(s) == k,
{
    lemma_ws_len(s);
}

pub proof fn lemma_word_len(s: Seq<char>)
    ensures
        0 <= word_len(s) <= s.len(),
        forall|i: int| 0 <= i < word_len(s) ==> is_word_char(s[i]),
        word_len(s) < s.len() ==> !is_word_char(s[word_len(s)]),
    decreases s.len(),
{
    if s.len() > 0 && is_word_char(s[0]) {
        lemma_word_len(s.drop_first());
        assert forall|i: int| 0 <= i < word_len(s) implies is_word_char(s[i]) by {
            if i >= 1 {
                assert(s.drop_first()[i - 1] == s[i]);
            }
        }
    }
}

pub proof fn lemma_word_len_is(s: Seq<char>, k: int)
    requires
        0 <= k <= s.len(),
        forall|i: int| 0 <= i < k ==> is_word_char(s[i]),
        k < s.len() ==> !is_word_char(s[k]),
    ensures
        word_len(s) == k,
{
    lemma_word_len(s);
}

pub proof fn lemma_ident_len(s: Seq<char>)
    ensures
        0 <= ident_len(s) <= s.len(),
        forall|i: int| 0 <= i < ident_len(s) ==> is_ident_char(s[i]),
        ident_len(s) < s.len() ==> !is_ident_char(s[ident_len(s)]),
    decreases s.len(),
{
    if s.len() > 0 && is_ident_char(s[0]) {
        lemma_ident_len(s.drop_first());
        assert forall|i: int| 0 <= i < ident_len(s) implies is_ident_char(s[i]) by {
            if i >= 1 {
                assert(s.drop_first()[i - 1] == s[i]);
            }
        }
    }
}

pub proof fn lemma_ident_len_is(s: Seq<char>, k: int)
    requires
        0 <= k <= s.len(),
        forall|i: int| 0 <= i < k ==> is_ident_char(s[i]),
        k < s.len() ==> !is_ident_char(s[k]),
    ensures
        ident_len(s) == k,
{
    lemma_ident_len(s);
}

pub proof fn lemma_until_len(s: Seq<char>, c: char)
    ensures
        0 <= until_len(s, c) <= s.len(),
        forall|i: int| 0 <= i < until_len(s, c) ==> s[i] != c,
        until_len(s, c) < s.len() ==> s[until_len(s, c)] == c,
    decreases s.len(),
{
    if s.len() > 0 && s[0] != c {
        lemma_until_len(s.drop_first(), c);
        assert forall|i: int| 0 <= i < until_len(s, c) implies s[i] != c by {
            if i >= 1 {
                assert(s.drop_first()[i - 1] == s[i]);
            }
        }
    }
}

pub proof fn lemma_until_len_is(s: Seq<char>, c: char, k: int)
    requires
        0 <= k <= s.len(),
        forall|i: int| 0 <= i < k ==> s[i] != c,
        k < s.len() ==> s[k] == c,
    ensures
        until_len(s, c) == k,
{
    lemma_until_len(s, c);
}

pub proof fn lemma_until_contains(s: Seq<char>, c: char)
    ensures
        contains_char(s, c) <==> until_len(s, c) < s.len(),
{
    lemma_until_len(s, c);
    if until_len(s, c) < s.len() {
        assert(s[until_len(s, c)] == c);
    }
}

pub proof fn lemma_ws_len_end(s: Seq<char>)
    ensures
        0 <= ws_len_end(s) <= s.len(),
        forall|i: int| s.len() - ws_len_end(s) <= i < s.len() ==> is_ws(s[i]),
        ws_len_end(s) < s.len() ==> !is_ws(s[s.len() - ws_len_end(s) - 1]),
    decreases s.len(),
{
    if s.len() > 0 && is_ws(s[s.len() - 1]) {
        lemma_ws_len_end(s.drop_last());
        assert forall|i: int| s.len() - ws_len_end(s) <= i < s.len() implies is_ws(s[i]) by {
            if i < s.len() - 1 {
                assert(s.drop_last()[i] == s[i]);
            }
        }
    }
}

pub proof fn lemma_ws_len_end_is(s: Seq<char>, k: int)
    requires
        0 <= k <= s.len(),
        forall|i: int| s.len() - k <= i < s.len() ==> is_ws(s[i]),
        k < s.len() ==> !is_ws(s[s.len() - k - 1]),
    ensures
        ws_len_end(s) == k,
{
    lemma_ws_len_end(s);
}

/// The line's leading whitespace.
pub open spec fn line_indent(s: Seq<char>) -> Seq<char> {
    s.take(ws_len(s))
}

pub open spec fn trim_start(s: Seq<char>) -> Seq<char> {
    s.skip(ws_len(s))
}

pub open spec fn trim_end(s: Seq<char>) -> Seq<char> {
    s.take(s.len() - ws_len_end(s))
}

/// The line with leading and trailing whitespace removed.
pub open spec fn trim(s: Seq<char>) -> Seq<char> {
    trim_end(trim_start(s))
}

/// Index just past the whitespace run of `l` that starts at `from`.
pub fn scan_ws(l: &Vec<char>, from: usize) -> (r: usize)
    requires
        from <= l.len(),
    ensures
        from <= r <= l.len(),
        r - from == ws_len(l@.skip(from as int)),
{
    let mut i = from;
    while i < l.len() && char_is_ws(l[i])
        invariant
            from <= i <= l.len(),
            forall|j: int| from <= j < i ==> is_ws(l@[j]),
        decreases l.len() - i,
    {
        i = i + 1;
    }
    proof {
        lemma_ws_len_is(l@.skip(from as int), i - from);
    }
    i
}

/// Index just past the word-character run of `l` that starts at `from`.
pub fn scan_word(l: &Vec<char>, from: usize) -> (r: usize)
    requires
        from <= l.len(),
    ensures
        from <= r <= l.len(),
        r - from == word_len(l@.skip(from as int)),
{
    let mut i = from;
    while i < l.len() && char_is_word(l[i])
        invariant
            from <= i <= l.len(),
            forall|j: int| from <= j < i ==> is_word_char(l@[j]),
        decreases l.len() - i,
    {
        i = i + 1;
    }
    proof {
        lemma_word_len_is(l@.skip(from as int), i - from);
    }
    i
}

/// Index just past the identifier-character run of `l` that starts at `from`.
pub fn scan_ident(l: &Vec<char>, from: usize) -> (r: usize)
    requires
        from <= l.len(),
    ensures
        from <= r <= l.len(),
        r - from == ident_len(l@.skip(from as int)),
{
    let mut i = from;
    while i < l.len() && char_is_ident(l[i])
        invariant
            from <= i <= l.len(),
            forall|j: int| from <= j < i ==> is_ident_char(l@[j]),
        decreases l.len() - i,
    {
        i = i + 1;
    }
    proof {
        lemma_ident_len_is(l@.skip(from as int), i - from);
    }
    i
}

/// Index of the first occurrence of `c` in `l` at or after `from`
/// (the length of `l` when `c` does not occur there).
pub fn scan_until(l: &Vec<char>, from: usize, c: char) -> (r: usize)
    requires
        from <= l.len(),
    ensures
        from <= r <= l.len(),
        r - from == until_len(l@.skip(from as int), c),
        r < l.len() ==> l@[r as int] == c,
{
    let mut i = from;
    while i < l.len() && l[i] != c
        invariant
            from <= i <= l.len(),
            forall|j: int| from <= j < i ==> l@[j] != c,
        decreases l.len() - i,
    {
        i = i + 1;
    }
    proof {
        lemma_until_len_is(l@.skip(from as int), c, i - from);
    }
    i
}

/// Whether `c` occurs anywhere in `l`.
pub fn has_char(l: &Vec<char>, c: char) -> (r: bool)
    ensures
        r == contains_char(l@, c),
{
    let e = scan_until(l, 0, c);
    proof {
        assert(l@.skip(0) =~= l@);
        lemma_until_contains(l@, c);
    }
    e < l.len()
}

/// A fresh copy of `l[a..b]`.
pub fn subvec(l: &Vec<char>, a: usize, b: usize) -> (r: Vec<char>)
    requires
        a <= b <= l.len(),
    ensures
        r@ == l@.subrange(a as int, b as int),
{
    let mut r: Vec<char> = Vec::new();
    let mut i = a;
    while i < b
        invariant
            a <= i <= b <= l.len(),
            r@ == l@.subrange(a as int, i as int),
        decreases b - i,
    {
        r.push(l[i]);
        proof {
            assert(l@.subrange(a as int, i + 1) =~= l@.subrange(a as int, i as int).push(
                l@[i as int],
            ));
        }
        i = i + 1;
    }
    r
}

/// Appends all of `src` to `dst`.
pub fn push_all(dst: &mut Vec<char>, src: &Vec<char>)
    ensures
        final(dst)@ == old(dst)@ + src@,
{
    let mut i: usize = 0;
    while i < src.len()
        invariant
            i <= src.len(),
            dst@ == old(dst)@ + src@.subrange(0, i as int),
        decreases src.len() - i,
    {
        dst.push(src[i]);
        proof {
            assert(old(dst)@ + src@.subrange(0, i + 1) =~= (old(dst)@ + src@.subrange(
                0,
                i as int,
            )).push(src@[i as int]));
        }
        i = i + 1;
    }
    proof {
        assert(src@.subrange(0, src@.len() as int) =~= src@);
    }
}

/// `n` spaces appended to `dst`.
pub fn push_spaces(dst: &mut Vec<char>, n: u32)
    ensures
        final(dst)@ == old(dst)@ + Seq::new(n as nat, |i: int| ' '),
{
    let mut k: u32 = 0;
    while k < n
        invariant
            k <= n,
            dst@ == old(dst)@ + Seq::new(k as nat, |i: int| ' '),
        decreases n - k,
    {
        dst.push(' ');
        proof {
            assert(old(dst)@ + Seq::new((k + 1) as nat, |i: int| ' ') =~= (old(dst)@ + Seq::new(
                k as nat,
                |i: int| ' ',
            )).push(' '));
        }
        k = k + 1;
    }
}

/// The line's leading whitespace, as a fresh vector.
pub fn indent_of(l: &Vec<char>) -> (r: Vec<char>)
    ensures
        r@ == line_indent(l@),
{
    let a = scan_ws(l, 0);
    proof {
        assert(l@.skip(0) =~= l@);
        assert(l@.subrange(0, ws_len(l@)) =~= line_indent(l@));
    }
    subvec(l, 0, a)
}

/// The line with leading and trailing whitespace removed, as a fresh vector.
pub fn trim_vec(l: &Vec<char>) -> (r: Vec<char>)
    ensures
        r@ == trim(l@),
{
    let a = scan_ws(l, 0);
    let mut b = l.len();
    while b > a && char_is_ws(l[b - 1])
        invariant
            a <= b <= l.len(),
            forall|j: int| b <= j < l.len() ==> is_ws(l@[j]),
        decreases b,
    {
        b = b - 1;
    }
    proof {
        assert(l@.skip(0) =~= l@);
        let t = trim_start(l@);
        assert(t =~= l@.skip(a as int));
        lemma_ws_len(l@);
        assert forall|i: int| t.len() - (l@.len() - b) <= i < t.len() implies is_ws(t[i]) by {
            assert(t[i] == l@[a + i]);
        }
        lemma_ws_len_end_is(t, l@.len() - b);
        assert(trim(l@) =~= l@.subrange(a as int, b as int));
    }
    subvec(l, a, b)
}

/// Element-wise equality of two character vectors.
pub fn chars_eq(a: &Vec<char>, b: &Vec<char>) -> (r: bool)
    ensures
        r == (a@ == b@),
{
    if a.len() != b.len() {
        return false;
    }
    let mut i: usize = 0;
    while i < a.len()
        invariant
            i <= a.len(),
            a.len() == b.len(),
            forall|j: int| 0 <= j < i ==> a@[j] == b@[j],
        decreases a.len() - i,
    {
        if a[i] != b[i] {
            return false;
        }
        i = i + 1;
    }
    proof {
        assert(a@ =~= b@);
    }
    true
}

/// A fresh copy of a whole line.
pub fn clone_line(l: &Vec<char>) -> (r: Vec<char>)
    ensures
        r@ == l@,
{
    let r = subvec(l, 0, l.len());
    proof {
        assert(l@.subrange(0, l@.len() as int) =~= l@);
    }
    r
}

/// The views of a sequence of character vectors.
pub open spec fn views(ls: Seq<Vec<char>>) -> Seq<Seq<char>> {
    ls.map_values(|l: Vec<char>| l@)
}

pub proof fn lemma_views_push(ls: Seq<Vec<char>>, l: Vec<char>)
    ensures
        views(ls.push(l)) == views(ls).push(l@),
{
    assert(views(ls.push(l)) =~= views(ls).push(l@));
}

/// Appends copies of all lines of `src` to `dst`.
pub fn append_lines(dst: &mut Vec<Vec<char>>, src: &Vec<Vec<char>>)
    ensures
        views(final(dst)@) == views(old(dst)@) + views(src@),
{
    let mut j: usize = 0;
    while j < src.len()
        invariant
            j <= src.len(),
            views(dst@) == views(old(dst)@) + views(src@.take(j as int)),
        decreases src.len() - j,
    {
        let c = clone_line(&src[j]);
        proof {
            lemma_views_push(dst@, c);
            assert(views(src@.take(j + 1)) =~= views(src@.take(j as int)).push(src@[j as int]@));
            assert(views(old(dst)@) + views(src@.take(j + 1)) =~= (views(old(dst)@) + views(
                src@.take(j as int),
            )).push(src@[j as int]@));
        }
        dst.push(c);
        j = j + 1;
    }
    proof {
        assert(src@.take(src@.len() as int) =~= src@);
    }
}

/// The document split at each newline; a text with no newline is one line,
/// and a trailing newline yields a final empty line.
pub open spec fn spec_lines(s: Seq<char>) -> Seq<Seq<char>>
    decreases s.len(),
{
    let k = until_len(s, '\n');
    if 0 <= k && k < s.len() {
        seq![s.take(k)] + spec_lines(s.skip(k + 1))
    } else {
        seq![s]
    }
}

/// The lines joined back with single newlines.
pub open spec fn spec_unlines(ls: Seq<Seq<char>>) -> Seq<char>
    decreases ls.len(),
{
    if ls.len() == 0 {
        Seq::empty()
    } else if ls.len() == 1 {
        ls[0]
    } else {
        ls[0] + seq!['\n'] + spec_unlines(ls.drop_first())
    }
}

pub proof fn lemma_unlines_push(ls: Seq<Seq<char>>, l: Seq<char>)
    ensures
        ls.len() == 0 ==> spec_unlines(ls.push(l)) == l,
        ls.len() > 0 ==> spec_unlines(ls.push(l)) == spec_unlines(ls) + seq!['\n'] + l,
    decreases ls.len(),
{
    if ls.len() == 0 {
        assert(ls.push(l)[0] == l);
    } else if ls.len() == 1 {
        assert(ls.push(l).drop_first() =~= ls.drop_first().push(l));
        lemma_unlines_push(ls.drop_first(), l);
        assert(spec_unlines(ls.push(l)) == ls[0] + seq!['\n'] + l);
        assert(spec_unlines(ls) == ls[0]);
    } else {
        assert(ls.push(l).drop_first() =~= ls.drop_first().push(l));
        lemma_unlines_push(ls.drop_first(), l);
        assert(spec_unlines(ls.push(l)) =~= spec_unlines(ls) + seq!['\n'] + l);
    }
}

/// Splits the document into its lines.
pub fn split_lines(text: &Vec<char>) -> (r: Vec<Vec<char>>)
    ensures
        views(r@) == spec_lines(text@),
        r@.len() >= 1,
{
    let mut out: Vec<Vec<char>> = Vec::new();
    let mut pos: usize = 0;
    proof {
        assert(text@.skip(0) =~= text@);
        assert(views(out@) + spec_lines(text@) =~= spec_lines(text@));
    }
    loop
        invariant_except_break
            pos <= text.len(),
            spec_lines(text@) == views(out@) + spec_lines(text@.skip(pos as int)),
        ensures
            views(out@) == spec_lines(text@),
            out@.len() >= 1,
        decreases text.len() - pos,
    {
        let e = scan_until(text, pos, '\n');
        let line = subvec(text, pos, e);
        proof {
            lemma_views_push(out@, line);
        }
        let ghost rest = text@.skip(pos as int);
        out.push(line);
        if e == text.len() {
            proof {
                lemma_until_len(rest, '\n');
                assert(until_len(rest, '\n') == rest.len());
                assert(spec_lines(rest) == seq![rest]);
                assert(line@ =~= rest);
                assert(views(out@) =~= spec_lines(text@));
            }
            break;
        }
        proof {
            lemma_until_len(rest, '\n');
            let k = until_len(rest, '\n');
            assert(k == e - pos && k < rest.len());
            assert(spec_lines(rest) == seq![rest.take(k)] + spec_lines(rest.skip(k + 1)));
            assert(line@ =~= rest.take(k));
            assert(rest.skip(k + 1) =~= text@.skip(e + 1));
            assert(views(out@) + spec_lines(text@.skip(e + 1)) =~= spec_lines(text@));
        }
        pos = e + 1;
    }
    out
}

/// Joins lines back into one document.
pub fn join_lines(lines: &Vec<Vec<char>>) -> (r: Vec<char>)
    ensures
        r@ == spec_unlines(views(lines@)),
{
    let mut r: Vec<char> = Vec::new();
    let mut i: usize = 0;
    while i < lines.len()
        invariant
            i <= lines.len(),
            r@ == spec_unlines(views(lines@).take(i as int)),
        decreases lines.len() - i,
    {
        proof {
            assert(views(lines@).take(i + 1) =~= views(lines@).take(i as int).push(lines@[i as int]@));
            lemma_unlines_push(views(lines@).take(i as int), lines@[i as int]@);
        }
        if i > 0 {
            r.push('\n');
        }
        push_all(&mut r, &lines[i]);
        proof {
            if i > 0 {
                assert(r@ =~= spec_unlines(views(lines@).take(i + 1)));
            } else {
                assert(r@ =~= spec_unlines(views(lines@).take(i + 1)));
            }
        }
        i = i + 1;
    }
    proof {
        assert(views(lines@).take(lines@.len() as int) =~= views(lines@));
    }
    r
}

} // verus!
