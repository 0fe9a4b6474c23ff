//! Classification of a matched left side: object-literal properties, which
//! the simple-assignment stage must never rewrite, and destructuring
//! patterns, which are exempt from that exclusion.

use vstd::prelude::*;
use crate::text::{
    contains_char, has_char, str_to_chars, subvec, trim, trim_vec,
};

verus! {

/// A left side that looks like an object-literal property: it contains a
/// `:` and no `?`.
pub open spec fn spec_is_object_property(s: Seq<char>) -> bool {
    contains_char(s, ':') && !contains_char(s, '?')
}

/// The length of the declaration keyword ("const ", "let " or "var ",
/// keyword plus one space) heading `t`, or 0 when none does.
pub open spec fn decl_strip_len(t: Seq<char>) -> int {
    if t.len() >= 6 && t.subrange(0, 6) == seq!['c', 'o', 'n', 's', 't', ' '] {
        6
    } else if t.len() >= 4 && t.subrange(0, 4) == seq!['l', 'e', 't', ' '] {
        4
    } else if t.len() >= 4 && t.subrange(0, 4) == seq!['v', 'a', 'r', ' '] {
        4
    } else {
        0
    }
}

/// A left side that is a destructuring pattern: after trimming and
/// stripping an optional declaration keyword, the whole of it is enclosed
/// in braces or in brackets.
pub open spec fn spec_is_destructuring(s: Seq<char>) -> bool {
    let t = trim(s);
    let k = decl_strip_len(t);
    let u = if k > 0 {
        trim(t.skip(k))
    } else {
        t
    };
    (u.len() > 0 && u[0] == '{' && u[u.len() - 1] == '}') || (u.len() > 0 && u[0] == '['
        && u[u.len() - 1] == ']')
}

/// The declaration keyword length heading `t`, executable.
pub fn decl_strip(t: &Vec<char>) -> (r: usize)
    ensures
        r == decl_strip_len(t@),
{
    if t.len() >= 6 && t[0] == 'c' && t[1] == 'o' && t[2] == 'n' && t[3] == 's' && t[4] == 't'
        && t[5] == ' ' {
        proof {
            assert(t@.subrange(0, 6) =~= seq!['c', 'o', 'n', 's', 't', ' ']);
        }
        6
    } else if t.len() >= 4 && t[0] == 'l' && t[1] == 'e' && t[2] == 't' && t[3] == ' ' {
        proof {
            assert(t@.subrange(0, 4) =~= seq!['l', 'e', 't', ' ']);
            if t@.len() >= 6 && t@.subrange(0, 6) == seq!['c', 'o', 'n', 's', 't', ' '] {
                assert(t@.subrange(0, 6)[0] == 'c');
            }
        }
        4
    } else if t.len() >= 4 && t[0] == 'v' && t[1] == 'a' && t[2] == 'r' && t[3] == ' ' {
        proof {
            assert(t@.subrange(0, 4) =~= seq!['v', 'a', 'r', ' ']);
            if t@.len() >= 6 && t@.subrange(0, 6) == seq!['c', 'o', 'n', 's', 't', ' '] {
                assert(t@.subrange(0, 6)[0] == 'c');
            }
            if t@.len() >= 4 && t@.subrange(0, 4) == seq!['l', 'e', 't', ' '] {
                assert(t@.subrange(0, 4)[0] == 'l');
            }
        }
        4
    } else {
        proof {
            if t@.len() >= 6 && t@.subrange(0, 6) == seq!['c', 'o', 'n', 's', 't', ' '] {
                assert(t@.subrange(0, 6)[0] == 'c');
                assert(t@.subrange(0, 6)[1] == 'o');
                assert(t@.subrange(0, 6)[2] == 'n');
                assert(t@.subrange(0, 6)[3] == 's');
                assert(t@.subrange(0, 6)[4] == 't');
                assert(t@.subrange(0, 6)[5] == ' ');
            }
            if t@.len() >= 4 && t@.subrange(0, 4) == seq!['l', 'e', 't', ' '] {
                assert(t@.subrange(0, 4)[0] == 'l');
                assert(t@.subrange(0, 4)[1] == 'e');
                assert(t@.subrange(0, 4)[2] == 't');
                assert(t@.subrange(0, 4)[3] == ' ');
            }
            if t@.len() >= 4 && t@.subrange(0, 4) == seq!['v', 'a', 'r', ' '] {
                assert(t@.subrange(0, 4)[0] == 'v');
                assert(t@.subrange(0, 4)[1] == 'a');
                assert(t@.subrange(0, 4)[2] == 'r');
                assert(t@.subrange(0, 4)[3] == ' ');
            }
        }
        0
    }
}

/// Whether the given left side is a destructuring pattern, on characters.
pub fn is_destructuring_chars(l: &Vec<char>) -> (r: bool)
    ensures
        r == spec_is_destructuring(l@),
{
    let t = trim_vec(l);
    let k = decl_strip(&t);
    let u: Vec<char> = if k > 0 {
        let rest = subvec(&t, k, t.len());
        proof {
            assert(rest@ =~= t@.skip(decl_strip_len(t@)));
        }
        trim_vec(&rest)
    } else {
        t
    };
    if u.len() == 0 {
        return false;
    }
    let first = u[0];
    let last = u[u.len() - 1];
    (first == '{' && last == '}') || (first == '[' && last == ']')
}

/// Whether the given left side is a destructuring pattern.
pub fn is_destructuring(text: &str) -> (r: bool)
    ensures
        r == spec_is_destructuring(text@),
{
    let v = str_to_chars(text);
    is_destructuring_chars(&v)
}

/// Whether the given left side looks like an object-literal property, on
/// characters.
pub fn is_object_property_chars(l: &Vec<char>) -> (r: bool)
    ensures
        r == spec_is_object_property(l@),
{
    has_char(l, ':') && !has_char(l, '?')
}

/// Whether the given left side looks like an object-literal property.
pub fn is_object_property(text: &str) -> (r: bool)
    ensures
        r == spec_is_object_property(text@),
{
    let v = str_to_chars(text);
    is_object_property_chars(&v)
}

} // verus!
