//! Character classes and low-level text utilities shared by every parser:
//! the whitespace/key/identifier predicates, whitespace skipping, subrange
//! copying, and the boundary between `&str`/`String` and `Vec<char>`.
//!
//! All parsing works over a `Vec<char>` whose view is the same `Seq<char>`
//! as the view of the original `&str` input.

use vstd::prelude::*;
use vstd::std_specs::iter::IteratorSpec;

verus! {

broadcast use vstd::string::group_string_axioms;

/// The whitespace characters of this format: space, tab, carriage return,
/// and line feed.
pub open spec fn is_space(c: char) -> bool {
    c == ' ' || c == '\t' || c == '\r' || c == '\n'
}

/// Characters allowed in a property key: ASCII alphanumerics, underscore,
/// and slash (slash occurs in keys such as `script/source`).
pub open spec fn is_key_char(c: char) -> bool {
    is_ascii_alnum(c) || c == '_' || c == '/'
}

/// Characters allowed in a section header type: ASCII alphanumerics and
/// underscore.
pub open spec fn is_ident_char(c: char) -> bool {
    is_ascii_alnum(c) || c == '_'
}

pub open spec fn is_ascii_alnum(c: char) -> bool {
    ('a' <= c && c <= 'z') || ('A' <= c && c <= 'Z') || ('0' <= c && c <= '9')
}

pub fn exec_is_space(c: char) -> (r: bool)
    ensures
        r == is_space(c),
{
    c == ' ' || c == '\t' || c == '\r' || c == '\n'
}

pub fn exec_is_key_char(c: char) -> (r: bool)
    ensures
        r == is_key_char(c),
{
    exec_is_ascii_alnum(c) || c == '_' || c == '/'
}

pub fn exec_is_ident_char(c: char) -> (r: bool)
    ensures
        r == is_ident_char(c),
{
    exec_is_ascii_alnum(c) || c == '_'
}

pub fn exec_is_ascii_alnum(c: char) -> (r: bool)
    ensures
        r == is_ascii_alnum(c),
{
    ('a' <= c && c <= 'z') || ('A' <= c && c <= 'Z') || ('0' <= c && c <= '9')
}

/// Index of the first character at or after `i` that is not whitespace
/// (or the end of the text).
pub open spec fn skip_ws(s: Seq<char>, i: int) -> int
    decreases s.len() - i,
{
    if i < 0 || i >= s.len() || !is_space(s[i]) {
        i
    } else {
        skip_ws(s, i + 1)
    }
}

pub proof fn lemma_skip_ws_bounds(s: Seq<char>, i: int)
    requires
        0 <= i <= s.len(),
    ensures
        i <= skip_ws(s, i) <= s.len(),
        forall|k: int| i <= k < skip_ws(s, i) ==> is_space(s[k]),
        skip_ws(s, i) < s.len() ==> !is_space(s[skip_ws(s, i)]),
    decreases s.len() - i,
{
    if i < s.len() && is_space(s[i]) {
        lemma_skip_ws_bounds(s, i + 1);
    }
}

pub fn exec_skip_ws(s: &Vec<char>, i: usize) -> (r: usize)
    requires
        i <= s.len(),
    ensures
        r == skip_ws(s@, i as int),
        i <= r <= s.len(),
{
    let mut j = i;
    while j < s.len() && exec_is_space(s[j])
        invariant
            i <= j <= s.len(),
            skip_ws(s@, i as int) == skip_ws(s@, j as int),
        decreases s.len() - j,
    {
        j = j + 1;
    }
    proof {
        lemma_skip_ws_bounds(s@, j as int);
    }
    j
}

/// A fresh copy of the characters of `s` between `a` (inclusive) and `b`
/// (exclusive).
pub fn copy_range(s: &Vec<char>, a: usize, b: usize) -> (r: Vec<char>)
    requires
        a <= b <= s.len(),
    ensures
        r@ == s@.subrange(a as int, b as int),
{
    let mut r: Vec<char> = Vec::new();
    let mut j = a;
    while j < b
        invariant
            a <= j <= b <= s.len(),
            r@ == s@.subrange(a as int, j as int),
        decreases b - j,
    {
        r.push(s[j]);
        proof {
            assert(r@ =~= s@.subrange(a as int, j + 1));
        }
        j = j + 1;
    }
    r
}

/// The characters of `s`, in order, as a vector.
pub fn chars_of(s: &str) -> (r: Vec<char>)
    ensures
        r@ == s@,
{
    let mut it = s.chars();
    let mut v: Vec<char> = Vec::new();
    loop
        invariant
            v@ + it.remaining() == s@,
            it.decrease() is Some,
        ensures
            v@ == s@,
        decreases it.decrease()->0,
    {
        match it.next() {
            Some(c) => {
                v.push(c);
                proof {
                    assert(v@ + it.remaining() =~= s@);
                }
            },
            None => {
                proof {
                    assert(v@ =~= s@);
                }
                break ;
            },
        }
    }
    v
}

/// Relies on `String: FromIterator<char>`: collecting an iterator of
/// characters builds the string holding exactly those characters in order.
#[verifier::external_body]
pub fn string_from_chars(v: &Vec<char>) -> (r: String)
    ensures
        r@ == v@,
{
    v.iter().collect()
}

/// The substring of `s` from `a` (inclusive) to `b` (exclusive), as an
/// owned string.
pub fn string_range(s: &Vec<char>, a: usize, b: usize) -> (r: String)
    requires
        a <= b <= s.len(),
    ensures
        r@ == s@.subrange(a as int, b as int),
{
    let part = copy_range(s, a, b);
    string_from_chars(&part)
}

} // verus!
