//! Standalone header parser: reads `[type ...]` from the start of the input
//! and consumes through the matching closing bracket, using the
//! nesting-aware, quote-aware scanner so that array or dict values embedded
//! in the header are not mistaken for the header's own closing bracket.

use vstd::prelude::*;

use crate::parsers::scan::{close_index, scan_close, ScanState};
use crate::parsers::scan::{ParseError, ParseErrorKind};
use crate::text::{chars_of, exec_is_ident_char, is_ident_char, string_range};

verus! {

/// Index of the first character at or after `i` that is not an identifier
/// character (or the end of the text).
pub open spec fn ident_end(s: Seq<char>, i: int) -> int
    decreases s.len() - i,
{
    if i < 0 || i >= s.len() || !is_ident_char(s[i]) {
        i
    } else {
        ident_end(s, i + 1)
    }
}

pub proof fn lemma_ident_end_bounds(s: Seq<char>, i: int)
    requires
        0 <= i <= s.len(),
    ensures
        i <= ident_end(s, i) <= s.len(),
        forall|k: int| i <= k < ident_end(s, i) ==> is_ident_char(s[k]),
        ident_end(s, i) < s.len() ==> !is_ident_char(s[ident_end(s, i)]),
    decreases s.len() - i,
{
    if i < s.len() && is_ident_char(s[i]) {
        lemma_ident_end_bounds(s, i + 1);
    }
}

pub fn exec_ident_end(s: &Vec<char>, i: usize) -> (r: usize)
    requires
        i <= s.len(),
    ensures
        r == ident_end(s@, i as int),
        i <= r <= s.len(),
{
    let mut j: usize = i;
    while j < s.len() && exec_is_ident_char(s[j])
        invariant
            i <= j <= s.len(),
            ident_end(s@, i as int) == ident_end(s@, j as int),
        decreases s.len() - j,
    {
        j = j + 1;
    }
    proof {
        lemma_ident_end_bounds(s@, j as int);
    }
    j
}

/// What parsing a standalone header yields: the header type and the position
/// just past the matching closing bracket, or a located failure.
pub ghost enum HeaderOutcome {
    Parsed { next: int, header_type: Seq<char> },
    Fail { kind: ParseErrorKind, at: int },
}

/// The header at the start of `s`: `[`, a nonempty identifier run, then
/// anything through the matching closing bracket found by the scanner.
pub open spec fn header_spec(s: Seq<char>) -> HeaderOutcome {
    if s.len() == 0 {
        HeaderOutcome::Fail { kind: ParseErrorKind::UnexpectedEnd, at: 0 }
    } else if s[0] != '[' {
        HeaderOutcome::Fail { kind: ParseErrorKind::UnexpectedChar, at: 0 }
    } else {
        let te = ident_end(s, 1);
        if te == 1 {
            HeaderOutcome::Fail { kind: ParseErrorKind::UnexpectedChar, at: 1 }
        } else {
            match close_index(s, te, ScanState::initial(), '[', ']') {
                None => HeaderOutcome::Fail { kind: ParseErrorKind::UnterminatedEnclosure, at: te },
                Some(j) => HeaderOutcome::Parsed { next: j + 1, header_type: s.subrange(1, te) },
            }
        }
    }
}

/// Parse a header such as `[gdscene something=[1, 2, 3]]` from the start of
/// `input`: return the remaining input after the matching closing bracket
/// together with the header type (`gdscene`).
///
/// Fails with an unterminated-enclosure error when the input ends before the
/// matching close, and with an unexpected-character or unexpected-end error
/// when no `[`-plus-identifier header starts the input.
pub fn parse_header_type_and_consume_enclosure(input: &str) -> (r: Result<
    (String, String),
    ParseError,
>)
    ensures
        match header_spec(input@) {
            HeaderOutcome::Parsed { next, header_type } => {
                &&& r matches Ok(done)
                &&& done.0@ == input@.subrange(next, input@.len() as int)
                &&& done.1@ == header_type
            },
            HeaderOutcome::Fail { kind, at } => {
                &&& r matches Err(e)
                &&& e.kind == kind
                &&& e.offset as int == at
            },
        },
{
    let s = chars_of(input);
    if s.len() == 0 {
        return Err(ParseError { kind: ParseErrorKind::UnexpectedEnd, offset: 0 });
    }
    if s[0] != '[' {
        return Err(ParseError { kind: ParseErrorKind::UnexpectedChar, offset: 0 });
    }
    let te = exec_ident_end(&s, 1);
    if te == 1 {
        return Err(ParseError { kind: ParseErrorKind::UnexpectedChar, offset: 1 });
    }
    match scan_close(&s, te, '[', ']') {
        None => Err(ParseError { kind: ParseErrorKind::UnterminatedEnclosure, offset: te }),
        Some(j) => {
            let remaining = string_range(&s, j + 1, s.len());
            let header_type = string_range(&s, 1, te);
            Ok((remaining, header_type))
        },
    }
}

} // verus!
