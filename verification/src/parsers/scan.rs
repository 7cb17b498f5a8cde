//! The delimiter scanner: finds the matching closing bracket or brace for an
//! opening one, tracking same-kind nesting depth and quoted-string state with
//! escape handling; and the companion scan for the unescaped closing quote of
//! a string.
//!
//! The scanner's behaviour is specified by a small per-character state
//! machine ([`ScanState`], [`scan_step`]) advanced over the text; the
//! executable scanners are proved to return exactly the position that the
//! specification designates.

use vstd::prelude::*;

verus! {

/// What went wrong during a parse, and where.
#[derive(Debug, Clone, Copy, PartialEq, Eq, Structural)]
pub enum ParseErrorKind {
    /// The input ended before the closing delimiter or quote of an opened
    /// enclosure was found.
    UnterminatedEnclosure,
    /// A character other than the expected one was found.
    UnexpectedChar,
    /// The input ended where more input was expected.
    UnexpectedEnd,
}

/// A located parse error: the kind of failure and the character offset into
/// the input at which the unconsumed remainder begins.
#[derive(Debug, Clone, Copy, PartialEq, Eq, Structural)]
pub struct ParseError {
    pub kind: ParseErrorKind,
    pub offset: usize,
}

/// The scanner's per-character state: nesting depth of the sought delimiter
/// kind, whether the scan is inside a quoted string, and whether a backslash
/// has made the next character literal.
pub ghost struct ScanState {
    pub depth: nat,
    pub in_string: bool,
    pub escape: bool,
}

impl ScanState {
    /// The state just after an opening delimiter: depth zero, outside any
    /// string, no escape pending.
    pub open spec fn initial() -> ScanState {
        ScanState { depth: 0, in_string: false, escape: false }
    }
}

/// One step of the scanner over character `c`, looking for the delimiter
/// pair `open`/`close`. An escaped character is consumed literally; a quote
/// toggles string state; inside a string a backslash arms the escape; outside
/// a string the sought delimiters adjust the depth, which saturates at zero.
pub open spec fn scan_step(st: ScanState, c: char, open: char, close: char) -> ScanState {
    if st.escape {
        ScanState { escape: false, ..st }
    } else if st.in_string {
        if c == '\\' {
            ScanState { escape: true, ..st }
        } else if c == '"' {
            ScanState { in_string: false, ..st }
        } else {
            st
        }
    } else {
        if c == '"' {
            ScanState { in_string: true, ..st }
        } else if c == open {
            ScanState { depth: st.depth + 1, ..st }
        } else if c == close {
            ScanState { depth: if st.depth > 0 { (st.depth - 1) as nat } else { 0 }, ..st }
        } else {
            st
        }
    }
}

/// The index of the closing delimiter that matches an enclosure opened just
/// before `i`: the first position at or after `i` holding `close` while the
/// scan state has depth zero, is outside a string, and has no escape pending.
/// `None` if the input ends first.
pub open spec fn close_index(
    s: Seq<char>,
    i: int,
    st: ScanState,
    open: char,
    close: char,
) -> Option<int>
    decreases s.len() - i,
{
    if i < 0 || i >= s.len() {
        None
    } else if !st.escape && !st.in_string && st.depth == 0 && s[i] == close {
        Some(i)
    } else {
        close_index(s, i + 1, scan_step(st, s[i], open, close), open, close)
    }
}

pub proof fn lemma_close_index_bounds(
    s: Seq<char>,
    i: int,
    st: ScanState,
    open: char,
    close: char,
)
    ensures
        close_index(s, i, st, open, close) matches Some(j) ==> i <= j < s.len() && s[j] == close,
    decreases s.len() - i,
{
    if 0 <= i < s.len() {
        lemma_close_index_bounds(s, i + 1, scan_step(st, s[i], open, close), open, close);
    }
}

/// The index of the unescaped closing quote of a string whose opening quote
/// stands just before `i`; `None` if the input ends first. A backslash makes
/// the following character literal.
pub open spec fn string_close_index(s: Seq<char>, i: int, escape: bool) -> Option<int>
    decreases s.len() - i,
{
    if i < 0 || i >= s.len() {
        None
    } else if escape {
        string_close_index(s, i + 1, false)
    } else if s[i] == '"' {
        Some(i)
    } else if s[i] == '\\' {
        string_close_index(s, i + 1, true)
    } else {
        string_close_index(s, i + 1, false)
    }
}

pub proof fn lemma_string_close_index_bounds(s: Seq<char>, i: int, escape: bool)
    ensures
        string_close_index(s, i, escape) matches Some(j) ==> i <= j < s.len() && s[j] == '"',
    decreases s.len() - i,
{
    if 0 <= i < s.len() {
        if escape {
            lemma_string_close_index_bounds(s, i + 1, false);
        } else if s[i] == '"' {
        } else if s[i] == '\\' {
            lemma_string_close_index_bounds(s, i + 1, true);
        } else {
            lemma_string_close_index_bounds(s, i + 1, false);
        }
    }
}

/// Scan forward from `start` for the closing delimiter matching an enclosure
/// opened just before `start`, nesting-aware and quote-aware.
pub fn scan_close(s: &Vec<char>, start: usize, open: char, close: char) -> (r: Option<usize>)
    requires
        start <= s.len(),
    ensures
        match r {
            Some(j) => start <= j < s.len() && close_index(
                s@,
                start as int,
                ScanState::initial(),
                open,
                close,
            ) == Some(j as int),
            None => close_index(s@, start as int, ScanState::initial(), open, close) is None,
        },
{
    let mut i = start;
    let mut depth: usize = 0;
    let mut in_string = false;
    let mut escape = false;
    while i < s.len()
        invariant
            start <= i <= s.len(),
            depth <= i - start,
            close_index(s@, start as int, ScanState::initial(), open, close) == close_index(
                s@,
                i as int,
                ScanState { depth: depth as nat, in_string, escape },
                open,
                close,
            ),
        decreases s.len() - i,
    {
        let c = s[i];
        if !escape && !in_string && depth == 0 && c == close {
            return Some(i);
        }
        proof {
            assert(close_index(
                s@,
                i as int,
                ScanState { depth: depth as nat, in_string, escape },
                open,
                close,
            ) == close_index(
                s@,
                i + 1,
                scan_step(ScanState { depth: depth as nat, in_string, escape }, s@[i as int], open, close),
                open,
                close,
            ));
        }
        if escape {
            escape = false;
        } else if in_string {
            if c == '\\' {
                escape = true;
            } else if c == '"' {
                in_string = false;
            }
        } else {
            if c == '"' {
                in_string = true;
            } else if c == open {
                depth = depth + 1;
            } else if c == close {
                if depth > 0 {
                    depth = depth - 1;
                }
            }
        }
        i = i + 1;
    }
    None
}

/// Scan forward from `start` for the unescaped quote closing a string whose
/// opening quote stands just before `start`.
pub fn scan_string_close(s: &Vec<char>, start: usize) -> (r: Option<usize>)
    requires
        start <= s.len(),
    ensures
        match r {
            Some(j) => start <= j < s.len() && string_close_index(s@, start as int, false) == Some(
                j as int,
            ),
            None => string_close_index(s@, start as int, false) is None,
        },
{
    let mut i = start;
    let mut escape = false;
    while i < s.len()
        invariant
            start <= i <= s.len(),
            string_close_index(s@, start as int, false) == string_close_index(
                s@,
                i as int,
                escape,
            ),
        decreases s.len() - i,
    {
        let c = s[i];
        if escape {
            escape = false;
        } else if c == '"' {
            return Some(i);
        } else if c == '\\' {
            escape = true;
        }
        i = i + 1;
    }
    None
}

} // verus!
