//! The property-line assembler, the section parser, and the file parser.
//!
//! A file is an optional preamble property list followed by sections. A
//! section is a header line `[type prop=val ...]` and a body of property
//! lines. A logical property line may span several physical lines while a
//! quoted string, brace literal, or bracket literal stays open; the
//! assembler joins such lines with a single newline. A body line that is not
//! a valid property list ends the section without being consumed; a header
//! whose bracket never closes aborts the whole parse with an
//! unterminated-enclosure error.

use vstd::prelude::*;

use crate::parsers::parser_header::{exec_ident_end, ident_end};
use crate::parsers::parser_property::{
    exec_props_list, properties_spec, props_list, SpecProperty, UntypedProperty,
};
use crate::parsers::scan::{close_index, scan_close, ScanState};
use crate::parsers::scan::{ParseError, ParseErrorKind};
use crate::text::{
    chars_of, copy_range, exec_skip_ws, lemma_skip_ws_bounds, skip_ws, string_range,
};
use vstd::string::StringExecFns;

verus! {

/// One section: its header type and its properties, header properties first,
/// then body properties, all in original order. Duplicate keys are
/// preserved; by convention a lookup by key takes the first match.
#[derive(Debug, PartialEq, Clone)]
pub struct Section {
    pub header_type: String,
    pub properties: Vec<UntypedProperty>,
}

/// A parsed file: the properties standing before the first section header,
/// and every section in original order.
#[derive(Debug, PartialEq, Clone)]
pub struct PropertyFile {
    pub preamble_properties: Vec<UntypedProperty>,
    pub sections: Vec<Section>,
}

/// The mathematical content of a [`Section`].
#[verifier::ext_equal]
pub ghost struct SpecSection {
    pub header_type: Seq<char>,
    pub properties: Seq<SpecProperty>,
}

/// The mathematical content of a [`PropertyFile`].
#[verifier::ext_equal]
pub ghost struct SpecPropertyFile {
    pub preamble_properties: Seq<SpecProperty>,
    pub sections: Seq<SpecSection>,
}

impl View for Section {
    type V = SpecSection;

    open spec fn view(&self) -> SpecSection {
        SpecSection {
            header_type: self.header_type@,
            properties: self.properties.deep_view(),
        }
    }
}

impl DeepView for Section {
    type V = SpecSection;

    open spec fn deep_view(&self) -> SpecSection {
        self.view()
    }
}

impl View for PropertyFile {
    type V = SpecPropertyFile;

    open spec fn view(&self) -> SpecPropertyFile {
        SpecPropertyFile {
            preamble_properties: self.preamble_properties.deep_view(),
            sections: self.sections.deep_view(),
        }
    }
}

impl DeepView for PropertyFile {
    type V = SpecPropertyFile;

    open spec fn deep_view(&self) -> SpecPropertyFile {
        self.view()
    }
}

/// A fresh copy of a section, equal to the original in content.
pub fn clone_section(sec: &Section) -> (r: Section)
    ensures
        r@ == sec@,
{
    let mut properties: Vec<UntypedProperty> = Vec::new();
    let mut i: usize = 0;
    while i < sec.properties.len()
        invariant
            i <= sec.properties.len(),
            properties.deep_view() =~= sec.properties.deep_view().subrange(0, i as int),
        decreases sec.properties.len() - i,
    {
        let p = crate::parsers::parser_property::clone_prop(&sec.properties[i]);
        let ghost prev = properties.deep_view();
        properties.push(p);
        proof {
            assert(properties.deep_view() =~= prev + seq![p@]);
            assert(prev + seq![p@] =~= sec.properties.deep_view().subrange(0, i + 1));
        }
        i = i + 1;
    }
    proof {
        assert(sec.properties.deep_view().subrange(0, sec.properties.len() as int)
            =~= sec.properties.deep_view());
    }
    let r = Section { header_type: sec.header_type.clone(), properties };
    proof {
        assert(r@ =~= sec@);
    }
    r
}

/// Whether the section's header type reads exactly `name`.
pub fn section_has_type(sec: &Section, name: &str) -> (r: bool)
    ensures
        r == (sec@.header_type == name@),
{
    let n = String::from_str(name);
    sec.header_type == n
}

/// Index of the first line feed at or after `i` (or the end of the text).
pub open spec fn line_break(s: Seq<char>, i: int) -> int
    decreases s.len() - i,
{
    if i < 0 || i >= s.len() || s[i] == '\n' {
        i
    } else {
        line_break(s, i + 1)
    }
}

pub proof fn lemma_line_break_bounds(s: Seq<char>, i: int)
    ensures
        i <= line_break(s, i),
        i <= s.len() ==> line_break(s, i) <= s.len(),
        line_break(s, i) < s.len() && i <= line_break(s, i) ==> (0 <= line_break(s, i)
            ==> s[line_break(s, i)] == '\n'),
    decreases s.len() - i,
{
    if 0 <= i < s.len() && s[i] != '\n' {
        lemma_line_break_bounds(s, i + 1);
    }
}

pub fn exec_line_break(s: &Vec<char>, i: usize) -> (r: usize)
    requires
        i <= s.len(),
    ensures
        r == line_break(s@, i as int),
        i <= r <= s.len(),
{
    let mut j: usize = i;
    while j < s.len() && s[j] != '\n'
        invariant
            i <= j <= s.len(),
            line_break(s@, i as int) == line_break(s@, j as int),
        decreases s.len() - j,
    {
        j = j + 1;
    }
    j
}

/// End of the content of the physical line starting at `i`: the line feed
/// position, stepping back over one carriage return so that CRLF line
/// endings leave no `\r` in the content.
pub open spec fn content_end(s: Seq<char>, i: int) -> int {
    let e = line_break(s, i);
    if e > i && 0 <= e - 1 < s.len() && s[e - 1] == '\r' {
        e - 1
    } else {
        e
    }
}

/// The content of the physical line starting at `i`, without its line
/// terminator.
pub open spec fn line_content(s: Seq<char>, i: int) -> Seq<char> {
    s.subrange(i, content_end(s, i))
}

/// The position just after the physical line starting at `i`: past the line
/// feed, or the end of the text for a final line without one.
pub open spec fn line_next(s: Seq<char>, i: int) -> int {
    let e = line_break(s, i);
    if e < s.len() {
        e + 1
    } else {
        e
    }
}

pub proof fn lemma_line_bounds(s: Seq<char>, i: int)
    requires
        0 <= i <= s.len(),
    ensures
        i <= content_end(s, i) <= line_break(s, i) <= s.len(),
        line_next(s, i) <= s.len(),
        i < s.len() ==> i < line_next(s, i),
        i == s.len() ==> line_next(s, i) == i,
{
    lemma_line_break_bounds(s, i);
}

/// The assembler's state carried across physical lines: whether a quoted
/// string is open, whether a backslash has made the next character literal,
/// and the open brace and bracket depths, each saturating at zero.
pub ghost struct LineState {
    pub in_string: bool,
    pub escape: bool,
    pub brace: nat,
    pub bracket: nat,
}

impl LineState {
    pub open spec fn initial() -> LineState {
        LineState { in_string: false, escape: false, brace: 0, bracket: 0 }
    }
}

/// One step of the assembler's scan over character `c`.
pub open spec fn line_step(st: LineState, c: char) -> LineState {
    if st.escape {
        LineState { escape: false, ..st }
    } else if st.in_string {
        if c == '\\' {
            LineState { escape: true, ..st }
        } else if c == '"' {
            LineState { in_string: false, ..st }
        } else {
            st
        }
    } else {
        if c == '"' {
            LineState { in_string: true, ..st }
        } else if c == '{' {
            LineState { brace: st.brace + 1, ..st }
        } else if c == '}' {
            LineState { brace: if st.brace > 0 { (st.brace - 1) as nat } else { 0 }, ..st }
        } else if c == '[' {
            LineState { bracket: st.bracket + 1, ..st }
        } else if c == ']' {
            LineState { bracket: if st.bracket > 0 { (st.bracket - 1) as nat } else { 0 }, ..st }
        } else {
            st
        }
    }
}

/// The assembler's scan folded over a whole text.
pub open spec fn line_scan(st: LineState, t: Seq<char>) -> LineState
    decreases t.len(),
{
    if t.len() == 0 {
        st
    } else {
        line_scan(line_step(st, t[0]), t.drop_first())
    }
}

pub proof fn lemma_line_scan_snoc(st: LineState, t: Seq<char>, c: char)
    ensures
        line_scan(st, t.push(c)) == line_step(line_scan(st, t), c),
    decreases t.len(),
{
    reveal_with_fuel(line_scan, 3);
    if t.len() == 0 {
        assert(t.push(c)[0] == c);
        assert(t.push(c).drop_first() =~= Seq::<char>::empty());
    } else {
        assert(t.push(c)[0] == t[0]);
        assert(t.push(c).drop_first() =~= t.drop_first().push(c));
        lemma_line_scan_snoc(line_step(st, t[0]), t.drop_first(), c);
    }
}

/// A logical line is complete when no string is open and both depths are
/// zero.
pub open spec fn line_closed(st: LineState) -> bool {
    !st.in_string && st.brace == 0 && st.bracket == 0
}

/// Assemble one logical property line starting at `p` with carried state
/// `st`: take physical lines, joined by a single newline, until after some
/// line the state is closed or the input is exhausted. Returns the position
/// after the last physical line taken and the joined text.
pub open spec fn assemble(s: Seq<char>, p: int, st: LineState) -> (int, Seq<char>)
    decreases s.len() - p,
{
    let content = line_content(s, p);
    let nxt = line_next(s, p);
    let st2 = line_scan(st, content);
    if line_closed(st2) || nxt >= s.len() {
        (nxt, content)
    } else {
        proof {
            lemma_line_break_bounds(s, p);
        }
        let rest = assemble(s, nxt, st2);
        (rest.0, content + seq!['\n'] + rest.1)
    }
}

pub proof fn lemma_assemble_bounds(s: Seq<char>, p: int, st: LineState)
    requires
        0 <= p <= s.len(),
    ensures
        p <= assemble(s, p, st).0 <= s.len(),
        p < s.len() ==> p < assemble(s, p, st).0,
    decreases s.len() - p,
{
    lemma_line_bounds(s, p);
    let nxt = line_next(s, p);
    let st2 = line_scan(st, line_content(s, p));
    if !(line_closed(st2) || nxt >= s.len()) {
        lemma_assemble_bounds(s, nxt, st2);
    }
}

/// Assemble one logical property line starting at `p`, beginning from the
/// initial (closed) state.
pub fn exec_assemble(s: &Vec<char>, p: usize) -> (r: (usize, Vec<char>))
    requires
        p <= s.len(),
    ensures
        r.0 as int == assemble(s@, p as int, LineState::initial()).0,
        r.1@ == assemble(s@, p as int, LineState::initial()).1,
        p <= r.0 <= s.len(),
{
    proof {
        lemma_assemble_bounds(s@, p as int, LineState::initial());
    }
    let mut acc: Vec<char> = Vec::new();
    let mut cur: usize = p;
    let mut in_string = false;
    let mut escape = false;
    let mut brace: usize = 0;
    let mut bracket: usize = 0;
    let mut first = true;
    loop
        invariant_except_break
            brace <= cur,
            bracket <= cur,
            ({
                let st = LineState {
                    in_string,
                    escape,
                    brace: brace as nat,
                    bracket: bracket as nat,
                };
                let full = assemble(s@, p as int, LineState::initial());
                let rem = assemble(s@, cur as int, st);
                &&& full.0 == rem.0
                &&& if first {
                    cur == p && acc@ == Seq::<char>::empty() && st == LineState::initial()
                } else {
                    full.1 == acc@ + seq!['\n'] + rem.1
                }
            }),
        invariant
            p <= cur <= s.len(),
        ensures
            acc@ == assemble(s@, p as int, LineState::initial()).1,
            cur as int == assemble(s@, p as int, LineState::initial()).0,
            p <= cur <= s.len(),
        decreases s.len() - cur,
    {
        let ghost st_entry = LineState {
            in_string,
            escape,
            brace: brace as nat,
            bracket: bracket as nat,
        };
        let ghost acc_entry = acc@;
        proof {
            lemma_line_bounds(s@, cur as int);
        }
        let e = exec_line_break(s, cur);
        let ce = if e > cur && s[e - 1] == '\r' {
            e - 1
        } else {
            e
        };
        proof {
            assert(ce as int == content_end(s@, cur as int));
        }
        let nxt = if e < s.len() {
            e + 1
        } else {
            e
        };
        if !first {
            acc.push('\n');
        }
        let ghost acc_joined = acc@;
        // scan and append the content of this physical line
        let mut k = cur;
        while k < ce
            invariant
                cur <= k <= ce <= s.len(),
                brace <= k,
                bracket <= k,
                acc@ == acc_joined + s@.subrange(cur as int, k as int),
                (LineState { in_string, escape, brace: brace as nat, bracket: bracket as nat })
                    == line_scan(st_entry, s@.subrange(cur as int, k as int)),
            decreases ce - k,
        {
            let c = s[k];
            proof {
                lemma_line_scan_snoc(st_entry, s@.subrange(cur as int, k as int), c);
                assert(s@.subrange(cur as int, k + 1) =~= s@.subrange(cur as int, k as int).push(
                    c,
                ));
            }
            acc.push(c);
            if escape {
                escape = false;
            } else if in_string {
                if c == '\\' {
                    escape = true;
                } else if c == '"' {
                    in_string = false;
                }
            } else {
                if c == '"' {
                    in_string = true;
                } else if c == '{' {
                    brace = brace + 1;
                } else if c == '}' {
                    if brace > 0 {
                        brace = brace - 1;
                    }
                } else if c == '[' {
                    bracket = bracket + 1;
                } else if c == ']' {
                    if bracket > 0 {
                        bracket = bracket - 1;
                    }
                }
            }
            k = k + 1;
        }
        proof {
            assert(s@.subrange(cur as int, ce as int) =~= line_content(s@, cur as int));
        }
        let ghost st2 = line_scan(st_entry, line_content(s@, cur as int));
        proof {
            assert(LineState { in_string, escape, brace: brace as nat, bracket: bracket as nat }
                == st2);
        }
        if (!in_string && brace == 0 && bracket == 0) || nxt >= s.len() {
            proof {
                let full = assemble(s@, p as int, LineState::initial());
                let rem = assemble(s@, cur as int, st_entry);
                assert(rem.0 == nxt as int && rem.1 == line_content(s@, cur as int));
                if first {
                    assert(acc@ =~= rem.1);
                } else {
                    assert(acc_entry + seq!['\n'] + rem.1 =~= acc@);
                }
            }
            cur = nxt;
            break ;
        }
        proof {
            let rem = assemble(s@, cur as int, st_entry);
            let rem2 = assemble(s@, nxt as int, st2);
            assert(rem.0 == rem2.0);
            assert(rem.1 == line_content(s@, cur as int) + seq!['\n'] + rem2.1);
            if first {
                assert(acc@ + seq!['\n'] + rem2.1 =~= rem.1);
            } else {
                let full = assemble(s@, p as int, LineState::initial());
                assert(acc@ =~= acc_entry + seq!['\n'] + line_content(s@, cur as int));
                assert(acc_entry + seq!['\n'] + rem.1 =~= acc@ + seq!['\n'] + rem2.1);
            }
        }
        first = false;
        cur = nxt;
    }
    (cur, acc)
}

/// A line is skippable: its first non-whitespace character is the comment
/// marker `;`, or it has none.
pub open spec fn is_comment_or_blank(t: Seq<char>) -> bool {
    let j = skip_ws(t, 0);
    j >= t.len() || t[j] == ';'
}

/// A logical line is a valid property list when the list is nonempty and
/// only whitespace follows it.
pub open spec fn line_is_property_list(t: Seq<char>) -> bool {
    let lst = properties_spec(t, 0);
    lst.1.len() > 0 && skip_ws(t, lst.0) == t.len()
}

/// The body of a section starting at `p`: repeatedly skip whitespace, stop
/// at the end of input or at a line opening a new header, assemble a logical
/// line, skip it when blank or comment, take its properties when it is a
/// valid property list, and otherwise stop without consuming the line or
/// the whitespace before it.
pub open spec fn parse_body(s: Seq<char>, p: int) -> (int, Seq<SpecProperty>)
    decreases s.len() - p,
{
    let q = skip_ws(s, p);
    if !(p <= q <= s.len()) {
        (p, Seq::empty())
    } else if q >= s.len() || s[q] == '[' {
        (q, Seq::empty())
    } else {
        let a = assemble(s, q, LineState::initial());
        if !(p < a.0 <= s.len()) {
            (p, Seq::empty())
        } else if is_comment_or_blank(a.1) {
            parse_body(s, a.0)
        } else if line_is_property_list(a.1) {
            let lst = properties_spec(a.1, 0);
            let rest = parse_body(s, a.0);
            (rest.0, lst.1 + rest.1)
        } else {
            (p, Seq::empty())
        }
    }
}

pub proof fn lemma_parse_body_bounds(s: Seq<char>, p: int)
    requires
        0 <= p <= s.len(),
    ensures
        p <= parse_body(s, p).0 <= s.len(),
    decreases s.len() - p,
{
    lemma_skip_ws_bounds(s, p);
    let q = skip_ws(s, p);
    if q < s.len() && s[q] != '[' {
        lemma_assemble_bounds(s, q, LineState::initial());
        let a = assemble(s, q, LineState::initial());
        if p < a.0 <= s.len() {
            lemma_parse_body_bounds(s, a.0);
        }
    }
}

/// Parse the body of a section starting at `p`: the parsed properties and
/// the position where the body ends.
pub fn exec_parse_body(s: &Vec<char>, p: usize) -> (r: (usize, Vec<UntypedProperty>))
    requires
        p <= s.len(),
    ensures
        r.0 as int == parse_body(s@, p as int).0,
        r.1.deep_view() == parse_body(s@, p as int).1,
        p <= r.0 <= s.len(),
{
    let mut props: Vec<UntypedProperty> = Vec::new();
    let mut cur: usize = p;
    loop
        invariant
            p <= cur <= s.len(),
            parse_body(s@, p as int).0 == parse_body(s@, cur as int).0,
            parse_body(s@, p as int).1 =~= props.deep_view() + parse_body(s@, cur as int).1,
        ensures
            cur as int == parse_body(s@, p as int).0,
            props.deep_view() =~= parse_body(s@, p as int).1,
            p <= cur <= s.len(),
        decreases s.len() - cur,
    {
        proof {
            lemma_skip_ws_bounds(s@, cur as int);
            lemma_parse_body_bounds(s@, cur as int);
        }
        let q = exec_skip_ws(s, cur);
        if q >= s.len() || s[q] == '[' {
            proof {
                assert(parse_body(s@, cur as int) == (q as int, Seq::<SpecProperty>::empty()));
                assert(props.deep_view() + Seq::<SpecProperty>::empty() =~= props.deep_view());
            }
            cur = q;
            break ;
        }
        proof {
            lemma_assemble_bounds(s@, q as int, LineState::initial());
        }
        let (nxt, line) = exec_assemble(s, q);
        let lj = exec_skip_ws(&line, 0);
        if lj >= line.len() || line[lj] == ';' {
            // blank or comment line: skip it
            proof {
                assert(is_comment_or_blank(line@));
                assert(parse_body(s@, cur as int) == parse_body(s@, nxt as int));
            }
            cur = nxt;
            continue ;
        }
        let (le, mut ps) = exec_props_list(&line, lj);
        let ghost lst = properties_spec(line@, 0);
        proof {
            assert(lst.1 =~= props_list(line@, lj as int).1);
            if ps.len() > 0 {
                assert(lst == props_list(line@, lj as int));
            }
        }
        if ps.len() > 0 && exec_skip_ws(&line, le) == line.len() {
            let ghost prev = props.deep_view();
            props.append(&mut ps);
            proof {
                assert(line_is_property_list(line@));
                assert(props.deep_view() =~= prev + lst.1);
                let rest = parse_body(s@, nxt as int);
                assert(prev + (lst.1 + rest.1) =~= (prev + lst.1) + rest.1);
            }
            cur = nxt;
        } else {
            proof {
                assert(!line_is_property_list(line@));
                assert(parse_body(s@, cur as int) == (
                    cur as int,
                    Seq::<SpecProperty>::empty(),
                ));
                assert(props.deep_view() + Seq::<SpecProperty>::empty() =~= props.deep_view());
            }
            break ;
        }
    }
    (cur, props)
}

/// Position after the run of blank or comment lines starting at `p`; only a
/// line terminated by a line feed is skipped.
pub open spec fn skip_blank_lines(s: Seq<char>, p: int) -> int
    decreases s.len() - p,
{
    if 0 <= p < s.len() {
        let e = line_break(s, p);
        if e < s.len() && p < e + 1 && is_comment_or_blank(line_content(s, p)) {
            skip_blank_lines(s, e + 1)
        } else {
            p
        }
    } else {
        p
    }
}

pub proof fn lemma_skip_blank_lines_bounds(s: Seq<char>, p: int)
    requires
        0 <= p <= s.len(),
    ensures
        p <= skip_blank_lines(s, p) <= s.len(),
    decreases s.len() - p,
{
    if 0 <= p < s.len() {
        lemma_line_break_bounds(s, p);
        let e = line_break(s, p);
        if e < s.len() && p < e + 1 && is_comment_or_blank(line_content(s, p)) {
            lemma_skip_blank_lines_bounds(s, e + 1);
        }
    }
}

pub fn exec_skip_blank_lines(s: &Vec<char>, p: usize) -> (r: usize)
    requires
        p <= s.len(),
    ensures
        r as int == skip_blank_lines(s@, p as int),
        p <= r <= s.len(),
{
    proof {
        lemma_skip_blank_lines_bounds(s@, p as int);
    }
    let mut cur: usize = p;
    loop
        invariant
            p <= cur <= s.len(),
            skip_blank_lines(s@, p as int) == skip_blank_lines(s@, cur as int),
        ensures
            cur as int == skip_blank_lines(s@, p as int),
        decreases s.len() - cur,
    {
        if cur >= s.len() {
            break ;
        }
        proof {
            lemma_line_bounds(s@, cur as int);
        }
        let e = exec_line_break(s, cur);
        if e >= s.len() {
            proof {
                assert(skip_blank_lines(s@, cur as int) == cur as int);
            }
            break ;
        }
        let ce = if e > cur && s[e - 1] == '\r' {
            e - 1
        } else {
            e
        };
        proof {
            assert(ce as int == content_end(s@, cur as int));
        }
        let line = copy_range(s, cur, ce);
        proof {
            assert(line@ =~= line_content(s@, cur as int));
        }
        let lj = exec_skip_ws(&line, 0);
        if lj >= line.len() || line[lj] == ';' {
            proof {
                assert(is_comment_or_blank(line_content(s@, cur as int)));
            }
            cur = e + 1;
        } else {
            proof {
                assert(!is_comment_or_blank(line_content(s@, cur as int)));
                assert(skip_blank_lines(s@, cur as int) == cur as int);
            }
            break ;
        }
    }
    cur
}

/// What parsing one section yields: the section and the position after its
/// body; or no section at this position; or a header whose enclosure never
/// closes, located at the start of the header line.
pub ghost enum SectionOutcome {
    Found { next: int, section: SpecSection },
    NoSection,
    Unterminated { at: int },
}

/// The section starting at `p`: after skipping blank and comment lines, a
/// header line `[` + identifier + properties + matching `]`, then a body.
/// The matching close of the header is found within the header line by the
/// nesting-aware scanner; text after it on the header line is discarded.
/// Header properties are the property-list parse of the header interior.
pub open spec fn section_at(s: Seq<char>, p: int) -> SectionOutcome {
    let q = skip_blank_lines(s, p);
    let hl = line_content(s, q);
    let hn = line_next(s, q);
    if hl.len() == 0 || hl[0] != '[' {
        SectionOutcome::NoSection
    } else {
        let te = ident_end(hl, 1);
        if te == 1 {
            SectionOutcome::NoSection
        } else {
            let w = skip_ws(hl, te);
            let htype = hl.subrange(1, te);
            if 0 <= w < hl.len() && hl[w] == ']' {
                let body = parse_body(s, hn);
                SectionOutcome::Found {
                    next: body.0,
                    section: SpecSection { header_type: htype, properties: body.1 },
                }
            } else {
                match close_index(hl, w, ScanState::initial(), '[', ']') {
                    None => SectionOutcome::Unterminated { at: q },
                    Some(j) => {
                        let hprops = properties_spec(hl.subrange(w, j), 0).1;
                        let body = parse_body(s, hn);
                        SectionOutcome::Found {
                            next: body.0,
                            section: SpecSection {
                                header_type: htype,
                                properties: hprops + body.1,
                            },
                        }
                    },
                }
            }
        }
    }
}

pub proof fn lemma_section_at_advances(s: Seq<char>, p: int)
    requires
        0 <= p <= s.len(),
    ensures
        section_at(s, p) matches SectionOutcome::Found { next, .. } ==> p < next <= s.len(),
        section_at(s, p) matches SectionOutcome::Unterminated { at } ==> p <= at <= s.len(),
{
    lemma_skip_blank_lines_bounds(s, p);
    let q = skip_blank_lines(s, p);
    lemma_line_bounds(s, q);
    let hn = line_next(s, q);
    let hl = line_content(s, q);
    if hl.len() > 0 {
        assert(q < s.len());
        lemma_parse_body_bounds(s, hn);
    }
}

/// Parse one section starting at `p`. `Ok(None)` means no section starts
/// here; an unterminated header enclosure is a fatal error.
pub fn exec_section_at(s: &Vec<char>, p: usize) -> (r: Result<Option<(usize, Section)>, ParseError>)
    requires
        p <= s.len(),
    ensures
        match r {
            Ok(Some(found)) => {
                &&& section_at(s@, p as int) matches SectionOutcome::Found { next, section }
                    && next == found.0 as int && section == found.1@
                &&& p < found.0 <= s.len()
            },
            Ok(None) => section_at(s@, p as int) is NoSection,
            Err(e) => {
                &&& section_at(s@, p as int) matches SectionOutcome::Unterminated { at } && at
                    == e.offset as int
                &&& e.kind == ParseErrorKind::UnterminatedEnclosure
            },
        },
{
    proof {
        lemma_section_at_advances(s@, p as int);
        lemma_skip_blank_lines_bounds(s@, p as int);
    }
    let q = exec_skip_blank_lines(s, p);
    proof {
        lemma_line_bounds(s@, q as int);
    }
    let e = exec_line_break(s, q);
    let ce = if e > q && s[e - 1] == '\r' {
        e - 1
    } else {
        e
    };
    proof {
        assert(ce as int == content_end(s@, q as int));
    }
    let hn = if e < s.len() {
        e + 1
    } else {
        e
    };
    let hl = copy_range(s, q, ce);
    proof {
        assert(hl@ =~= line_content(s@, q as int));
        assert(hn as int == line_next(s@, q as int));
    }
    if hl.len() == 0 || hl[0] != '[' {
        return Ok(None);
    }
    let te = exec_ident_end(&hl, 1);
    if te == 1 {
        return Ok(None);
    }
    let w = exec_skip_ws(&hl, te);
    let header_type = string_range(&hl, 1, te);
    let mut properties: Vec<UntypedProperty>;
    if w < hl.len() && hl[w] == ']' {
        properties = Vec::new();
    } else {
        match scan_close(&hl, w, '[', ']') {
            None => {
                return Err(
                    ParseError { kind: ParseErrorKind::UnterminatedEnclosure, offset: q },
                );
            },
            Some(j) => {
                let interior = copy_range(&hl, w, j);
                let ij = exec_skip_ws(&interior, 0);
                let (_ie, hp) = exec_props_list(&interior, ij);
                proof {
                    assert(hp.deep_view() =~= properties_spec(interior@, 0).1);
                }
                properties = hp;
            },
        }
    }
    let ghost hprops = properties.deep_view();
    let (bnext, mut bprops) = exec_parse_body(s, hn);
    properties.append(&mut bprops);
    let section = Section { header_type, properties };
    proof {
        assert(section@.properties =~= hprops + parse_body(s@, hn as int).1);
        match section_at(s@, p as int) {
            SectionOutcome::Found { next, section: spec_section } => {
                assert(section@ =~= spec_section);
            },
            _ => {},
        }
    }
    Ok(Some((bnext, section)))
}

/// What parsing the run of sections yields: the sections and the position
/// after the last one, or the located unterminated-enclosure failure.
pub ghost enum SectionsOutcome {
    Done { next: int, sections: Seq<SpecSection> },
    Unterminated { at: int },
}

/// Zero or more sections starting at `p`, ending where no section starts.
pub open spec fn sections_from(s: Seq<char>, p: int) -> SectionsOutcome
    decreases s.len() - p,
{
    match section_at(s, p) {
        SectionOutcome::NoSection => SectionsOutcome::Done { next: p, sections: Seq::empty() },
        SectionOutcome::Unterminated { at } => SectionsOutcome::Unterminated { at },
        SectionOutcome::Found { next, section } => {
            if p < next <= s.len() {
                match sections_from(s, next) {
                    SectionsOutcome::Done { next: e, sections } => SectionsOutcome::Done {
                        next: e,
                        sections: seq![section] + sections,
                    },
                    SectionsOutcome::Unterminated { at } => SectionsOutcome::Unterminated { at },
                }
            } else {
                SectionsOutcome::Done { next: p, sections: Seq::empty() }
            }
        },
    }
}

/// What parsing a whole file yields.
pub ghost enum FileOutcome {
    Done { next: int, file: SpecPropertyFile },
    Unterminated { at: int },
}

/// A whole file: leading whitespace, an optional preamble property list,
/// zero or more sections, trailing whitespace. Only an unterminated header
/// enclosure makes the parse fail.
pub open spec fn property_file_spec(s: Seq<char>) -> FileOutcome {
    let j = skip_ws(s, 0);
    let pre = properties_spec(s, j);
    match sections_from(s, pre.0) {
        SectionsOutcome::Done { next, sections } => FileOutcome::Done {
            next: skip_ws(s, next),
            file: SpecPropertyFile { preamble_properties: pre.1, sections },
        },
        SectionsOutcome::Unterminated { at } => FileOutcome::Unterminated { at },
    }
}

/// Parse a whole property file: preamble properties, then sections, each
/// with its header and body properties, in original order. Returns the
/// unconsumed remainder (empty for a fully parsed file) together with the
/// parsed tree; fails only on an unterminated header enclosure, and then
/// returns no partial tree.
pub fn parse_property_file(input: &str) -> (r: Result<(String, PropertyFile), ParseError>)
    ensures
        match property_file_spec(input@) {
            FileOutcome::Done { next, file } => {
                &&& r matches Ok(done)
                &&& done.0@ == input@.subrange(next, input@.len() as int)
                &&& done.1.deep_view() == file
            },
            FileOutcome::Unterminated { at } => {
                &&& r matches Err(e)
                &&& e.kind == ParseErrorKind::UnterminatedEnclosure
                &&& e.offset as int == at
            },
        },
{
    let s = chars_of(input);
    proof {
        lemma_skip_ws_bounds(s@, 0);
    }
    let j = exec_skip_ws(&s, 0);
    let (pe, preamble) = exec_props_list(&s, j);
    let pre_end = if preamble.len() == 0 {
        j
    } else {
        pe
    };
    proof {
        assert(pre_end as int == properties_spec(s@, j as int).0);
        assert(preamble.deep_view() =~= properties_spec(s@, j as int).1);
    }
    let mut sections: Vec<Section> = Vec::new();
    let mut cur: usize = pre_end;
    loop
        invariant
            pre_end <= cur <= s.len(),
            s@ == input@,
            j as int == skip_ws(s@, 0),
            pre_end as int == properties_spec(s@, j as int).0,
            preamble.deep_view() == properties_spec(s@, j as int).1,
            match sections_from(s@, cur as int) {
                SectionsOutcome::Done { next, sections: rest } => sections_from(
                    s@,
                    pre_end as int,
                ) == (SectionsOutcome::Done { next, sections: sections.deep_view() + rest }),
                SectionsOutcome::Unterminated { at } => sections_from(s@, pre_end as int) == (
                SectionsOutcome::Unterminated { at }),
            },
        ensures
            sections_from(s@, pre_end as int) == (SectionsOutcome::Done {
                next: cur as int,
                sections: sections.deep_view(),
            }),
        decreases s.len() - cur,
    {
        match exec_section_at(&s, cur) {
            Err(e) => {
                return Err(e);
            },
            Ok(None) => {
                proof {
                    assert(sections.deep_view() + Seq::<SpecSection>::empty()
                        =~= sections.deep_view());
                }
                break ;
            },
            Ok(Some((next, sec))) => {
                let ghost prev = sections.deep_view();
                sections.push(sec);
                proof {
                    assert(sections.deep_view() =~= prev + seq![sec@]);
                    match sections_from(s@, next as int) {
                        SectionsOutcome::Done { next: e2, sections: rest } => {
                            assert(prev + (seq![sec@] + rest) =~= (prev + seq![sec@]) + rest);
                        },
                        SectionsOutcome::Unterminated { at } => {},
                    }
                }
                cur = next;
            },
        }
    }
    let fin = exec_skip_ws(&s, cur);
    let remaining = string_range(&s, fin, s.len());
    let file = PropertyFile { preamble_properties: preamble, sections };
    proof {
        match property_file_spec(s@) {
            FileOutcome::Done { next, file: spec_file } => {
                assert(file.deep_view() =~= spec_file);
            },
            FileOutcome::Unterminated { at } => {},
        }
    }
    Ok((remaining, file))
}

} // verus!
