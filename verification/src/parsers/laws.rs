//! Grammar laws: proofs that well-formed surface text parses back to exactly
//! the structure it denotes. Well-formed quoted strings, balanced
//! enclosures, properties and whole sections are described by small ghost
//! shapes (escape pieces, balanced trees, property sequences); each law
//! states that the parser, run on the flattened text of such a shape,
//! returns precisely its content.

use vstd::prelude::*;

use crate::parsers::parser_header::{header_spec, ident_end, HeaderOutcome};
use crate::parsers::parser_property_file::{
    content_end, is_comment_or_blank, line_break, line_content, line_next, parse_body,
    property_file_spec, section_at, sections_from, skip_blank_lines, FileOutcome, SectionOutcome,
    SectionsOutcome, SpecPropertyFile, SpecSection,
};
use crate::parsers::parser_property::{
    bare_end, ends_bare, key_end, properties_spec, property_at, props_list, props_tail,
    value_token, SpecProperty,
};
use crate::parsers::scan::{close_index, scan_step, string_close_index, ScanState};
use crate::text::{is_ident_char, is_key_char, is_space, skip_ws};

verus! {

/// One piece of the inside of a quoted string: a plain character (neither a
/// quote nor a backslash), or a backslash followed by any character.
pub ghost enum StrPiece {
    Plain { c: char },
    Escaped { c: char },
}

pub open spec fn piece_text(p: StrPiece) -> Seq<char> {
    match p {
        StrPiece::Plain { c } => seq![c],
        StrPiece::Escaped { c } => seq!['\\', c],
    }
}

pub open spec fn piece_ok(p: StrPiece) -> bool {
    match p {
        StrPiece::Plain { c } => c != '"' && c != '\\',
        StrPiece::Escaped { c: _ } => true,
    }
}

/// The inside of a quoted string, flattened to its surface text.
pub open spec fn pieces_text(ps: Seq<StrPiece>) -> Seq<char>
    decreases ps.len(),
{
    if ps.len() == 0 {
        Seq::empty()
    } else {
        piece_text(ps[0]) + pieces_text(ps.drop_first())
    }
}

pub open spec fn pieces_ok(ps: Seq<StrPiece>) -> bool {
    forall|k: int| 0 <= k < ps.len() ==> piece_ok(#[trigger] ps[k])
}

/// The string-end scan passes over the flattened pieces without finding a
/// closing quote: every quote inside is escaped.
pub proof fn lemma_string_scan_pieces(s: Seq<char>, i: int, ps: Seq<StrPiece>)
    requires
        pieces_ok(ps),
        0 <= i,
        i + pieces_text(ps).len() <= s.len(),
        s.subrange(i, i + pieces_text(ps).len()) == pieces_text(ps),
    ensures
        string_close_index(s, i, false) == string_close_index(
            s,
            i + pieces_text(ps).len(),
            false,
        ),
    decreases ps.len(),
{
    reveal_with_fuel(string_close_index, 3);
    if ps.len() > 0 {
        let t = pieces_text(ps);
        let rest = ps.drop_first();
        let rt = pieces_text(rest);
        assert(piece_ok(ps[0]));
        match ps[0] {
            StrPiece::Plain { c } => {
                assert(t == seq![c] + rt);
                assert(s[i] == s.subrange(i, i + t.len())[0]);
                assert(s[i] == c);
                assert(s.subrange(i + 1, i + 1 + rt.len()) =~= rt) by {
                    assert(forall|k: int|
                        0 <= k < rt.len() ==> s.subrange(i, i + t.len())[k + 1] == #[trigger] rt[k]);
                }
                lemma_string_scan_pieces(s, i + 1, rest);
            },
            StrPiece::Escaped { c } => {
                assert(t == seq!['\\', c] + rt);
                assert(s[i] == s.subrange(i, i + t.len())[0]);
                assert(s[i] == '\\');
                assert(s.subrange(i + 2, i + 2 + rt.len()) =~= rt) by {
                    assert(forall|k: int|
                        0 <= k < rt.len() ==> s.subrange(i, i + t.len())[k + 2] == #[trigger] rt[k]);
                }
                lemma_string_scan_pieces(s, i + 2, rest);
            },
        }
    }
}

/// The closing quote of a quoted token built from well-formed pieces is the
/// quote standing right after the flattened pieces.
pub proof fn lemma_quoted_token_close(s: Seq<char>, i: int, ps: Seq<StrPiece>)
    requires
        pieces_ok(ps),
        0 <= i,
        i + pieces_text(ps).len() < s.len(),
        s.subrange(i, i + pieces_text(ps).len()) == pieces_text(ps),
        s[i + pieces_text(ps).len()] == '"',
    ensures
        string_close_index(s, i, false) == Some(i + pieces_text(ps).len()),
{
    lemma_string_scan_pieces(s, i, ps);
}

/// A quoted value containing escaped quotes or backslashes does not
/// terminate early: the value token built from `"` + pieces + `"` spans to
/// the quote after the pieces, and its parsed text is exactly the raw text
/// between the quotes.
pub proof fn lemma_quoted_value_spans_escapes(s: Seq<char>, i: int, ps: Seq<StrPiece>)
    requires
        pieces_ok(ps),
        0 <= i,
        i + 1 + pieces_text(ps).len() + 1 <= s.len(),
        s[i] == '"',
        s.subrange(i + 1, i + 1 + pieces_text(ps).len()) == pieces_text(ps),
        s[i + 1 + pieces_text(ps).len()] == '"',
    ensures
        value_token(s, i) == Some(
            (i + pieces_text(ps).len() + 2, pieces_text(ps)),
        ),
{
    lemma_quoted_token_close(s, i + 1, ps);
    assert(s.subrange(i + 1, i + 1 + pieces_text(ps).len()) == pieces_text(ps));
}

pub proof fn lemma_skip_ws_run(s: Seq<char>, i: int, e: int)
    requires
        0 <= i <= e <= s.len(),
        forall|k: int| i <= k < e ==> is_space(#[trigger] s[k]),
        e == s.len() || !is_space(s[e]),
    ensures
        skip_ws(s, i) == e,
    decreases e - i,
{
    if i < e {
        lemma_skip_ws_run(s, i + 1, e);
    }
}

pub proof fn lemma_key_end_run(s: Seq<char>, i: int, e: int)
    requires
        0 <= i <= e <= s.len(),
        forall|k: int| i <= k < e ==> is_key_char(#[trigger] s[k]),
        e == s.len() || !is_key_char(s[e]),
    ensures
        key_end(s, i) == e,
    decreases e - i,
{
    if i < e {
        lemma_key_end_run(s, i + 1, e);
    }
}

pub proof fn lemma_bare_end_run(s: Seq<char>, i: int, e: int)
    requires
        0 <= i <= e <= s.len(),
        forall|k: int| i <= k < e ==> !ends_bare(#[trigger] s[k]),
        e == s.len() || ends_bare(s[e]),
    ensures
        bare_end(s, i) == e,
    decreases e - i,
{
    if i < e {
        lemma_bare_end_run(s, i + 1, e);
    }
}

/// A text that serializes as a bare token: nonempty, opens no dict, array
/// or string, and contains no character that would end the token or
/// disturb a header scan.
pub open spec fn bare_value_ok(v: Seq<char>) -> bool {
    &&& v.len() > 0
    &&& v[0] != '{' && v[0] != '[' && v[0] != '"'
    &&& forall|k: int|
        0 <= k < v.len() ==> !ends_bare(#[trigger] v[k]) && v[k] != '[' && v[k] != '"'
}

/// A text that serializes as a quoted token: the flattening of some
/// well-formed escape pieces.
pub open spec fn quoted_value_ok(v: Seq<char>) -> bool {
    exists|ps: Seq<StrPiece>| pieces_ok(ps) && pieces_text(ps) == v
}

pub open spec fn value_ok(v: Seq<char>) -> bool {
    bare_value_ok(v) || quoted_value_ok(v)
}

/// The surface text a value serializes to: the bare token itself, or the
/// text wrapped in quotes.
pub open spec fn value_surface(v: Seq<char>) -> Seq<char> {
    if bare_value_ok(v) {
        v
    } else {
        seq!['"'] + v + seq!['"']
    }
}

/// A single character of a region of `s` known to read `t` is the matching
/// character of `t`.
pub proof fn lemma_region_index(s: Seq<char>, i: int, t: Seq<char>, k: int)
    requires
        0 <= i,
        i + t.len() <= s.len(),
        s.subrange(i, i + t.len()) == t,
        0 <= k < t.len(),
    ensures
        s[i + k] == t[k],
{
    assert(s.subrange(i, i + t.len())[k] == t[k]);
}

/// A sub-region of a region of `s` known to read `t` reads the matching
/// part of `t`.
pub proof fn lemma_region_subrange(s: Seq<char>, i: int, t: Seq<char>, a: int, b: int)
    requires
        0 <= i,
        i + t.len() <= s.len(),
        s.subrange(i, i + t.len()) == t,
        0 <= a <= b <= t.len(),
    ensures
        s.subrange(i + a, i + b) == t.subrange(a, b),
{
    assert forall|k: int| 0 <= k < b - a implies s.subrange(i + a, i + b)[k] == t.subrange(a, b)[k]
    by {
        lemma_region_index(s, i, t, a + k);
    }
    assert(s.subrange(i + a, i + b) =~= t.subrange(a, b));
}

/// A value's surface text parses back to exactly that value, when followed
/// by a token-ending character or the end of the input.
pub proof fn lemma_value_token_at(s: Seq<char>, i: int, v: Seq<char>)
    requires
        value_ok(v),
        0 <= i,
        i + value_surface(v).len() <= s.len(),
        s.subrange(i, i + value_surface(v).len()) == value_surface(v),
        i + value_surface(v).len() == s.len() || ends_bare(s[i + value_surface(v).len()]),
    ensures
        value_token(s, i) == Some((i + value_surface(v).len(), v)),
{
    let sv = value_surface(v);
    if bare_value_ok(v) {
        lemma_region_index(s, i, sv, 0);
        assert(s[i] == v[0]);
        assert forall|k: int| i <= k < i + v.len() implies !ends_bare(s[k]) by {
            lemma_region_index(s, i, sv, k - i);
        }
        lemma_bare_end_run(s, i, i + v.len());
        assert(s.subrange(i, i + v.len()) == v);
    } else {
        let ps = choose|ps: Seq<StrPiece>| pieces_ok(ps) && pieces_text(ps) == v;
        lemma_region_index(s, i, sv, 0);
        assert(sv[0] == '"');
        lemma_region_index(s, i, sv, (1 + v.len()) as int);
        assert(sv[(1 + v.len()) as int] == '"');
        lemma_region_subrange(s, i, sv, 1, 1 + v.len() as int);
        assert(sv.subrange(1, 1 + v.len() as int) =~= v);
        lemma_quoted_value_spans_escapes(s, i, ps);
    }
}

/// A well-formed key: a nonempty run of key characters.
pub open spec fn key_ok(k: Seq<char>) -> bool {
    k.len() > 0 && forall|j: int| 0 <= j < k.len() ==> is_key_char(#[trigger] k[j])
}

pub open spec fn prop_ok(p: SpecProperty) -> bool {
    key_ok(p.key) && value_ok(p.value)
}

/// The surface text of one property: `key=value`.
pub open spec fn prop_text(p: SpecProperty) -> Seq<char> {
    p.key + seq!['='] + value_surface(p.value)
}

/// A property's surface text parses back to exactly that property, when
/// followed by a token-ending character or the end of the input.
pub proof fn lemma_property_at_text(s: Seq<char>, i: int, p: SpecProperty)
    requires
        prop_ok(p),
        0 <= i,
        i + prop_text(p).len() <= s.len(),
        s.subrange(i, i + prop_text(p).len()) == prop_text(p),
        i + prop_text(p).len() == s.len() || ends_bare(s[i + prop_text(p).len()]),
    ensures
        property_at(s, i) == Some((i + prop_text(p).len(), p)),
{
    let t = prop_text(p);
    let kl = p.key.len() as int;
    let sv = value_surface(p.value);
    assert(t == p.key + seq!['='] + sv);
    assert forall|j: int| i <= j < i + kl implies is_key_char(s[j]) by {
        lemma_region_index(s, i, t, j - i);
        assert(t[j - i] == p.key[j - i]);
    }
    lemma_region_index(s, i, t, kl);
    assert(t[kl] == '=');
    assert(!is_key_char('='));
    lemma_key_end_run(s, i, i + kl);
    assert(!is_space('='));
    lemma_skip_ws_run(s, i + kl, i + kl);
    assert(!is_space(s[i + kl + 1])) by {
        lemma_region_index(s, i, t, kl + 1);
        assert(t[kl + 1] == sv[0]);
        if bare_value_ok(p.value) {
            assert(!ends_bare(sv[0]));
        } else {
            assert(sv[0] == '"');
        }
    }
    lemma_skip_ws_run(s, i + kl + 1, i + kl + 1);
    lemma_region_subrange(s, i, t, kl + 1, t.len() as int);
    assert(t.subrange(kl + 1, t.len() as int) =~= sv);
    lemma_value_token_at(s, i + kl + 1, p.value);
    lemma_region_subrange(s, i, t, 0, kl);
    assert(t.subrange(0, kl) =~= p.key);
}

pub open spec fn props_ok(ps: Seq<SpecProperty>) -> bool {
    forall|k: int| 0 <= k < ps.len() ==> prop_ok(#[trigger] ps[k])
}

/// A nonempty run of whitespace characters, as between two properties.
pub open spec fn ws_run(g: Seq<char>) -> bool {
    g.len() >= 1 && forall|k: int| 0 <= k < g.len() ==> is_space(#[trigger] g[k])
}

pub open spec fn gaps_ok(gs: Seq<Seq<char>>) -> bool {
    forall|k: int| 0 <= k < gs.len() ==> ws_run(#[trigger] gs[k])
}

/// The surface text of a property list: the properties' texts joined by the
/// given whitespace runs.
pub open spec fn props_text(ps: Seq<SpecProperty>, gaps: Seq<Seq<char>>) -> Seq<char>
    decreases ps.len(),
{
    if ps.len() == 0 {
        Seq::empty()
    } else if ps.len() == 1 {
        prop_text(ps[0])
    } else {
        prop_text(ps[0]) + gaps[0] + props_text(ps.drop_first(), gaps.drop_first())
    }
}

/// The first character of a nonempty property list's surface text is the
/// first key's first character.
pub proof fn lemma_props_text_first(ps: Seq<SpecProperty>, gaps: Seq<Seq<char>>)
    requires
        props_ok(ps),
        ps.len() > 0,
        gaps.len() + 1 == ps.len(),
    ensures
        props_text(ps, gaps).len() > 0,
        props_text(ps, gaps)[0] == ps[0].key[0],
        is_key_char(props_text(ps, gaps)[0]),
{
    assert(prop_ok(ps[0]));
    if ps.len() == 1 {
        assert(props_text(ps, gaps) == prop_text(ps[0]));
    } else {
        assert(props_text(ps, gaps) == prop_text(ps[0]) + gaps[0] + props_text(
            ps.drop_first(),
            gaps.drop_first(),
        ));
    }
    assert(prop_text(ps[0])[0] == ps[0].key[0]);
}

/// The surface text of a nonempty property list parses back to exactly
/// those properties, in order, when followed by a closing bracket or the
/// end of the input.
pub proof fn lemma_props_list_text(
    s: Seq<char>,
    i: int,
    ps: Seq<SpecProperty>,
    gaps: Seq<Seq<char>>,
)
    requires
        props_ok(ps),
        gaps_ok(gaps),
        ps.len() > 0,
        gaps.len() + 1 == ps.len(),
        0 <= i,
        i + props_text(ps, gaps).len() <= s.len(),
        s.subrange(i, i + props_text(ps, gaps).len()) == props_text(ps, gaps),
        i + props_text(ps, gaps).len() == s.len() || s[i + props_text(ps, gaps).len()] == ']',
    ensures
        props_list(s, i) == (i + props_text(ps, gaps).len(), ps),
    decreases ps.len(),
{
    let t = props_text(ps, gaps);
    let p0 = ps[0];
    let t0 = prop_text(p0);
    assert(prop_ok(p0));
    if ps.len() == 1 {
        assert(t == t0);
        lemma_property_at_text(s, i, p0);
        lemma_skip_ws_run(s, i + t.len(), i + t.len());
        assert(props_tail(s, i + t.len()) == (i + t.len(), Seq::<SpecProperty>::empty()));
        assert(seq![p0] + Seq::<SpecProperty>::empty() =~= ps);
    } else {
        let g = gaps[0];
        let rest = ps.drop_first();
        let rgaps = gaps.drop_first();
        let rt = props_text(rest, rgaps);
        let i2 = i + t0.len() + g.len();
        assert(t == t0 + g + rt);
        assert(ws_run(g));
        lemma_region_subrange(s, i, t, 0, t0.len() as int);
        assert(t.subrange(0, t0.len() as int) =~= t0);
        assert(ends_bare(s[i + t0.len()])) by {
            lemma_region_index(s, i, t, t0.len() as int);
            assert(t[t0.len() as int] == g[0]);
        }
        lemma_property_at_text(s, i, p0);
        lemma_region_subrange(s, i, t, (t0.len() + g.len()) as int, t.len() as int);
        assert(t.subrange((t0.len() + g.len()) as int, t.len() as int) =~= rt);
        assert(props_ok(rest) && gaps_ok(rgaps));
        lemma_props_list_text(s, i2, rest, rgaps);
        lemma_props_text_first(rest, rgaps);
        assert(!is_space(s[i2])) by {
            lemma_region_index(s, i, t, (t0.len() + g.len()) as int);
            assert(t[(t0.len() + g.len()) as int] == rt[0]);
            assert(is_key_char(rt[0]));
        }
        assert forall|k: int| i + t0.len() <= k < i2 implies is_space(s[k]) by {
            lemma_region_index(s, i, t, k - i);
            assert(t[k - i] == g[k - i - t0.len()]);
        }
        lemma_skip_ws_run(s, i + t0.len(), i2);
        match property_at(s, i2) {
            None => {
                assert(props_list(s, i2) == (i2, Seq::<SpecProperty>::empty()));
                assert(false);
            },
            Some(ep) => {
                crate::parsers::parser_property::lemma_property_at_advances(s, i2);
                assert(rest =~= seq![ep.1] + props_tail(s, ep.0).1);
                assert(props_tail(s, i + t0.len()) == (
                    props_tail(s, ep.0).0,
                    seq![ep.1] + props_tail(s, ep.0).1,
                ));
                assert(seq![p0] + (seq![ep.1] + props_tail(s, ep.0).1) =~= ps);
            },
        }
    }
}

/// On input holding well-formed `key=value` pairs separated by runs of
/// whitespace, with optional leading whitespace, the property-list parser
/// returns exactly those pairs in their original order and consumes through
/// the last one.
pub proof fn lemma_properties_parse_exactly(
    lead: Seq<char>,
    ps: Seq<SpecProperty>,
    gaps: Seq<Seq<char>>,
)
    requires
        forall|k: int| 0 <= k < lead.len() ==> is_space(#[trigger] lead[k]),
        props_ok(ps),
        gaps_ok(gaps),
        ps.len() > 0,
        gaps.len() + 1 == ps.len(),
    ensures
        ({
            let s = lead + props_text(ps, gaps);
            properties_spec(s, 0) == (s.len() as int, ps)
        }),
{
    let t = props_text(ps, gaps);
    let s = lead + t;
    lemma_props_text_first(ps, gaps);
    assert(!is_space(s[lead.len() as int])) by {
        assert(s[lead.len() as int] == t[0]);
    }
    assert forall|k: int| 0 <= k < lead.len() implies is_space(s[k]) by {
        assert(s[k] == lead[k]);
    }
    lemma_skip_ws_run(s, 0, lead.len() as int);
    assert(s.subrange(lead.len() as int, s.len() as int) =~= t);
    lemma_props_list_text(s, lead.len() as int, ps, gaps);
}

/// On empty or whitespace-only input the property-list parser returns zero
/// properties and consumes nothing.
pub proof fn lemma_properties_empty_input(s: Seq<char>)
    requires
        forall|k: int| 0 <= k < s.len() ==> is_space(#[trigger] s[k]),
    ensures
        properties_spec(s, 0) == (0int, Seq::<SpecProperty>::empty()),
{
    lemma_skip_ws_run(s, 0, s.len() as int);
    assert(key_end(s, s.len() as int) == s.len());
    assert(property_at(s, s.len() as int) is None);
}

/// Balanced enclosure text, as the delimiter scanner sees it: a run of
/// plain characters, quoted strings with escapes, and nested same-kind
/// enclosures.
pub ghost enum Balanced {
    Tail,
    Ch { c: char, rest: Box<Balanced> },
    Quoted { inner: Seq<StrPiece>, rest: Box<Balanced> },
    Nested { inside: Box<Balanced>, rest: Box<Balanced> },
}

pub open spec fn balanced_text(b: Balanced, open: char, close: char) -> Seq<char>
    decreases b,
{
    match b {
        Balanced::Tail => Seq::empty(),
        Balanced::Ch { c, rest } => seq![c] + balanced_text(*rest, open, close),
        Balanced::Quoted { inner, rest } => seq!['"'] + pieces_text(inner) + seq!['"']
            + balanced_text(*rest, open, close),
        Balanced::Nested { inside, rest } => seq![open] + balanced_text(*inside, open, close)
            + seq![close] + balanced_text(*rest, open, close),
    }
}

pub open spec fn balanced_ok(b: Balanced, open: char, close: char) -> bool
    decreases b,
{
    match b {
        Balanced::Tail => true,
        Balanced::Ch { c, rest } => c != '"' && c != open && c != close && balanced_ok(
            *rest,
            open,
            close,
        ),
        Balanced::Quoted { inner, rest } => pieces_ok(inner) && balanced_ok(*rest, open, close),
        Balanced::Nested { inside, rest } => balanced_ok(*inside, open, close) && balanced_ok(
            *rest,
            open,
            close,
        ),
    }
}

/// The delimiter scan passes over an in-string region built from
/// well-formed pieces without firing and without a net change of state.
pub proof fn lemma_scan_string_region(
    s: Seq<char>,
    i: int,
    ps: Seq<StrPiece>,
    st: ScanState,
    open: char,
    close: char,
)
    requires
        pieces_ok(ps),
        st.in_string,
        !st.escape,
        0 <= i,
        i + pieces_text(ps).len() <= s.len(),
        s.subrange(i, i + pieces_text(ps).len()) == pieces_text(ps),
    ensures
        close_index(s, i, st, open, close) == close_index(
            s,
            i + pieces_text(ps).len(),
            st,
            open,
            close,
        ),
    decreases ps.len(),
{
    reveal_with_fuel(close_index, 3);
    if ps.len() > 0 {
        let t = pieces_text(ps);
        let rest = ps.drop_first();
        let rt = pieces_text(rest);
        assert(piece_ok(ps[0]));
        match ps[0] {
            StrPiece::Plain { c } => {
                assert(t == seq![c] + rt);
                lemma_region_index(s, i, t, 0);
                assert(s[i] == c);
                assert(scan_step(st, c, open, close) == st);
                lemma_region_subrange(s, i, t, 1, t.len() as int);
                assert(t.subrange(1, t.len() as int) =~= rt);
                lemma_scan_string_region(s, i + 1, rest, st, open, close);
            },
            StrPiece::Escaped { c } => {
                assert(t == seq!['\\', c] + rt);
                lemma_region_index(s, i, t, 0);
                assert(s[i] == '\\');
                lemma_region_subrange(s, i, t, 2, t.len() as int);
                assert(t.subrange(2, t.len() as int) =~= rt);
                let st1 = scan_step(st, '\\', open, close);
                assert(st1.escape && st1.in_string);
                assert(scan_step(st1, s[i + 1], open, close) == st);
                lemma_scan_string_region(s, i + 2, rest, st, open, close);
            },
        }
    }
}

/// The delimiter scan passes over balanced text without firing and without
/// a net change of state: nested opens and closes cancel, and delimiters
/// inside quoted strings are ignored.
pub proof fn lemma_scan_balanced(
    s: Seq<char>,
    i: int,
    b: Balanced,
    st: ScanState,
    open: char,
    close: char,
)
    requires
        balanced_ok(b, open, close),
        !st.in_string,
        !st.escape,
        open != close,
        open != '"',
        close != '"',
        0 <= i,
        i + balanced_text(b, open, close).len() <= s.len(),
        s.subrange(i, i + balanced_text(b, open, close).len()) == balanced_text(b, open, close),
    ensures
        close_index(s, i, st, open, close) == close_index(
            s,
            i + balanced_text(b, open, close).len(),
            st,
            open,
            close,
        ),
    decreases b,
{
    let t = balanced_text(b, open, close);
    match b {
        Balanced::Tail => {},
        Balanced::Ch { c, rest } => {
            let rt = balanced_text(*rest, open, close);
            assert(t == seq![c] + rt);
            lemma_region_index(s, i, t, 0);
            assert(s[i] == c);
            assert(scan_step(st, c, open, close) == st);
            lemma_region_subrange(s, i, t, 1, t.len() as int);
            assert(t.subrange(1, t.len() as int) =~= rt);
            lemma_scan_balanced(s, i + 1, *rest, st, open, close);
        },
        Balanced::Quoted { inner, rest } => {
            let it = pieces_text(inner);
            let rt = balanced_text(*rest, open, close);
            assert(t == seq!['"'] + it + seq!['"'] + rt);
            lemma_region_index(s, i, t, 0);
            assert(s[i] == '"');
            let st2 = scan_step(st, '"', open, close);
            assert(st2.in_string && !st2.escape && st2.depth == st.depth);
            assert(close_index(s, i, st, open, close) == close_index(s, i + 1, st2, open, close));
            lemma_region_subrange(s, i, t, 1, (1 + it.len()) as int);
            assert(t.subrange(1, (1 + it.len()) as int) =~= it);
            lemma_scan_string_region(s, i + 1, inner, st2, open, close);
            lemma_region_index(s, i, t, (1 + it.len()) as int);
            assert(s[i + 1 + it.len()] == '"');
            assert(scan_step(st2, '"', open, close) == st);
            assert(close_index(s, i + 1 + it.len(), st2, open, close) == close_index(
                s,
                i + 2 + it.len(),
                st,
                open,
                close,
            ));
            lemma_region_subrange(s, i, t, (2 + it.len()) as int, t.len() as int);
            assert(t.subrange((2 + it.len()) as int, t.len() as int) =~= rt);
            lemma_scan_balanced(s, i + 2 + it.len(), *rest, st, open, close);
        },
        Balanced::Nested { inside, rest } => {
            let nt = balanced_text(*inside, open, close);
            let rt = balanced_text(*rest, open, close);
            assert(t == seq![open] + nt + seq![close] + rt);
            lemma_region_index(s, i, t, 0);
            assert(s[i] == open);
            let st2 = scan_step(st, open, open, close);
            assert(!st2.in_string && !st2.escape && st2.depth == st.depth + 1);
            assert(close_index(s, i, st, open, close) == close_index(s, i + 1, st2, open, close));
            lemma_region_subrange(s, i, t, 1, (1 + nt.len()) as int);
            assert(t.subrange(1, (1 + nt.len()) as int) =~= nt);
            lemma_scan_balanced(s, i + 1, *inside, st2, open, close);
            lemma_region_index(s, i, t, (1 + nt.len()) as int);
            assert(s[i + 1 + nt.len()] == close);
            assert(scan_step(st2, close, open, close) == st);
            assert(close_index(s, i + 1 + nt.len(), st2, open, close) == close_index(
                s,
                i + 2 + nt.len(),
                st,
                open,
                close,
            ));
            lemma_region_subrange(s, i, t, (2 + nt.len()) as int, t.len() as int);
            assert(t.subrange((2 + nt.len()) as int, t.len() as int) =~= rt);
            lemma_scan_balanced(s, i + 2 + nt.len(), *rest, st, open, close);
        },
    }
}

pub proof fn lemma_ident_end_run(s: Seq<char>, i: int, e: int)
    requires
        0 <= i <= e <= s.len(),
        forall|k: int| i <= k < e ==> is_ident_char(#[trigger] s[k]),
        e == s.len() || !is_ident_char(s[e]),
    ensures
        ident_end(s, i) == e,
    decreases e - i,
{
    if i < e {
        lemma_ident_end_run(s, i + 1, e);
    }
}

/// For any well-formed header `[type ...]` whose interior is balanced in
/// nested brackets, quoted strings and escapes, the header parser returns
/// the type exactly and consumes through the matching closing bracket,
/// leaving the remainder untouched.
pub proof fn lemma_header_round_trip(header_type: Seq<char>, body: Balanced, rest: Seq<char>)
    requires
        header_type.len() > 0,
        forall|k: int| 0 <= k < header_type.len() ==> is_ident_char(#[trigger] header_type[k]),
        balanced_ok(body, '[', ']'),
        balanced_text(body, '[', ']').len() > 0 ==> !is_ident_char(
            balanced_text(body, '[', ']')[0],
        ),
    ensures
        ({
            let interior = balanced_text(body, '[', ']');
            let s = seq!['['] + header_type + interior + seq![']'] + rest;
            header_spec(s) == (HeaderOutcome::Parsed {
                next: (2 + header_type.len() + interior.len()) as int,
                header_type,
            })
        }),
{
    let n = header_type.len() as int;
    let interior = balanced_text(body, '[', ']');
    let ln = interior.len() as int;
    let s = seq!['['] + header_type + interior + seq![']'] + rest;
    assert(s[0] == '[');
    assert forall|j: int| 1 <= j < 1 + n implies is_ident_char(s[j]) by {
        assert(s[j] == header_type[j - 1]);
    }
    assert(!is_ident_char(s[1 + n])) by {
        if ln > 0 {
            assert(s[1 + n] == interior[0]);
        } else {
            assert(s[1 + n] == ']');
        }
    }
    lemma_ident_end_run(s, 1, 1 + n);
    assert(s.subrange(1 + n, 1 + n + ln) =~= interior);
    lemma_scan_balanced(s, 1 + n, body, ScanState::initial(), '[', ']');
    assert(s[1 + n + ln] == ']');
    assert(close_index(s, 1 + n + ln, ScanState::initial(), '[', ']') == Some(1 + n + ln));
    assert(s.subrange(1, 1 + n) =~= header_type);
}

/// A value text holding no line terminator, so that its surface text fits
/// on one physical line.
pub open spec fn value_plain(v: Seq<char>) -> bool {
    forall|k: int| 0 <= k < v.len() ==> (#[trigger] v[k]) != '\n' && v[k] != '\r'
}

/// No character of a property's surface text is a line terminator, when
/// its value holds none.
pub proof fn lemma_prop_text_plain(p: SpecProperty)
    requires
        prop_ok(p),
        value_plain(p.value),
    ensures
        forall|j: int|
            0 <= j < prop_text(p).len() ==> (#[trigger] prop_text(p)[j]) != '\n' && prop_text(
                p,
            )[j] != '\r',
{
    let t = prop_text(p);
    let sv = value_surface(p.value);
    let kl = p.key.len() as int;
    assert forall|j: int| 0 <= j < t.len() implies (#[trigger] t[j]) != '\n' && t[j] != '\r' by {
        if j < kl {
            assert(t[j] == p.key[j]);
            assert(is_key_char(p.key[j]));
        } else if j == kl {
            assert(t[j] == '=');
        } else {
            let jj = j - kl - 1;
            assert(t[j] == sv[jj]);
            if bare_value_ok(p.value) {
                assert(!ends_bare(sv[jj]));
            } else {
                if jj == 0 || jj == p.value.len() + 1 {
                    assert(sv[jj] == '"');
                } else {
                    assert(sv[jj] == p.value[jj - 1]);
                }
            }
        }
    }
}

/// No character of a property list's surface text is a line terminator,
/// when the separating gaps and the values hold none.
pub proof fn lemma_props_text_plain(ps: Seq<SpecProperty>, gaps: Seq<Seq<char>>)
    requires
        props_ok(ps),
        ps.len() > 0,
        gaps.len() + 1 == ps.len(),
        forall|k: int| 0 <= k < gaps.len() ==> #[trigger] gaps[k] == seq![' '],
        forall|k: int| 0 <= k < ps.len() ==> value_plain(#[trigger] ps[k].value),
    ensures
        forall|j: int|
            0 <= j < props_text(ps, gaps).len() ==> (#[trigger] props_text(ps, gaps)[j]) != '\n'
                && props_text(ps, gaps)[j] != '\r',
    decreases ps.len(),
{
    let t = props_text(ps, gaps);
    let t0 = prop_text(ps[0]);
    assert(prop_ok(ps[0]));
    lemma_prop_text_plain(ps[0]);
    if ps.len() == 1 {
        assert(t == t0);
    } else {
        let g = gaps[0];
        let rest = ps.drop_first();
        let rgaps = gaps.drop_first();
        let rt = props_text(rest, rgaps);
        assert(t == t0 + g + rt);
        assert(forall|k: int| 0 <= k < rgaps.len() ==> #[trigger] rgaps[k] == seq![' ']);
        lemma_props_text_plain(rest, rgaps);
        assert forall|j: int| 0 <= j < t.len() implies (#[trigger] t[j]) != '\n' && t[j] != '\r'
        by {
            if j < t0.len() {
                assert(t[j] == t0[j]);
            } else if j < t0.len() + 1 {
                assert(t[j] == g[j - t0.len()]);
                assert(g == seq![' ']);
            } else {
                assert(t[j] == rt[j - t0.len() - 1]);
            }
        }
    }
}

pub proof fn lemma_line_break_run(s: Seq<char>, i: int, e: int)
    requires
        0 <= i <= e <= s.len(),
        forall|k: int| i <= k < e ==> (#[trigger] s[k]) != '\n',
        e == s.len() || s[e] == '\n',
    ensures
        line_break(s, i) == e,
    decreases e - i,
{
    if i < e {
        lemma_line_break_run(s, i + 1, e);
    }
}

/// The bracket scan passes over a region free of quotes and brackets
/// without firing and without a change of state.
pub proof fn lemma_scan_plain_region(s: Seq<char>, i: int, e: int, st: ScanState)
    requires
        !st.in_string,
        !st.escape,
        0 <= i <= e <= s.len(),
        forall|k: int|
            i <= k < e ==> (#[trigger] s[k]) != '"' && s[k] != '[' && s[k] != ']',
    ensures
        close_index(s, i, st, '[', ']') == close_index(s, e, st, '[', ']'),
    decreases e - i,
{
    if i < e {
        assert(scan_step(st, s[i], '[', ']') == st);
        lemma_scan_plain_region(s, i + 1, e, st);
    }
}

/// The bracket scan passes over a property's surface text without firing
/// and without a net change of state.
pub proof fn lemma_scan_prop_region(s: Seq<char>, i: int, p: SpecProperty, st: ScanState)
    requires
        prop_ok(p),
        !st.in_string,
        !st.escape,
        0 <= i,
        i + prop_text(p).len() <= s.len(),
        s.subrange(i, i + prop_text(p).len()) == prop_text(p),
    ensures
        close_index(s, i, st, '[', ']') == close_index(
            s,
            i + prop_text(p).len(),
            st,
            '[',
            ']',
        ),
{
    let t = prop_text(p);
    let sv = value_surface(p.value);
    let kl = p.key.len() as int;
    assert forall|k: int| i <= k < i + kl + 1 implies (#[trigger] s[k]) != '"' && s[k] != '['
        && s[k] != ']' by {
        lemma_region_index(s, i, t, k - i);
        if k - i < kl {
            assert(t[k - i] == p.key[k - i]);
            assert(is_key_char(p.key[k - i]));
        } else {
            assert(t[k - i] == '=');
        }
    }
    lemma_scan_plain_region(s, i, i + kl + 1, st);
    lemma_region_subrange(s, i, t, kl + 1, t.len() as int);
    assert(t.subrange(kl + 1, t.len() as int) =~= sv);
    let vi = i + kl + 1;
    if bare_value_ok(p.value) {
        assert forall|k: int| vi <= k < vi + sv.len() implies (#[trigger] s[k]) != '"' && s[k]
            != '[' && s[k] != ']' by {
            lemma_region_index(s, vi, sv, k - vi);
            assert(!ends_bare(sv[k - vi]));
        }
        lemma_scan_plain_region(s, vi, vi + sv.len() as int, st);
    } else {
        let ps = choose|ps: Seq<StrPiece>| pieces_ok(ps) && pieces_text(ps) == p.value;
        let v = p.value;
        lemma_region_index(s, vi, sv, 0);
        assert(sv[0] == '"');
        let st2 = scan_step(st, '"', '[', ']');
        assert(st2.in_string && !st2.escape);
        assert(close_index(s, vi, st, '[', ']') == close_index(s, vi + 1, st2, '[', ']'));
        lemma_region_subrange(s, vi, sv, 1, (1 + v.len()) as int);
        assert(sv.subrange(1, (1 + v.len()) as int) =~= pieces_text(ps));
        lemma_scan_string_region(s, vi + 1, ps, st2, '[', ']');
        lemma_region_index(s, vi, sv, (1 + v.len()) as int);
        assert(sv[(1 + v.len()) as int] == '"');
        assert(scan_step(st2, '"', '[', ']') == st);
        assert(close_index(s, vi + 1 + v.len(), st2, '[', ']') == close_index(
            s,
            vi + 2 + v.len(),
            st,
            '[',
            ']',
        ));
    }
}

/// The bracket scan passes over a property list's surface text without
/// firing and without a net change of state.
pub proof fn lemma_scan_props_region(
    s: Seq<char>,
    i: int,
    ps: Seq<SpecProperty>,
    gaps: Seq<Seq<char>>,
    st: ScanState,
)
    requires
        props_ok(ps),
        gaps_ok(gaps),
        ps.len() > 0,
        gaps.len() + 1 == ps.len(),
        !st.in_string,
        !st.escape,
        0 <= i,
        i + props_text(ps, gaps).len() <= s.len(),
        s.subrange(i, i + props_text(ps, gaps).len()) == props_text(ps, gaps),
    ensures
        close_index(s, i, st, '[', ']') == close_index(
            s,
            i + props_text(ps, gaps).len(),
            st,
            '[',
            ']',
        ),
    decreases ps.len(),
{
    let t = props_text(ps, gaps);
    let t0 = prop_text(ps[0]);
    assert(prop_ok(ps[0]));
    if ps.len() == 1 {
        assert(t == t0);
        lemma_scan_prop_region(s, i, ps[0], st);
    } else {
        let g = gaps[0];
        let rest = ps.drop_first();
        let rgaps = gaps.drop_first();
        let rt = props_text(rest, rgaps);
        let i2 = i + t0.len() + g.len();
        assert(t == t0 + g + rt);
        assert(ws_run(g));
        lemma_region_subrange(s, i, t, 0, t0.len() as int);
        assert(t.subrange(0, t0.len() as int) =~= t0);
        lemma_scan_prop_region(s, i, ps[0], st);
        assert forall|k: int| i + t0.len() <= k < i2 implies (#[trigger] s[k]) != '"' && s[k]
            != '[' && s[k] != ']' by {
            lemma_region_index(s, i, t, k - i);
            assert(t[k - i] == g[k - i - t0.len()]);
            assert(is_space(g[k - i - t0.len()]));
        }
        lemma_scan_plain_region(s, i + t0.len() as int, i2, st);
        lemma_region_subrange(s, i, t, (t0.len() + g.len()) as int, t.len() as int);
        assert(t.subrange((t0.len() + g.len()) as int, t.len() as int) =~= rt);
        lemma_scan_props_region(s, i2, rest, rgaps, st);
    }
}

/// A section whose surface form is one well-formed header line: a nonempty
/// identifier type, and properties with key-character keys and values that
/// serialize as bare or quoted tokens holding no line terminator.
pub open spec fn section_ok(sec: SpecSection) -> bool {
    &&& sec.header_type.len() > 0
    &&& forall|k: int|
        0 <= k < sec.header_type.len() ==> is_ident_char(#[trigger] sec.header_type[k])
    &&& props_ok(sec.properties)
    &&& forall|k: int|
        0 <= k < sec.properties.len() ==> value_plain(#[trigger] sec.properties[k].value)
}

pub open spec fn single_space_gaps(n: int) -> Seq<Seq<char>> {
    Seq::new(
        if n >= 0 {
            n as nat
        } else {
            0
        },
        |i: int| seq![' '],
    )
}

/// The surface text a section serializes to: one header line holding the
/// type and all properties, closed by its bracket and a line feed.
pub open spec fn section_text(sec: SpecSection) -> Seq<char> {
    let mid = if sec.properties.len() == 0 {
        Seq::<char>::empty()
    } else {
        seq![' '] + props_text(
            sec.properties,
            single_space_gaps(sec.properties.len() as int - 1),
        )
    };
    seq!['['] + sec.header_type + mid + seq![']'] + seq!['\n']
}

/// Re-serializing a section's header type and properties with the surface
/// grammar and re-parsing yields a file holding exactly that section, with
/// nothing left over: the round trip is the identity on well-formed
/// sections.
#[verifier::rlimit(100)]
pub proof fn lemma_section_round_trip(sec: SpecSection)
    requires
        section_ok(sec),
    ensures
        ({
            let s = section_text(sec);
            property_file_spec(s) == (FileOutcome::Done {
                next: s.len() as int,
                file: SpecPropertyFile {
                    preamble_properties: Seq::empty(),
                    sections: seq![sec],
                },
            })
        }),
{
    let ht = sec.header_type;
    let n = ht.len() as int;
    let ps = sec.properties;
    let gaps = single_space_gaps(ps.len() as int - 1);
    let pt = props_text(ps, gaps);
    let mid = if ps.len() == 0 {
        Seq::<char>::empty()
    } else {
        seq![' '] + pt
    };
    let s = section_text(sec);
    let hlv = seq!['['] + ht + mid + seq![']'];
    let hlen = hlv.len() as int;
    assert(s == hlv + seq!['\n']) by {
        assert(s =~= hlv + seq!['\n']);
    }
    assert(gaps_ok(gaps));
    if ps.len() > 0 {
        assert(forall|k: int| 0 <= k < gaps.len() ==> #[trigger] gaps[k] == seq![' ']);
        lemma_props_text_plain(ps, gaps);
        lemma_props_text_first(ps, gaps);
    }
    // the header line holds no line terminator
    assert forall|j: int| 0 <= j < hlen implies (#[trigger] hlv[j]) != '\n' by {
        if j == 0 {
            assert(hlv[j] == '[');
        } else if j < 1 + n {
            assert(hlv[j] == ht[j - 1]);
            assert(is_ident_char(ht[j - 1]));
        } else if j < 1 + n + mid.len() {
            assert(hlv[j] == mid[j - 1 - n]);
            if j == 1 + n {
                assert(mid[0] == ' ');
            } else {
                assert(mid[j - 1 - n] == pt[j - 2 - n]);
            }
        } else {
            assert(hlv[j] == ']');
        }
    }
    assert(forall|j: int| 0 <= j < hlen ==> (#[trigger] s[j]) == hlv[j]);
    assert(s[hlen] == '\n');
    lemma_line_break_run(s, 0, hlen);
    assert(line_next(s, 0) == s.len());
    assert(s[hlen - 1] == ']');
    assert(content_end(s, 0) == hlen);
    assert(line_content(s, 0) == hlv) by {
        assert(s.subrange(0, hlen) =~= hlv);
    }
    // no blank or comment line precedes the header
    assert(hlv[0] == '[');
    assert(!is_space('[') && '[' != ';');
    lemma_skip_ws_run(hlv, 0, 0);
    assert(!is_comment_or_blank(hlv));
    assert(skip_blank_lines(s, 0) == 0);
    // the header line parses to the type and the properties
    assert forall|j: int| 1 <= j < 1 + n implies is_ident_char(hlv[j]) by {
        assert(hlv[j] == ht[j - 1]);
    }
    assert(!is_ident_char(hlv[1 + n])) by {
        if ps.len() == 0 {
            assert(hlv[1 + n] == ']');
        } else {
            assert(hlv[1 + n] == mid[0]);
            assert(mid[0] == ' ');
        }
    }
    lemma_ident_end_run(hlv, 1, 1 + n);
    assert(hlv.subrange(1, 1 + n) =~= ht);
    // the body after the header line is empty: the input ends there
    lemma_skip_ws_run(s, s.len() as int, s.len() as int);
    assert(parse_body(s, s.len() as int) == (s.len() as int, Seq::<SpecProperty>::empty()));
    if ps.len() == 0 {
        assert(hlv[1 + n] == ']');
        assert(!is_space(']'));
        lemma_skip_ws_run(hlv, 1 + n, 1 + n);
        assert(section_at(s, 0) matches SectionOutcome::Found { next, section } && next
            == s.len() as int && section =~= sec) by {
            assert(Seq::<SpecProperty>::empty() =~= ps);
        }
    } else {
        assert(hlv[1 + n] == ' ');
        assert(hlv[2 + n] == pt[0]) by {
            assert(hlv[2 + n] == mid[1 + n + 1 - 1 - n]);
        }
        assert(is_key_char(pt[0]));
        assert(!is_space(pt[0]));
        lemma_skip_ws_run(hlv, 1 + n, 2 + n);
        let w = 2 + n;
        assert(hlv[w] != ']');
        assert(hlv.subrange(w, w + pt.len()) =~= pt);
        lemma_scan_props_region(hlv, w, ps, gaps, ScanState::initial());
        assert(hlv[w + pt.len()] == ']');
        assert(close_index(hlv, w + pt.len(), ScanState::initial(), '[', ']') == Some(
            w + pt.len(),
        ));
        assert(close_index(hlv, w, ScanState::initial(), '[', ']') == Some(w + pt.len()));
        // the interior parses back to exactly the properties
        assert(hlv.subrange(w, w + pt.len()) == pt);
        assert(pt.subrange(0, pt.len() as int) =~= pt);
        lemma_skip_ws_run(pt, 0, 0);
        lemma_props_list_text(pt, 0, ps, gaps);
        assert(properties_spec(pt, 0) == (pt.len() as int, ps));
        assert(section_at(s, 0) matches SectionOutcome::Found { next, section } && next
            == s.len() as int && section =~= sec) by {
            assert(ps + Seq::<SpecProperty>::empty() =~= ps);
        }
    }
    // no further section follows
    assert(skip_blank_lines(s, s.len() as int) == s.len());
    assert(line_break(s, s.len() as int) == s.len());
    assert(line_content(s, s.len() as int) =~= Seq::<char>::empty());
    assert(section_at(s, s.len() as int) is NoSection);
    assert(sections_from(s, s.len() as int) == (SectionsOutcome::Done {
        next: s.len() as int,
        sections: Seq::<SpecSection>::empty(),
    }));
    assert(section_at(s, 0) matches SectionOutcome::Found { next, section } && next
        == s.len() as int && section == sec);
    assert(sections_from(s, 0) == (SectionsOutcome::Done {
        next: s.len() as int,
        sections: seq![sec],
    })) by {
        assert(seq![sec] + Seq::<SpecSection>::empty() =~= seq![sec]);
    }
    // no preamble precedes the header
    assert(s[0] == '[');
    assert(!is_key_char('['));
    lemma_skip_ws_run(s, 0, 0);
    assert(key_end(s, 0) == 0);
    assert(property_at(s, 0) is None);
    assert(properties_spec(s, 0) == (0int, Seq::<SpecProperty>::empty()));
    assert(property_file_spec(s) == (FileOutcome::Done {
        next: s.len() as int,
        file: SpecPropertyFile { preamble_properties: Seq::empty(), sections: seq![sec] },
    }));
}

} // verus!
