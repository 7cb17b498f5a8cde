//! The value classifier and the property-list parser.
//!
//! A property is `key '=' value`, with optional whitespace around the `=`.
//! A key is a maximal run of key characters (ASCII alphanumerics, `_`, `/`).
//! A value is classified by its first character: `{` and `[` open an
//! enclosure whose raw text, delimiters included, is the value; `"` opens a
//! quoted string whose value is the text strictly between the quotes, escape
//! sequences left as written; anything else starts a bare token, the maximal
//! run of characters that are not whitespace, comma, or closing bracket. An
//! enclosure or string that never closes falls back to the bare-token rule.
//!
//! A property list is zero or more properties separated by runs of
//! whitespace. Parsing a list never fails: where no property can be read the
//! list simply ends. A list of zero properties consumes no input at all.

use vstd::prelude::*;

use crate::parsers::scan::{close_index, string_close_index, ScanState};
use crate::parsers::scan::{
    lemma_close_index_bounds, lemma_string_close_index_bounds, scan_close, scan_string_close,
};
use crate::parsers::scan::ParseError;
use crate::text::{
    chars_of, copy_range, exec_is_key_char, exec_skip_ws, is_key_char, is_space, lemma_skip_ws_bounds,
    skip_ws, string_from_chars, string_range,
};
use vstd::string::StringExecFns;

verus! {

/// One `key=value` pair. The value is the raw surface text of the value
/// token, never decoded; duplicate keys within one section are preserved in
/// their original order.
#[derive(Debug, PartialEq, Clone)]
pub struct UntypedProperty {
    pub key: String,
    pub value: String,
}

/// The mathematical content of an [`UntypedProperty`]: its key and value as
/// character sequences.
#[verifier::ext_equal]
pub ghost struct SpecProperty {
    pub key: Seq<char>,
    pub value: Seq<char>,
}

impl View for UntypedProperty {
    type V = SpecProperty;

    open spec fn view(&self) -> SpecProperty {
        SpecProperty { key: self.key@, value: self.value@ }
    }
}

impl DeepView for UntypedProperty {
    type V = SpecProperty;

    open spec fn deep_view(&self) -> SpecProperty {
        self.view()
    }
}

/// A fresh copy of a property, equal to the original in content.
pub fn clone_prop(p: &UntypedProperty) -> (r: UntypedProperty)
    ensures
        r@ == p@,
{
    UntypedProperty { key: p.key.clone(), value: p.value.clone() }
}

/// Index of the first character at or after `i` that is not a key character
/// (or the end of the text).
pub open spec fn key_end(s: Seq<char>, i: int) -> int
    decreases s.len() - i,
{
    if i < 0 || i >= s.len() || !is_key_char(s[i]) {
        i
    } else {
        key_end(s, i + 1)
    }
}

pub proof fn lemma_key_end_bounds(s: Seq<char>, i: int)
    requires
        0 <= i <= s.len(),
    ensures
        i <= key_end(s, i) <= s.len(),
        forall|k: int| i <= k < key_end(s, i) ==> is_key_char(s[k]),
        key_end(s, i) < s.len() ==> !is_key_char(s[key_end(s, i)]),
    decreases s.len() - i,
{
    if i < s.len() && is_key_char(s[i]) {
        lemma_key_end_bounds(s, i + 1);
    }
}

pub fn exec_key_end(s: &Vec<char>, i: usize) -> (r: usize)
    requires
        i <= s.len(),
    ensures
        r == key_end(s@, i as int),
        i <= r <= s.len(),
{
    let mut j: usize = i;
    while j < s.len() && exec_is_key_char(s[j])
        invariant
            i <= j <= s.len(),
            key_end(s@, i as int) == key_end(s@, j as int),
        decreases s.len() - j,
    {
        j = j + 1;
    }
    proof {
        lemma_key_end_bounds(s@, j as int);
    }
    j
}

/// A character ends a bare value token: whitespace, comma, or a closing
/// bracket.
pub open spec fn ends_bare(c: char) -> bool {
    is_space(c) || c == ',' || c == ']'
}

/// Index of the first character at or after `i` that ends a bare token (or
/// the end of the text).
pub open spec fn bare_end(s: Seq<char>, i: int) -> int
    decreases s.len() - i,
{
    if i < 0 || i >= s.len() || ends_bare(s[i]) {
        i
    } else {
        bare_end(s, i + 1)
    }
}

pub proof fn lemma_bare_end_bounds(s: Seq<char>, i: int)
    requires
        0 <= i <= s.len(),
    ensures
        i <= bare_end(s, i) <= s.len(),
    decreases s.len() - i,
{
    if i < s.len() && !ends_bare(s[i]) {
        lemma_bare_end_bounds(s, i + 1);
    }
}

pub fn exec_bare_end(s: &Vec<char>, i: usize) -> (r: usize)
    requires
        i <= s.len(),
    ensures
        r == bare_end(s@, i as int),
        i <= r <= s.len(),
{
    let mut j: usize = i;
    while j < s.len() && !(exec_is_space_or_delim(s[j]))
        invariant
            i <= j <= s.len(),
            bare_end(s@, i as int) == bare_end(s@, j as int),
        decreases s.len() - j,
    {
        j = j + 1;
    }
    proof {
        lemma_bare_end_bounds(s@, j as int);
    }
    j
}

fn exec_is_space_or_delim(c: char) -> (r: bool)
    ensures
        r == ends_bare(c),
{
    c == ' ' || c == '\t' || c == '\r' || c == '\n' || c == ',' || c == ']'
}

/// A bare value token at `i`: the maximal nonempty run of characters that do
/// not end a bare token. `None` if that run is empty.
pub open spec fn bare_value(s: Seq<char>, i: int) -> Option<(int, Seq<char>)> {
    let e = bare_end(s, i);
    if e > i {
        Some((e, s.subrange(i, e)))
    } else {
        None
    }
}

/// An enclosure value at `i` (where `s[i]` is `open`): the raw text from the
/// opening delimiter through its matching close. Falls back to the bare-token
/// rule when no matching close exists.
pub open spec fn enclosure_value(s: Seq<char>, i: int, open: char, close: char) -> Option<
    (int, Seq<char>),
> {
    match close_index(s, i + 1, ScanState::initial(), open, close) {
        Some(j) => Some((j + 1, s.subrange(i, j + 1))),
        None => bare_value(s, i),
    }
}

/// A quoted value at `i` (where `s[i]` is `"`): the text strictly between
/// the quotes. Falls back to the bare-token rule when the string never
/// closes.
pub open spec fn quoted_value(s: Seq<char>, i: int) -> Option<(int, Seq<char>)> {
    match string_close_index(s, i + 1, false) {
        Some(j) => Some((j + 1, s.subrange(i + 1, j))),
        None => bare_value(s, i),
    }
}

/// The value token at `i`, classified by its first character: dict, array,
/// quoted string, or bare token. `None` when no value token starts at `i`.
pub open spec fn value_token(s: Seq<char>, i: int) -> Option<(int, Seq<char>)> {
    if 0 <= i < s.len() {
        if s[i] == '{' {
            enclosure_value(s, i, '{', '}')
        } else if s[i] == '[' {
            enclosure_value(s, i, '[', ']')
        } else if s[i] == '"' {
            quoted_value(s, i)
        } else {
            bare_value(s, i)
        }
    } else {
        None
    }
}

pub proof fn lemma_value_token_bounds(s: Seq<char>, i: int)
    requires
        0 <= i <= s.len(),
    ensures
        value_token(s, i) matches Some(ev) ==> i < ev.0 <= s.len(),
{
    lemma_bare_end_bounds(s, i);
    if 0 <= i < s.len() {
        lemma_close_index_bounds(s, i + 1, ScanState::initial(), '{', '}');
        lemma_close_index_bounds(s, i + 1, ScanState::initial(), '[', ']');
        lemma_string_close_index_bounds(s, i + 1, false);
    }
}

pub fn exec_value_token(s: &Vec<char>, i: usize) -> (r: Option<(usize, Vec<char>)>)
    requires
        i <= s.len(),
    ensures
        match r {
            Some(ev) => i < ev.0 <= s.len() && value_token(s@, i as int) == Some(
                (ev.0 as int, ev.1@),
            ),
            None => value_token(s@, i as int) is None,
        },
{
    proof {
        lemma_value_token_bounds(s@, i as int);
    }
    if i < s.len() {
        let c = s[i];
        if c == '{' {
            match scan_close(s, i + 1, '{', '}') {
                Some(j) => Some((j + 1, copy_range(s, i, j + 1))),
                None => exec_bare_value(s, i),
            }
        } else if c == '[' {
            match scan_close(s, i + 1, '[', ']') {
                Some(j) => Some((j + 1, copy_range(s, i, j + 1))),
                None => exec_bare_value(s, i),
            }
        } else if c == '"' {
            match scan_string_close(s, i + 1) {
                Some(j) => Some((j + 1, copy_range(s, i + 1, j))),
                None => exec_bare_value(s, i),
            }
        } else {
            exec_bare_value(s, i)
        }
    } else {
        None
    }
}

fn exec_bare_value(s: &Vec<char>, i: usize) -> (r: Option<(usize, Vec<char>)>)
    requires
        i <= s.len(),
    ensures
        match r {
            Some(ev) => i < ev.0 <= s.len() && bare_value(s@, i as int) == Some(
                (ev.0 as int, ev.1@),
            ),
            None => bare_value(s@, i as int) is None,
        },
{
    let e = exec_bare_end(s, i);
    if e > i {
        Some((e, copy_range(s, i, e)))
    } else {
        None
    }
}

/// The property at `i`: a nonempty key run, optional whitespace, `=`,
/// optional whitespace, and a value token. `None` when any of those is
/// missing.
pub open spec fn property_at(s: Seq<char>, i: int) -> Option<(int, SpecProperty)> {
    let ke = key_end(s, i);
    if ke == i {
        None
    } else {
        let eq = skip_ws(s, ke);
        if 0 <= eq < s.len() && s[eq] == '=' {
            let vs = skip_ws(s, eq + 1);
            match value_token(s, vs) {
                Some(ev) => Some((ev.0, SpecProperty { key: s.subrange(i, ke), value: ev.1 })),
                None => None,
            }
        } else {
            None
        }
    }
}

pub proof fn lemma_property_at_advances(s: Seq<char>, i: int)
    requires
        0 <= i <= s.len(),
    ensures
        property_at(s, i) matches Some(ep) ==> i < ep.0 <= s.len(),
{
    lemma_key_end_bounds(s, i);
    let ke = key_end(s, i);
    if ke != i {
        lemma_skip_ws_bounds(s, ke);
        let eq = skip_ws(s, ke);
        if 0 <= eq < s.len() && s[eq] == '=' {
            lemma_skip_ws_bounds(s, eq + 1);
            let vs = skip_ws(s, eq + 1);
            lemma_value_token_bounds(s, vs);
        }
    }
}

pub fn exec_property_at(s: &Vec<char>, i: usize) -> (r: Option<(usize, UntypedProperty)>)
    requires
        i <= s.len(),
    ensures
        match r {
            Some(ep) => i < ep.0 <= s.len() && property_at(s@, i as int) == Some(
                (ep.0 as int, ep.1@),
            ),
            None => property_at(s@, i as int) is None,
        },
{
    proof {
        lemma_property_at_advances(s@, i as int);
    }
    let ke = exec_key_end(s, i);
    if ke == i {
        return None;
    }
    let eq = exec_skip_ws(s, ke);
    if eq < s.len() && s[eq] == '=' {
        let vs = exec_skip_ws(s, eq + 1);
        match exec_value_token(s, vs) {
            Some((e, vtext)) => {
                let key = string_range(s, i, ke);
                let value = string_from_chars(&vtext);
                Some((e, UntypedProperty { key, value }))
            },
            None => None,
        }
    } else {
        None
    }
}

/// The properties following an already-parsed property that ends at `i`:
/// each further property must be preceded by at least one whitespace
/// character. The returned position is the end of the last property parsed
/// (or `i` when none follows).
pub open spec fn props_tail(s: Seq<char>, i: int) -> (int, Seq<SpecProperty>)
    decreases s.len() - i,
{
    let j = skip_ws(s, i);
    if j == i {
        (i, Seq::empty())
    } else {
        match property_at(s, j) {
            None => (i, Seq::empty()),
            Some(ep) => {
                if i < ep.0 <= s.len() {
                    let tail = props_tail(s, ep.0);
                    (tail.0, seq![ep.1] + tail.1)
                } else {
                    (i, Seq::empty())
                }
            },
        }
    }
}

/// A whitespace-separated property list starting exactly at `i`. The
/// returned position is the end of the last property (or `i` when the list
/// is empty).
pub open spec fn props_list(s: Seq<char>, i: int) -> (int, Seq<SpecProperty>) {
    match property_at(s, i) {
        None => (i, Seq::empty()),
        Some(ep) => {
            let tail = props_tail(s, ep.0);
            (tail.0, seq![ep.1] + tail.1)
        },
    }
}

pub proof fn lemma_props_tail_bounds(s: Seq<char>, i: int)
    requires
        0 <= i <= s.len(),
    ensures
        i <= props_tail(s, i).0 <= s.len(),
    decreases s.len() - i,
{
    let j = skip_ws(s, i);
    lemma_skip_ws_bounds(s, i);
    if j != i {
        lemma_property_at_advances(s, j);
        match property_at(s, j) {
            None => {},
            Some(ep) => {
                if i < ep.0 <= s.len() {
                    lemma_props_tail_bounds(s, ep.0);
                }
            },
        }
    }
}

pub proof fn lemma_props_list_bounds(s: Seq<char>, i: int)
    requires
        0 <= i <= s.len(),
    ensures
        i <= props_list(s, i).0 <= s.len(),
{
    lemma_property_at_advances(s, i);
    match property_at(s, i) {
        None => {},
        Some(ep) => {
            lemma_props_tail_bounds(s, ep.0);
        },
    }
}

pub fn exec_props_list(s: &Vec<char>, start: usize) -> (r: (usize, Vec<UntypedProperty>))
    requires
        start <= s.len(),
    ensures
        r.0 as int == props_list(s@, start as int).0,
        r.1.deep_view() == props_list(s@, start as int).1,
        start <= r.0 <= s.len(),
{
    proof {
        lemma_props_list_bounds(s@, start as int);
    }
    let mut props: Vec<UntypedProperty> = Vec::new();
    let mut pos: usize = start;
    match exec_property_at(s, start) {
        None => {
            proof {
                assert(props.deep_view() =~= props_list(s@, start as int).1);
            }
            return (start, props);
        },
        Some((e, p)) => {
            props.push(p);
            pos = e;
        },
    }
    loop
        invariant
            start <= pos <= s.len(),
            props_list(s@, start as int).0 == props_tail(s@, pos as int).0,
            props_list(s@, start as int).1 =~= props.deep_view() + props_tail(s@, pos as int).1,
        ensures
            pos as int == props_list(s@, start as int).0,
            props.deep_view() =~= props_list(s@, start as int).1,
        decreases s.len() - pos,
    {
        proof {
            lemma_props_tail_bounds(s@, pos as int);
        }
        let j = exec_skip_ws(s, pos);
        if j == pos {
            proof {
                assert(props_tail(s@, pos as int).1 =~= Seq::<SpecProperty>::empty());
                assert(props.deep_view() + props_tail(s@, pos as int).1 =~= props.deep_view());
            }
            break ;
        }
        match exec_property_at(s, j) {
            None => {
                proof {
                    assert(props_tail(s@, pos as int).1 =~= Seq::<SpecProperty>::empty());
                    assert(props.deep_view() + props_tail(s@, pos as int).1 =~= props.deep_view());
                }
                break ;
            },
            Some((e, p)) => {
                proof {
                    lemma_property_at_advances(s@, j as int);
                }
                let ghost prev = props.deep_view();
                props.push(p);
                pos = e;
                proof {
                    let tail = props_tail(s@, e as int);
                    assert(props.deep_view() =~= prev + seq![p@]);
                    assert(prev + (seq![p@] + tail.1) =~= (prev + seq![p@]) + tail.1);
                }
            },
        }
    }
    (pos, props)
}

/// A property list preceded by optional whitespace: the behaviour of
/// [`properties0`] at position `i`. When the list is empty nothing at all is
/// consumed, not even the leading whitespace; otherwise the returned
/// position is the end of the last property.
pub open spec fn properties_spec(s: Seq<char>, i: int) -> (int, Seq<SpecProperty>) {
    let j = skip_ws(s, i);
    let lst = props_list(s, j);
    if lst.1.len() == 0 {
        (i, lst.1)
    } else {
        lst
    }
}

pub proof fn lemma_properties_spec_bounds(s: Seq<char>, i: int)
    requires
        0 <= i <= s.len(),
    ensures
        i <= properties_spec(s, i).0 <= s.len(),
{
    lemma_skip_ws_bounds(s, i);
    lemma_props_list_bounds(s, skip_ws(s, i));
}

/// Parse a run of whitespace-separated `key=value` properties from the
/// start of `input`, tolerating leading whitespace.
///
/// Never fails: on input that starts with no property (in particular on
/// empty or whitespace-only input) it returns zero properties and consumes
/// nothing. The returned string is the unconsumed remainder of `input`.
pub fn properties0(input: &str) -> (r: Result<(String, Vec<UntypedProperty>), ParseError>)
    ensures
        ({
            let parsed = properties_spec(input@, 0);
            &&& r matches Ok(done)
            &&& done.0@ == input@.subrange(parsed.0, input@.len() as int)
            &&& done.1.deep_view() == parsed.1
        }),
{
    let s = chars_of(input);
    proof {
        lemma_properties_spec_bounds(s@, 0);
    }
    let j = exec_skip_ws(&s, 0);
    let (e, props) = exec_props_list(&s, j);
    if props.len() == 0 {
        let rest = String::from_str(input);
        proof {
            assert(rest@ =~= input@.subrange(0, input@.len() as int));
            assert(props.deep_view() =~= Seq::<SpecProperty>::empty());
        }
        Ok((rest, props))
    } else {
        let rest = string_range(&s, e, s.len());
        Ok((rest, props))
    }
}

} // verus!
