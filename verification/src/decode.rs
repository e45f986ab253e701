//! The decoder: a single pass over the markup text that recognizes tags,
//! attributes, text payloads and entity references, collects each element's
//! children, and hands them to the builders of `crate::builders`.
//!
//! Every function here is proved equal to a spec-level mirror of the same
//! scan, so the decoded dictionary is pinned down as a function of the
//! input text alone: `decode_jmdict` returns exactly
//! `spec_decode_jmdict(s@)`. The mirrors apply the builders' spec functions
//! (`entry_of`, `sense_of`, `gloss_of`, `lsource_of`) to the child items
//! they collect, so the structural rules proved of the builders hold of the
//! document end to end. No function panics, every position stays inside the
//! input, and every scan terminates. Unknown elements are skipped whole;
//! the known ones are decoded at their own structural position.

use vstd::prelude::*;
use vstd::string::StrSliceExecFns;
use crate::model::{JMDict, JMDictV, Entry, EntryV, KEle, KEleV, REle, REleV, Sense, SenseV,
    JMDictError, DecodeFault, FaultRule, dict_wf, entry_wf};
use crate::builders::{XmlAttr, XmlAttrV, LeafItem, LeafItemV, SenseItem, SenseItemV, EntryItem,
    EntryItemV, attrs_v, leafs_v, sense_items_v, entry_items_v, k_ele_of, r_ele_of, sense_of,
    entry_of, gloss_of, lsource_of, make_gloss, make_lsource, make_k_ele, make_r_ele, make_sense,
    make_entry};
use crate::strutil::{push_char, str_eq};

verus! {

/// Markup whitespace.
pub open spec fn ws_char(c: char) -> bool {
    c == ' ' || c == '\t' || c == '\n' || c == '\r'
}

/// Characters that may stand in a tag, attribute or entity name.
pub open spec fn name_char(c: char) -> bool {
    &&& !ws_char(c)
    &&& c != '<'
    &&& c != '>'
    &&& c != '/'
    &&& c != '='
    &&& c != '"'
    &&& c != '\''
    &&& c != '&'
    &&& c != ';'
    &&& c != '?'
    &&& c != '!'
}

fn is_ws(c: char) -> (r: bool)
    ensures
        r == ws_char(c),
{
    c == ' ' || c == '\t' || c == '\n' || c == '\r'
}

fn is_name_char(c: char) -> (r: bool)
    ensures
        r == name_char(c),
{
    !is_ws(c) && c != '<' && c != '>' && c != '/' && c != '=' && c != '"' && c != '\'' && c != '&'
        && c != ';' && c != '?' && c != '!'
}

/// Whether the characters of `lit` stand in `s` at position `pos`.
fn starts_with_at(s: &str, pos: usize, lit: &str) -> (r: bool)
    requires
        pos <= s@.len(),
    ensures
        r == (pos + lit@.len() <= s@.len() && s@.subrange(pos as int, pos as int + lit@.len())
            == lit@),
{
    let n = s.unicode_len();
    let m = lit.unicode_len();
    if m > n - pos {
        return false;
    }
    let mut i: usize = 0;
    while i < m
        invariant
            0 <= i <= m,
            pos + m <= n,
            n == s@.len(),
            m == lit@.len(),
            forall|j: int| 0 <= j < i ==> s@[pos + j] == lit@[j],
        decreases m - i,
    {
        if s.get_char(pos + i) != lit.get_char(i) {
            proof {
                assert(s@.subrange(pos as int, pos as int + lit@.len())[i as int] == s@[pos + i]);
            }
            return false;
        }
        i += 1;
    }
    proof {
        assert(s@.subrange(pos as int, pos as int + lit@.len()) =~= lit@);
    }
    true
}

/// The first position at or after `pos` whose character is not whitespace,
/// or the end of the input.
pub open spec fn ws_end(s: Seq<char>, pos: int) -> int
    decreases s.len() - pos,
{
    if pos < 0 || pos >= s.len() {
        pos
    } else if ws_char(s[pos]) {
        ws_end(s, pos + 1)
    } else {
        pos
    }
}

pub proof fn lemma_ws_end_bounds(s: Seq<char>, pos: int)
    requires
        0 <= pos <= s.len(),
    ensures
        pos <= ws_end(s, pos) <= s.len(),
    decreases s.len() - pos,
{
    if pos < s.len() && ws_char(s[pos]) {
        lemma_ws_end_bounds(s, pos + 1);
    }
}

/// The first position at or after `pos` whose character is not whitespace.
fn skip_ws(s: &str, pos: usize) -> (r: usize)
    requires
        pos <= s@.len(),
    ensures
        pos <= r <= s@.len(),
        r == ws_end(s@, pos as int),
{
    let n = s.unicode_len();
    let mut p = pos;
    loop
        invariant
            pos <= p <= n,
            n == s@.len(),
            ws_end(s@, pos as int) == ws_end(s@, p as int),
        ensures
            pos <= p <= n,
            ws_end(s@, pos as int) == p,
        decreases n - p,
    {
        if p >= n {
            break;
        }
        if !is_ws(s.get_char(p)) {
            break;
        }
        p += 1;
    }
    p
}

/// The characters of `lit` stand in `s` at position `pos`.
pub open spec fn lit_at(s: Seq<char>, pos: int, lit: Seq<char>) -> bool {
    pos + lit.len() <= s.len() && s.subrange(pos, pos + lit.len()) == lit
}

/// The position just past the first occurrence of `delim` at or after
/// `pos`, or the exact fault when the input ends first.
pub open spec fn spec_skip_past(s: Seq<char>, pos: int, delim: Seq<char>) -> Result<
    int,
    DecodeFault,
>
    decreases s.len() - pos,
    when 0 <= pos
{
    if pos >= s.len() {
        Err((DecodeFault { rule: FaultRule::UnexpectedEnd, position: pos as usize }))
    } else if lit_at(s, pos, delim) {
        Ok(pos + delim.len())
    } else {
        spec_skip_past(s, pos + 1, delim)
    }
}

/// Scan forward until `delim` stands in the input; the result is the
/// position just past it.
fn skip_past(s: &str, pos: usize, delim: &str) -> (r: Result<usize, DecodeFault>)
    requires
        pos <= s@.len(),
    ensures
        r matches Ok(p) ==> pos <= p <= s@.len(),
        (match r {
            Ok(p) => Ok(p as int),
            Err(f) => Err(f),
        }) == spec_skip_past(s@, pos as int, delim@),
{
    let n = s.unicode_len();
    let m = delim.unicode_len();
    let mut p = pos;
    loop
        invariant
            pos <= p <= n,
            n == s@.len(),
            m == delim@.len(),
            spec_skip_past(s@, pos as int, delim@) == spec_skip_past(s@, p as int, delim@),
        decreases n - p,
    {
        if p >= n {
            return Err(DecodeFault { rule: FaultRule::UnexpectedEnd, position: p });
        }
        if starts_with_at(s, p, delim) {
            return Ok(p + m);
        }
        p += 1;
    }
}

/// The position just past the `>` that closes a declaration whose nesting
/// level at `pos` is `depth`, or the exact fault when the input ends first.
pub open spec fn spec_skip_decl(s: Seq<char>, pos: int, depth: int) -> Result<int, DecodeFault>
    decreases s.len() - pos,
    when 0 <= pos
{
    if pos >= s.len() {
        Err((DecodeFault { rule: FaultRule::UnexpectedEnd, position: pos as usize }))
    } else if s[pos] == '<' {
        spec_skip_decl(s, pos + 1, depth + 1)
    } else if s[pos] == '>' {
        if depth == 1 {
            Ok(pos + 1)
        } else {
            spec_skip_decl(s, pos + 1, depth - 1)
        }
    } else {
        spec_skip_decl(s, pos + 1, depth)
    }
}

/// Skip a declaration such as a document-type definition, whose internal
/// subset may nest further `<!...>` groups; `pos` stands after the opening
/// `<!`.
fn skip_decl(s: &str, pos: usize) -> (r: Result<usize, DecodeFault>)
    requires
        1 <= pos <= s@.len(),
    ensures
        r matches Ok(p) ==> pos <= p <= s@.len(),
        (match r {
            Ok(p) => Ok(p as int),
            Err(f) => Err(f),
        }) == spec_skip_decl(s@, pos as int, 1),
{
    let n = s.unicode_len();
    let mut p = pos;
    let mut depth: usize = 1;
    loop
        invariant
            pos <= p <= n,
            n == s@.len(),
            1 <= pos,
            1 <= depth <= 1 + (p - pos),
            spec_skip_decl(s@, pos as int, 1) == spec_skip_decl(s@, p as int, depth as int),
        decreases n - p,
    {
        if p >= n {
            return Err(DecodeFault { rule: FaultRule::UnexpectedEnd, position: p });
        }
        let c = s.get_char(p);
        if c == '<' {
            depth += 1;
        } else if c == '>' {
            if depth == 1 {
                return Ok(p + 1);
            }
            depth -= 1;
        }
        p += 1;
    }
}

/// The first position at or after `pos` whose character cannot stand in a
/// name, or the end of the input: the name starting at `pos` is exactly the
/// characters before it.
pub open spec fn name_end(s: Seq<char>, pos: int) -> int
    decreases s.len() - pos,
{
    if pos < 0 || pos >= s.len() {
        pos
    } else if name_char(s[pos]) {
        name_end(s, pos + 1)
    } else {
        pos
    }
}

pub proof fn lemma_name_end_bounds(s: Seq<char>, pos: int)
    requires
        0 <= pos <= s.len(),
    ensures
        pos <= name_end(s, pos) <= s.len(),
    decreases s.len() - pos,
{
    if pos < s.len() && name_char(s[pos]) {
        lemma_name_end_bounds(s, pos + 1);
    }
}

/// What reading a name at `pos` yields: the characters up to `name_end`,
/// or a malformed-tag fault when the name would be empty.
pub open spec fn spec_parse_name(s: Seq<char>, pos: int) -> Result<(Seq<char>, int), DecodeFault> {
    if name_end(s, pos) == pos {
        Err((DecodeFault { rule: FaultRule::MalformedTag, position: pos as usize }))
    } else {
        Ok((s.subrange(pos, name_end(s, pos)), name_end(s, pos)))
    }
}

/// Read a nonempty name starting at `pos`.
fn parse_name(s: &str, pos: usize) -> (r: Result<(String, usize), DecodeFault>)
    requires
        pos <= s@.len(),
    ensures
        r matches Ok(t) ==> pos < t.1 <= s@.len(),
        (match r {
            Ok((nm, p)) => Ok((nm@, p as int)),
            Err(f) => Err(f),
        }) == spec_parse_name(s@, pos as int),
{
    let n = s.unicode_len();
    let mut p = pos;
    let mut name = String::new();
    loop
        invariant
            pos <= p <= n,
            n == s@.len(),
            name_end(s@, pos as int) == name_end(s@, p as int),
            name@ == s@.subrange(pos as int, p as int),
        ensures
            pos <= p <= n,
            name_end(s@, pos as int) == p,
            name@ == s@.subrange(pos as int, p as int),
        decreases n - p,
    {
        if p >= n {
            break;
        }
        let c = s.get_char(p);
        if !is_name_char(c) {
            break;
        }
        push_char(&mut name, c);
        proof {
            assert(s@.subrange(pos as int, p + 1) =~= s@.subrange(pos as int, p as int).push(
                s@[p as int],
            ));
        }
        p += 1;
    }
    if p == pos {
        return Err(DecodeFault { rule: FaultRule::MalformedTag, position: pos });
    }
    Ok((name, p))
}

/// The character a predefined entity name stands for, if it is one of the
/// five the format recognizes.
pub open spec fn entity_char(nm: Seq<char>) -> Option<char> {
    if nm == "amp"@ {
        Some('&')
    } else if nm == "lt"@ {
        Some('<')
    } else if nm == "gt"@ {
        Some('>')
    } else if nm == "quot"@ {
        Some('"')
    } else if nm == "apos"@ {
        Some('\'')
    } else {
        None
    }
}

/// What decoding an entity reference at `pos` (just after the `&`) yields:
/// the named character and the position past the `;`, or the exact fault.
pub open spec fn spec_parse_entity(s: Seq<char>, pos: int) -> Result<(char, int), DecodeFault> {
    let end = name_end(s, pos);
    if end == pos {
        Err((DecodeFault { rule: FaultRule::UnknownEntity, position: pos as usize }))
    } else if end >= s.len() {
        Err((DecodeFault { rule: FaultRule::UnexpectedEnd, position: end as usize }))
    } else if s[end] != ';' {
        Err((DecodeFault { rule: FaultRule::UnknownEntity, position: pos as usize }))
    } else {
        match entity_char(s.subrange(pos, end)) {
            Some(c) => Ok((c, end + 1)),
            None => Err((DecodeFault { rule: FaultRule::UnknownEntity, position: pos as usize })),
        }
    }
}

/// Decode one entity reference; `pos` stands after the `&`. Exactly the five
/// predefined entities are recognized.
fn parse_entity(s: &str, pos: usize) -> (r: Result<(char, usize), DecodeFault>)
    requires
        pos <= s@.len(),
    ensures
        r matches Ok(t) ==> pos < t.1 <= s@.len(),
        (match r {
            Ok((c, p)) => Ok((c, p as int)),
            Err(f) => Err(f),
        }) == spec_parse_entity(s@, pos as int),
{
    let n = s.unicode_len();
    let (nm, p1) = match parse_name(s, pos) {
        Ok(t) => t,
        Err(_) => {
            return Err(DecodeFault { rule: FaultRule::UnknownEntity, position: pos });
        },
    };
    if p1 >= n {
        return Err(DecodeFault { rule: FaultRule::UnexpectedEnd, position: p1 });
    }
    if s.get_char(p1) != ';' {
        return Err(DecodeFault { rule: FaultRule::UnknownEntity, position: pos });
    }
    let c: char = if str_eq(nm.as_str(), "amp") {
        '&'
    } else if str_eq(nm.as_str(), "lt") {
        '<'
    } else if str_eq(nm.as_str(), "gt") {
        '>'
    } else if str_eq(nm.as_str(), "quot") {
        '"'
    } else if str_eq(nm.as_str(), "apos") {
        '\''
    } else {
        return Err(DecodeFault { rule: FaultRule::UnknownEntity, position: pos });
    };
    Ok((c, p1 + 1))
}

/// What reading an attribute value at `pos` up to the closing quote `q`
/// yields, with `acc` the characters read so far: the decoded value and the
/// position past the quote, or the exact fault.
pub open spec fn spec_attr_value(s: Seq<char>, pos: int, q: char, acc: Seq<char>) -> Result<
    (Seq<char>, int),
    DecodeFault,
>
    decreases s.len() - pos,
    when 0 <= pos
    via spec_attr_value_decreases
{
    if pos >= s.len() {
        Err((DecodeFault { rule: FaultRule::UnexpectedEnd, position: pos as usize }))
    } else if s[pos] == q {
        Ok((acc, pos + 1))
    } else if s[pos] == '<' {
        Err((DecodeFault { rule: FaultRule::MalformedTag, position: pos as usize }))
    } else if s[pos] == '&' {
        match spec_parse_entity(s, pos + 1) {
            Ok((c, np)) => spec_attr_value(s, np, q, acc.push(c)),
            Err(f) => Err(f),
        }
    } else {
        spec_attr_value(s, pos + 1, q, acc.push(s[pos]))
    }
}

#[via_fn]
proof fn spec_attr_value_decreases(s: Seq<char>, pos: int, q: char, acc: Seq<char>) {
    if 0 <= pos < s.len() && s[pos] == '&' {
        lemma_name_end_bounds(s, pos + 1);
    }
}

/// Read an attribute value up to the closing quote `q`, decoding entities.
fn parse_attr_value(s: &str, pos: usize, q: char) -> (r: Result<(String, usize), DecodeFault>)
    requires
        pos <= s@.len(),
    ensures
        r matches Ok(t) ==> pos <= t.1 <= s@.len(),
        (match r {
            Ok((v, p)) => Ok((v@, p as int)),
            Err(f) => Err(f),
        }) == spec_attr_value(s@, pos as int, q, Seq::empty()),
{
    let n = s.unicode_len();
    let mut p = pos;
    let mut val = String::new();
    loop
        invariant
            pos <= p <= n,
            n == s@.len(),
            spec_attr_value(s@, pos as int, q, Seq::empty()) == spec_attr_value(
                s@,
                p as int,
                q,
                val@,
            ),
        decreases n - p,
    {
        if p >= n {
            return Err(DecodeFault { rule: FaultRule::UnexpectedEnd, position: p });
        }
        let c = s.get_char(p);
        if c == q {
            return Ok((val, p + 1));
        }
        if c == '<' {
            return Err(DecodeFault { rule: FaultRule::MalformedTag, position: p });
        }
        if c == '&' {
            let (ch, np) = match parse_entity(s, p + 1) {
                Ok(t) => t,
                Err(e) => {
                    return Err(e);
                },
            };
            push_char(&mut val, ch);
            p = np;
        } else {
            push_char(&mut val, c);
            p += 1;
        }
    }
}

pub proof fn lemma_attr_value_bounds(s: Seq<char>, pos: int, q: char, acc: Seq<char>)
    requires
        0 <= pos,
    ensures
        spec_attr_value(s, pos, q, acc) matches Ok(t) ==> pos < t.1 <= s.len(),
    decreases s.len() - pos,
{
    if pos < s.len() {
        if s[pos] == q || s[pos] == '<' {
        } else if s[pos] == '&' {
            match spec_parse_entity(s, pos + 1) {
                Ok((c, np)) => {
                    lemma_name_end_bounds(s, pos + 1);
                    lemma_attr_value_bounds(s, np, q, acc.push(c));
                },
                Err(_) => {
                },
            }
        } else {
            lemma_attr_value_bounds(s, pos + 1, q, acc.push(s[pos]));
        }
    }
}

/// What reading an attribute list at `pos` (whitespace already skipped)
/// yields, with `acc` the attributes read so far: the attributes, the
/// self-closing flag and the position past the tag end, or the exact fault.
pub open spec fn spec_parse_attrs(s: Seq<char>, pos: int, acc: Seq<XmlAttrV>) -> Result<
    (Seq<XmlAttrV>, bool, int),
    DecodeFault,
>
    decreases s.len() - pos,
    when 0 <= pos
    via spec_parse_attrs_decreases
{
    if pos >= s.len() {
        Err((DecodeFault { rule: FaultRule::UnexpectedEnd, position: pos as usize }))
    } else if s[pos] == '>' {
        Ok((acc, false, pos + 1))
    } else if s[pos] == '/' {
        if pos + 1 < s.len() && s[pos + 1] == '>' {
            Ok((acc, true, pos + 2))
        } else {
            Err((DecodeFault { rule: FaultRule::MalformedTag, position: pos as usize }))
        }
    } else {
        match spec_parse_name(s, pos) {
            Err(f) => Err(f),
            Ok((aname, p1)) => {
                let p2 = ws_end(s, p1);
                if p2 >= s.len() {
                    Err((DecodeFault { rule: FaultRule::UnexpectedEnd, position: p2 as usize }))
                } else if s[p2] != '=' {
                    Err((DecodeFault { rule: FaultRule::MalformedTag, position: p2 as usize }))
                } else {
                    let p3 = ws_end(s, p2 + 1);
                    if p3 >= s.len() {
                        Err(
                            (DecodeFault {
                                rule: FaultRule::UnexpectedEnd,
                                position: p3 as usize,
                            }),
                        )
                    } else if s[p3] != '"' && s[p3] != '\'' {
                        Err((DecodeFault { rule: FaultRule::MalformedTag, position: p3 as usize }))
                    } else {
                        match spec_attr_value(s, p3 + 1, s[p3], Seq::empty()) {
                            Err(f) => Err(f),
                            Ok((v, p4)) => spec_parse_attrs(
                                s,
                                ws_end(s, p4),
                                acc.push(XmlAttrV { name: aname, value: v }),
                            ),
                        }
                    }
                }
            },
        }
    }
}

#[via_fn]
proof fn spec_parse_attrs_decreases(s: Seq<char>, pos: int, acc: Seq<XmlAttrV>) {
    if 0 <= pos < s.len() && s[pos] != '>' && s[pos] != '/' {
        lemma_name_end_bounds(s, pos);
        let p1 = name_end(s, pos);
        if p1 != pos {
            lemma_ws_end_bounds(s, p1);
            let p2 = ws_end(s, p1);
            if p2 < s.len() && s[p2] == '=' {
                lemma_ws_end_bounds(s, p2 + 1);
                let p3 = ws_end(s, p2 + 1);
                if p3 < s.len() {
                    lemma_attr_value_bounds(s, p3 + 1, s[p3], Seq::empty());
                    match spec_attr_value(s, p3 + 1, s[p3], Seq::empty()) {
                        Ok((v, p4)) => {
                            lemma_ws_end_bounds(s, p4);
                        },
                        Err(_) => {
                        },
                    }
                }
            }
        }
    }
}

/// Read the attribute list and the tag end after a tag name; the flag says
/// whether the tag closed itself.
fn parse_attrs(s: &str, pos: usize) -> (r: Result<(Vec<XmlAttr>, bool, usize), DecodeFault>)
    requires
        pos <= s@.len(),
    ensures
        r matches Ok(t) ==> pos <= t.2 <= s@.len(),
        (match r {
            Ok((a, sc, p)) => Ok((attrs_v(a@), sc, p as int)),
            Err(f) => Err(f),
        }) == spec_parse_attrs(s@, ws_end(s@, pos as int), Seq::empty()),
{
    let n = s.unicode_len();
    let mut attrs: Vec<XmlAttr> = Vec::new();
    let mut p = skip_ws(s, pos);
    proof {
        assert(attrs_v(attrs@) =~= Seq::<XmlAttrV>::empty());
    }
    loop
        invariant
            pos <= p <= n,
            n == s@.len(),
            spec_parse_attrs(s@, ws_end(s@, pos as int), Seq::empty()) == spec_parse_attrs(
                s@,
                p as int,
                attrs_v(attrs@),
            ),
        decreases n - p,
    {
        if p >= n {
            return Err(DecodeFault { rule: FaultRule::UnexpectedEnd, position: p });
        }
        let c = s.get_char(p);
        if c == '>' {
            return Ok((attrs, false, p + 1));
        }
        if c == '/' {
            if p + 1 < n && s.get_char(p + 1) == '>' {
                return Ok((attrs, true, p + 2));
            }
            return Err(DecodeFault { rule: FaultRule::MalformedTag, position: p });
        }
        let (aname, p1) = match parse_name(s, p) {
            Ok(t) => t,
            Err(e) => {
                return Err(e);
            },
        };
        let p2 = skip_ws(s, p1);
        if p2 >= n {
            return Err(DecodeFault { rule: FaultRule::UnexpectedEnd, position: p2 });
        }
        if s.get_char(p2) != '=' {
            return Err(DecodeFault { rule: FaultRule::MalformedTag, position: p2 });
        }
        let p3 = skip_ws(s, p2 + 1);
        if p3 >= n {
            return Err(DecodeFault { rule: FaultRule::UnexpectedEnd, position: p3 });
        }
        let q = s.get_char(p3);
        if q != '"' && q != '\'' {
            return Err(DecodeFault { rule: FaultRule::MalformedTag, position: p3 });
        }
        let (val, p4) = match parse_attr_value(s, p3 + 1, q) {
            Ok(t) => t,
            Err(e) => {
                return Err(e);
            },
        };
        let ghost old_attrs = attrs@;
        attrs.push(XmlAttr { name: aname, value: val });
        proof {
            assert(attrs_v(attrs@) =~= attrs_v(old_attrs).push(attrs@.last()@));
        }
        p = skip_ws(s, p4);
    }
}

/// What reading a whole opening tag after its `<` yields: name, attributes,
/// self-closing flag and the position past the tag, or the exact fault.
pub open spec fn spec_open_tag(s: Seq<char>, pos: int) -> Result<
    (Seq<char>, Seq<XmlAttrV>, bool, int),
    DecodeFault,
> {
    match spec_parse_name(s, pos) {
        Err(f) => Err(f),
        Ok((nm, p1)) => match spec_parse_attrs(s, ws_end(s, p1), Seq::empty()) {
            Err(f) => Err(f),
            Ok((attrs, sc, p2)) => Ok((nm, attrs, sc, p2)),
        },
    }
}

/// Read a whole opening tag after its `<`: name, attributes, end.
fn parse_open_tag_rest(s: &str, pos: usize) -> (r: Result<
    (String, Vec<XmlAttr>, bool, usize),
    DecodeFault,
>)
    requires
        pos <= s@.len(),
    ensures
        r matches Ok(t) ==> pos < t.3 <= s@.len(),
        (match r {
            Ok((nm, a, sc, p)) => Ok((nm@, attrs_v(a@), sc, p as int)),
            Err(f) => Err(f),
        }) == spec_open_tag(s@, pos as int),
{
    let (name, p1) = match parse_name(s, pos) {
        Ok(t) => t,
        Err(e) => {
            return Err(e);
        },
    };
    let (attrs, selfclosing, p2) = match parse_attrs(s, p1) {
        Ok(t) => t,
        Err(e) => {
            return Err(e);
        },
    };
    Ok((name, attrs, selfclosing, p2))
}

/// What reading a closing tag after its `</` yields: the name and the
/// position past the `>`, or the exact fault.
pub open spec fn spec_close_tag(s: Seq<char>, pos: int) -> Result<(Seq<char>, int), DecodeFault> {
    match spec_parse_name(s, pos) {
        Err(f) => Err(f),
        Ok((nm, p1)) => {
            let p2 = ws_end(s, p1);
            if p2 >= s.len() {
                Err((DecodeFault { rule: FaultRule::UnexpectedEnd, position: p2 as usize }))
            } else if s[p2] != '>' {
                Err((DecodeFault { rule: FaultRule::MalformedTag, position: p2 as usize }))
            } else {
                Ok((nm, p2 + 1))
            }
        },
    }
}

/// Read a closing tag after its `</`: the name and the `>`.
fn parse_close_rest(s: &str, pos: usize) -> (r: Result<(String, usize), DecodeFault>)
    requires
        pos <= s@.len(),
    ensures
        r matches Ok(t) ==> pos < t.1 <= s@.len(),
        (match r {
            Ok((nm, p)) => Ok((nm@, p as int)),
            Err(f) => Err(f),
        }) == spec_close_tag(s@, pos as int),
{
    let n = s.unicode_len();
    let (name, p1) = match parse_name(s, pos) {
        Ok(t) => t,
        Err(e) => {
            return Err(e);
        },
    };
    let p2 = skip_ws(s, p1);
    if p2 >= n {
        return Err(DecodeFault { rule: FaultRule::UnexpectedEnd, position: p2 });
    }
    if s.get_char(p2) != '>' {
        return Err(DecodeFault { rule: FaultRule::MalformedTag, position: p2 });
    }
    Ok((name, p2 + 1))
}

pub proof fn lemma_skip_past_bounds(s: Seq<char>, pos: int, delim: Seq<char>)
    requires
        0 <= pos,
    ensures
        spec_skip_past(s, pos, delim) matches Ok(p) ==> pos <= p <= s.len(),
    decreases s.len() - pos,
{
    if pos < s.len() && !lit_at(s, pos, delim) {
        lemma_skip_past_bounds(s, pos + 1, delim);
    }
}

pub proof fn lemma_skip_decl_bounds(s: Seq<char>, pos: int, depth: int)
    requires
        0 <= pos,
    ensures
        spec_skip_decl(s, pos, depth) matches Ok(p) ==> pos < p <= s.len(),
    decreases s.len() - pos,
{
    if pos < s.len() {
        lemma_skip_decl_bounds(s, pos + 1, depth + 1);
        lemma_skip_decl_bounds(s, pos + 1, depth - 1);
        lemma_skip_decl_bounds(s, pos + 1, depth);
    }
}

pub proof fn lemma_cdata_bounds(s: Seq<char>, pos: int, acc: Seq<char>)
    requires
        0 <= pos,
    ensures
        spec_cdata(s, pos, acc) matches Ok(t) ==> pos <= t.1 <= s.len(),
    decreases s.len() - pos,
{
    if !lit_at(s, pos, "]]>"@) && pos < s.len() {
        lemma_cdata_bounds(s, pos + 1, acc.push(s[pos]));
    }
}

pub proof fn lemma_parse_attrs_bounds(s: Seq<char>, pos: int, acc: Seq<XmlAttrV>)
    requires
        0 <= pos,
    ensures
        spec_parse_attrs(s, pos, acc) matches Ok(t) ==> pos < t.2 <= s.len(),
    decreases s.len() - pos,
{
    if 0 <= pos < s.len() && s[pos] != '>' && s[pos] != '/' {
        lemma_name_end_bounds(s, pos);
        let p1 = name_end(s, pos);
        if p1 != pos {
            lemma_ws_end_bounds(s, p1);
            let p2 = ws_end(s, p1);
            if p2 < s.len() && s[p2] == '=' {
                lemma_ws_end_bounds(s, p2 + 1);
                let p3 = ws_end(s, p2 + 1);
                if p3 < s.len() && (s[p3] == '"' || s[p3] == '\'') {
                    lemma_attr_value_bounds(s, p3 + 1, s[p3], Seq::empty());
                    match spec_attr_value(s, p3 + 1, s[p3], Seq::empty()) {
                        Ok((v, p4)) => {
                            lemma_ws_end_bounds(s, p4);
                            lemma_parse_attrs_bounds(
                                s,
                                ws_end(s, p4),
                                acc.push(XmlAttrV { name: s.subrange(pos, p1), value: v }),
                            );
                        },
                        Err(_) => {
                        },
                    }
                }
            }
        }
    }
}

pub proof fn lemma_open_tag_bounds(s: Seq<char>, pos: int)
    requires
        0 <= pos,
    ensures
        spec_open_tag(s, pos) matches Ok(t) ==> pos < t.3 <= s.len(),
{
    if pos <= s.len() {
        lemma_name_end_bounds(s, pos);
        let p1 = name_end(s, pos);
        if p1 != pos {
            lemma_ws_end_bounds(s, p1);
            lemma_parse_attrs_bounds(s, ws_end(s, p1), Seq::empty());
        }
    }
}

pub proof fn lemma_close_tag_bounds(s: Seq<char>, pos: int)
    requires
        0 <= pos,
    ensures
        spec_close_tag(s, pos) matches Ok(t) ==> pos < t.1 <= s.len(),
{
    if pos <= s.len() {
        lemma_name_end_bounds(s, pos);
        let p1 = name_end(s, pos);
        if p1 != pos {
            lemma_ws_end_bounds(s, p1);
        }
    }
}

/// The position just past the closing tag that ends an element whose
/// nesting level at `pos` is `depth`, skipping everything inside, or the
/// exact fault.
pub open spec fn spec_skip_element(s: Seq<char>, pos: int, depth: int) -> Result<int, DecodeFault>
    decreases s.len() - pos,
    when 0 <= pos
    via spec_skip_element_decreases
{
    if pos >= s.len() {
        Err((DecodeFault { rule: FaultRule::UnexpectedEnd, position: pos as usize }))
    } else if s[pos] != '<' {
        spec_skip_element(s, pos + 1, depth)
    } else if lit_at(s, pos, "</"@) {
        match spec_close_tag(s, pos + "</"@.len()) {
            Err(f) => Err(f),
            Ok((cn, p2)) => if depth == 1 {
                Ok(p2)
            } else {
                spec_skip_element(s, p2, depth - 1)
            },
        }
    } else if lit_at(s, pos, "<!--"@) {
        match spec_skip_past(s, pos + "<!--"@.len(), "-->"@) {
            Err(f) => Err(f),
            Ok(p2) => spec_skip_element(s, p2, depth),
        }
    } else if lit_at(s, pos, "<?"@) {
        match spec_skip_past(s, pos + "<?"@.len(), "?>"@) {
            Err(f) => Err(f),
            Ok(p2) => spec_skip_element(s, p2, depth),
        }
    } else if lit_at(s, pos, "<!"@) {
        match spec_skip_decl(s, pos + "<!"@.len(), 1) {
            Err(f) => Err(f),
            Ok(p2) => spec_skip_element(s, p2, depth),
        }
    } else {
        match spec_open_tag(s, pos + 1) {
            Err(f) => Err(f),
            Ok((nm, a, sc, p2)) => spec_skip_element(
                s,
                p2,
                if sc {
                    depth
                } else {
                    depth + 1
                },
            ),
        }
    }
}

#[via_fn]
proof fn spec_skip_element_decreases(s: Seq<char>, pos: int, depth: int) {
    reveal_strlit("</");
    reveal_strlit("<!--");
    reveal_strlit("-->");
    reveal_strlit("<?");
    reveal_strlit("?>");
    reveal_strlit("<!");
    if 0 <= pos < s.len() {
        lemma_close_tag_bounds(s, pos + 2);
        lemma_skip_past_bounds(s, pos + 4, "-->"@);
        lemma_skip_past_bounds(s, pos + 2, "?>"@);
        lemma_skip_decl_bounds(s, pos + 2, 1);
        lemma_open_tag_bounds(s, pos + 1);
    }
}

/// Skip the content and closing tag of an element whose opening tag was
/// already consumed; nesting is tracked by depth.
#[verifier::loop_isolation(false)]
fn skip_element_rest(s: &str, pos: usize) -> (r: Result<usize, DecodeFault>)
    requires
        1 <= pos <= s@.len(),
    ensures
        r matches Ok(p) ==> pos <= p <= s@.len(),
        (match r {
            Ok(p) => Ok(p as int),
            Err(f) => Err(f),
        }) == spec_skip_element(s@, pos as int, 1),
{
    let n = s.unicode_len();
    proof {
        reveal_strlit("</");
        reveal_strlit("<!--");
        reveal_strlit("-->");
        reveal_strlit("<?");
        reveal_strlit("?>");
        reveal_strlit("<!");
    }
    let mut p = pos;
    let mut depth: usize = 1;
    loop
        invariant
            pos <= p <= n,
            n == s@.len(),
            1 <= pos,
            1 <= depth <= 1 + (p - pos),
            spec_skip_element(s@, pos as int, 1) == spec_skip_element(s@, p as int, depth as int),
        decreases n - p,
    {
        if p >= n {
            return Err(DecodeFault { rule: FaultRule::UnexpectedEnd, position: p });
        }
        let c = s.get_char(p);
        if c != '<' {
            p += 1;
        } else if starts_with_at(s, p, "</") {
            let (_cn, p2) = match parse_close_rest(s, p + 2) {
                Ok(t) => t,
                Err(e) => {
                    return Err(e);
                },
            };
            if depth == 1 {
                return Ok(p2);
            }
            depth -= 1;
            p = p2;
        } else if starts_with_at(s, p, "<!--") {
            let m = "<!--".unicode_len();
            p = match skip_past(s, p + m, "-->") {
                Ok(t) => t,
                Err(e) => {
                    return Err(e);
                },
            };
        } else if starts_with_at(s, p, "<?") {
            let m = "<?".unicode_len();
            p = match skip_past(s, p + m, "?>") {
                Ok(t) => t,
                Err(e) => {
                    return Err(e);
                },
            };
        } else if starts_with_at(s, p, "<!") {
            let m = "<!".unicode_len();
            p = match skip_decl(s, p + m) {
                Ok(t) => t,
                Err(e) => {
                    return Err(e);
                },
            };
        } else {
            let (_nm, _attrs, selfclosing, p2) = match parse_open_tag_rest(s, p + 1) {
                Ok(t) => t,
                Err(e) => {
                    return Err(e);
                },
            };
            if !selfclosing {
                depth += 1;
            }
            p = p2;
        }
    }
}

/// What copying a character-data section at `pos` yields, with `acc` the
/// payload so far: the extended payload and the position past the `]]>`
/// terminator, or the exact fault when the input ends first.
pub open spec fn spec_cdata(s: Seq<char>, pos: int, acc: Seq<char>) -> Result<
    (Seq<char>, int),
    DecodeFault,
>
    decreases s.len() - pos,
    when 0 <= pos
{
    if lit_at(s, pos, "]]>"@) {
        Ok((acc, pos + "]]>"@.len()))
    } else if pos >= s.len() {
        Err((DecodeFault { rule: FaultRule::UnexpectedEnd, position: pos as usize }))
    } else {
        spec_cdata(s, pos + 1, acc.push(s[pos]))
    }
}

pub proof fn lemma_skip_element_bounds(s: Seq<char>, pos: int, depth: int)
    requires
        0 <= pos,
    ensures
        spec_skip_element(s, pos, depth) matches Ok(p) ==> pos < p <= s.len(),
    decreases s.len() - pos,
{
    reveal_strlit("</");
    reveal_strlit("<!--");
    reveal_strlit("-->");
    reveal_strlit("<?");
    reveal_strlit("?>");
    reveal_strlit("<!");
    if 0 <= pos < s.len() {
        if s[pos] != '<' {
            lemma_skip_element_bounds(s, pos + 1, depth);
        } else if lit_at(s, pos, "</"@) {
            lemma_close_tag_bounds(s, pos + 2);
            match spec_close_tag(s, pos + 2) {
                Ok((cn, p2)) => {
                    if depth != 1 {
                        lemma_skip_element_bounds(s, p2, depth - 1);
                    }
                },
                Err(_) => {
                },
            }
        } else if lit_at(s, pos, "<!--"@) {
            lemma_skip_past_bounds(s, pos + 4, "-->"@);
            match spec_skip_past(s, pos + 4, "-->"@) {
                Ok(p2) => {
                    lemma_skip_element_bounds(s, p2, depth);
                },
                Err(_) => {
                },
            }
        } else if lit_at(s, pos, "<?"@) {
            lemma_skip_past_bounds(s, pos + 2, "?>"@);
            match spec_skip_past(s, pos + 2, "?>"@) {
                Ok(p2) => {
                    lemma_skip_element_bounds(s, p2, depth);
                },
                Err(_) => {
                },
            }
        } else if lit_at(s, pos, "<!"@) {
            lemma_skip_decl_bounds(s, pos + 2, 1);
            match spec_skip_decl(s, pos + 2, 1) {
                Ok(p2) => {
                    lemma_skip_element_bounds(s, p2, depth);
                },
                Err(_) => {
                },
            }
        } else {
            lemma_open_tag_bounds(s, pos + 1);
            match spec_open_tag(s, pos + 1) {
                Ok((nm, a, sc, p2)) => {
                    lemma_skip_element_bounds(
                        s,
                        p2,
                        if sc {
                            depth
                        } else {
                            depth + 1
                        },
                    );
                },
                Err(_) => {
                },
            }
        }
    }
}

/// Copy the characters of a character-data section into the payload buffer,
/// up to and past its `]]>` terminator; `pos` stands after the opening
/// `<![CDATA[`.
fn copy_cdata(s: &str, pos: usize, buf: &mut String) -> (r: Result<usize, DecodeFault>)
    requires
        pos <= s@.len(),
    ensures
        r matches Ok(p) ==> pos <= p <= s@.len(),
        r matches Ok(p) ==> Ok::<(Seq<char>, int), DecodeFault>((final(buf)@, p as int))
            == spec_cdata(s@, pos as int, old(buf)@),
        r matches Err(f) ==> spec_cdata(s@, pos as int, old(buf)@) == Err::<
            (Seq<char>, int),
            DecodeFault,
        >(f),
{
    let n = s.unicode_len();
    let m = "]]>".unicode_len();
    let mut p = pos;
    loop
        invariant
            pos <= p <= n,
            n == s@.len(),
            m == "]]>"@.len(),
            spec_cdata(s@, pos as int, old(buf)@) == spec_cdata(s@, p as int, buf@),
        decreases n - p,
    {
        if starts_with_at(s, p, "]]>") {
            return Ok(p + m);
        }
        if p >= n {
            return Err(DecodeFault { rule: FaultRule::UnexpectedEnd, position: p });
        }
        push_char(buf, s.get_char(p));
        p += 1;
    }
}

/// What reading the text content of an element named `name` at `pos`
/// yields, with `acc` the payload so far: the payload up to the matching
/// closing tag with entities decoded and character-data taken verbatim,
/// skipped nested elements contributing nothing, and the position past the
/// closing tag — or the exact fault.
pub open spec fn spec_text_content(
    s: Seq<char>,
    pos: int,
    name: Seq<char>,
    acc: Seq<char>,
) -> Result<(Seq<char>, int), DecodeFault>
    decreases s.len() - pos,
    when 0 <= pos
    via spec_text_content_decreases
{
    if pos >= s.len() {
        Err((DecodeFault { rule: FaultRule::UnexpectedEnd, position: pos as usize }))
    } else if s[pos] != '<' {
        if s[pos] == '&' {
            match spec_parse_entity(s, pos + 1) {
                Err(f) => Err(f),
                Ok((c, np)) => spec_text_content(s, np, name, acc.push(c)),
            }
        } else {
            spec_text_content(s, pos + 1, name, acc.push(s[pos]))
        }
    } else if lit_at(s, pos, "</"@) {
        match spec_close_tag(s, pos + "</"@.len()) {
            Err(f) => Err(f),
            Ok((cn, p2)) => if cn == name {
                Ok((acc, p2))
            } else {
                Err((DecodeFault { rule: FaultRule::MismatchedClose, position: pos as usize }))
            },
        }
    } else if lit_at(s, pos, "<![CDATA["@) {
        match spec_cdata(s, pos + "<![CDATA["@.len(), acc) {
            Err(f) => Err(f),
            Ok((acc2, p2)) => spec_text_content(s, p2, name, acc2),
        }
    } else if lit_at(s, pos, "<!--"@) {
        match spec_skip_past(s, pos + "<!--"@.len(), "-->"@) {
            Err(f) => Err(f),
            Ok(p2) => spec_text_content(s, p2, name, acc),
        }
    } else if lit_at(s, pos, "<?"@) {
        match spec_skip_past(s, pos + "<?"@.len(), "?>"@) {
            Err(f) => Err(f),
            Ok(p2) => spec_text_content(s, p2, name, acc),
        }
    } else if lit_at(s, pos, "<!"@) {
        match spec_skip_decl(s, pos + "<!"@.len(), 1) {
            Err(f) => Err(f),
            Ok(p2) => spec_text_content(s, p2, name, acc),
        }
    } else {
        match spec_open_tag(s, pos + 1) {
            Err(f) => Err(f),
            Ok((nm2, a2, sc, p2)) => if sc {
                spec_text_content(s, p2, name, acc)
            } else {
                match spec_skip_element(s, p2, 1) {
                    Err(f) => Err(f),
                    Ok(p3) => spec_text_content(s, p3, name, acc),
                }
            },
        }
    }
}

#[via_fn]
proof fn spec_text_content_decreases(s: Seq<char>, pos: int, name: Seq<char>, acc: Seq<char>) {
    reveal_strlit("</");
    reveal_strlit("<![CDATA[");
    reveal_strlit("<!--");
    reveal_strlit("-->");
    reveal_strlit("<?");
    reveal_strlit("?>");
    reveal_strlit("<!");
    if 0 <= pos < s.len() {
        lemma_name_end_bounds(s, pos + 1);
        lemma_cdata_bounds(s, pos + 9, acc);
        lemma_skip_past_bounds(s, pos + 4, "-->"@);
        lemma_skip_past_bounds(s, pos + 2, "?>"@);
        lemma_skip_decl_bounds(s, pos + 2, 1);
        lemma_open_tag_bounds(s, pos + 1);
        match spec_open_tag(s, pos + 1) {
            Ok((nm2, a2, sc, p2)) => {
                lemma_skip_element_bounds(s, p2, 1);
            },
            Err(_) => {
            },
        }
    }
}

/// Read the text content of an element up to its matching closing tag,
/// decoding entities; a character-data section contributes its characters
/// verbatim; nested elements are skipped, their text is not part of the
/// payload.
#[verifier::loop_isolation(false)]
fn collect_text_content(s: &str, pos: usize, name: &str) -> (r: Result<
    (String, usize),
    DecodeFault,
>)
    requires
        pos <= s@.len(),
    ensures
        r matches Ok(t) ==> pos < t.1 <= s@.len(),
        (match r {
            Ok((t, p)) => Ok((t@, p as int)),
            Err(f) => Err(f),
        }) == spec_text_content(s@, pos as int, name@, Seq::empty()),
{
    let n = s.unicode_len();
    proof {
        reveal_strlit("</");
        reveal_strlit("<!--");
        reveal_strlit("-->");
        reveal_strlit("<?");
        reveal_strlit("?>");
        reveal_strlit("<!");
        reveal_strlit("<![CDATA[");
    }
    let mut p = pos;
    let mut buf = String::new();
    loop
        invariant
            pos <= p <= n,
            n == s@.len(),
            spec_text_content(s@, pos as int, name@, Seq::empty()) == spec_text_content(
                s@,
                p as int,
                name@,
                buf@,
            ),
        decreases n - p,
    {
        if p >= n {
            return Err(DecodeFault { rule: FaultRule::UnexpectedEnd, position: p });
        }
        let c = s.get_char(p);
        if c != '<' {
            if c == '&' {
                let (ch, np) = match parse_entity(s, p + 1) {
                    Ok(t) => t,
                    Err(e) => {
                        return Err(e);
                    },
                };
                push_char(&mut buf, ch);
                p = np;
            } else {
                push_char(&mut buf, c);
                p += 1;
            }
        } else if starts_with_at(s, p, "</") {
            let m = "</".unicode_len();
            let (cn, p2) = match parse_close_rest(s, p + m) {
                Ok(t) => t,
                Err(e) => {
                    return Err(e);
                },
            };
            if str_eq(cn.as_str(), name) {
                return Ok((buf, p2));
            }
            return Err(DecodeFault { rule: FaultRule::MismatchedClose, position: p });
        } else if starts_with_at(s, p, "<![CDATA[") {
            let m = "<![CDATA[".unicode_len();
            p = match copy_cdata(s, p + m, &mut buf) {
                Ok(t) => t,
                Err(e) => {
                    return Err(e);
                },
            };
        } else if starts_with_at(s, p, "<!--") {
            let m = "<!--".unicode_len();
            p = match skip_past(s, p + m, "-->") {
                Ok(t) => t,
                Err(e) => {
                    return Err(e);
                },
            };
        } else if starts_with_at(s, p, "<?") {
            let m = "<?".unicode_len();
            p = match skip_past(s, p + m, "?>") {
                Ok(t) => t,
                Err(e) => {
                    return Err(e);
                },
            };
        } else if starts_with_at(s, p, "<!") {
            let m = "<!".unicode_len();
            p = match skip_decl(s, p + m) {
                Ok(t) => t,
                Err(e) => {
                    return Err(e);
                },
            };
        } else {
            let (_nm, _attrs, selfclosing, p2) = match parse_open_tag_rest(s, p + 1) {
                Ok(t) => t,
                Err(e) => {
                    return Err(e);
                },
            };
            if !selfclosing {
                p = match skip_element_rest(s, p2) {
                    Ok(t) => t,
                    Err(e) => {
                        return Err(e);
                    },
                };
            } else {
                p = p2;
            }
        }
    }
}

/// What one finished child element stands for: its tag name with empty text
/// when the tag closed itself, its text content otherwise.
pub open spec fn spec_finish_leaf(s: Seq<char>, pos: int, name: Seq<char>, sc: bool) -> Result<
    (LeafItemV, int),
    DecodeFault,
> {
    if sc {
        Ok((LeafItemV { name, text: Seq::empty() }, pos))
    } else {
        match spec_text_content(s, pos, name, Seq::empty()) {
            Err(f) => Err(f),
            Ok((t, p)) => Ok((LeafItemV { name, text: t }, p)),
        }
    }
}

/// Finish one child element as a tag-plus-text item: empty text when the tag
/// closed itself, its text content otherwise.
fn finish_leaf(s: &str, pos: usize, name: String, selfclosing: bool) -> (r: Result<
    (LeafItem, usize),
    DecodeFault,
>)
    requires
        pos <= s@.len(),
    ensures
        r matches Ok(t) ==> pos <= t.1 <= s@.len(),
        (match r {
            Ok((it, p)) => Ok((it@, p as int)),
            Err(f) => Err(f),
        }) == spec_finish_leaf(s@, pos as int, name@, selfclosing),
{
    if selfclosing {
        return Ok((LeafItem { name, text: String::new() }, pos));
    }
    let (text, p) = match collect_text_content(s, pos, name.as_str()) {
        Ok(t) => t,
        Err(e) => {
            return Err(e);
        },
    };
    Ok((LeafItem { name, text }, p))
}

pub proof fn lemma_text_content_bounds(s: Seq<char>, pos: int, name: Seq<char>, acc: Seq<char>)
    requires
        0 <= pos,
    ensures
        spec_text_content(s, pos, name, acc) matches Ok(t) ==> pos < t.1 <= s.len(),
    decreases s.len() - pos,
{
    reveal_strlit("</");
    reveal_strlit("<![CDATA[");
    reveal_strlit("<!--");
    reveal_strlit("-->");
    reveal_strlit("<?");
    reveal_strlit("?>");
    reveal_strlit("<!");
    if 0 <= pos < s.len() {
        if s[pos] != '<' {
            if s[pos] == '&' {
                lemma_name_end_bounds(s, pos + 1);
                match spec_parse_entity(s, pos + 1) {
                    Ok((c, np)) => {
                        lemma_text_content_bounds(s, np, name, acc.push(c));
                    },
                    Err(_) => {
                    },
                }
            } else {
                lemma_text_content_bounds(s, pos + 1, name, acc.push(s[pos]));
            }
        } else if lit_at(s, pos, "</"@) {
            lemma_close_tag_bounds(s, pos + 2);
        } else if lit_at(s, pos, "<![CDATA["@) {
            lemma_cdata_bounds(s, pos + 9, acc);
            match spec_cdata(s, pos + 9, acc) {
                Ok((a2, p2)) => {
                    lemma_text_content_bounds(s, p2, name, a2);
                },
                Err(_) => {
                },
            }
        } else if lit_at(s, pos, "<!--"@) {
            lemma_skip_past_bounds(s, pos + 4, "-->"@);
            match spec_skip_past(s, pos + 4, "-->"@) {
                Ok(p2) => {
                    lemma_text_content_bounds(s, p2, name, acc);
                },
                Err(_) => {
                },
            }
        } else if lit_at(s, pos, "<?"@) {
            lemma_skip_past_bounds(s, pos + 2, "?>"@);
            match spec_skip_past(s, pos + 2, "?>"@) {
                Ok(p2) => {
                    lemma_text_content_bounds(s, p2, name, acc);
                },
                Err(_) => {
                },
            }
        } else if lit_at(s, pos, "<!"@) {
            lemma_skip_decl_bounds(s, pos + 2, 1);
            match spec_skip_decl(s, pos + 2, 1) {
                Ok(p2) => {
                    lemma_text_content_bounds(s, p2, name, acc);
                },
                Err(_) => {
                },
            }
        } else {
            lemma_open_tag_bounds(s, pos + 1);
            match spec_open_tag(s, pos + 1) {
                Ok((nm2, a2, sc, p2)) => {
                    if sc {
                        lemma_text_content_bounds(s, p2, name, acc);
                    } else {
                        lemma_skip_element_bounds(s, p2, 1);
                        match spec_skip_element(s, p2, 1) {
                            Ok(p3) => {
                                lemma_text_content_bounds(s, p3, name, acc);
                            },
                            Err(_) => {
                            },
                        }
                    }
                },
                Err(_) => {
                },
            }
        }
    }
}

pub proof fn lemma_finish_leaf_bounds(s: Seq<char>, pos: int, name: Seq<char>, sc: bool)
    requires
        0 <= pos <= s.len(),
    ensures
        spec_finish_leaf(s, pos, name, sc) matches Ok(t) ==> pos <= t.1 <= s.len(),
{
    if !sc {
        lemma_text_content_bounds(s, pos, name, Seq::empty());
    }
}

/// What decoding the children of a k_ele-form element at `pos` yields, with
/// `acc` the child items read so far and `start` the element's own position
/// for fault reports: the built record and the position past the closing
/// tag, or the exact fault.
pub open spec fn spec_parse_k_ele(
    s: Seq<char>,
    pos: int,
    start: int,
    acc: Seq<LeafItemV>,
) -> Result<(KEleV, int), DecodeFault>
    decreases s.len() - pos,
    when 0 <= pos
    via spec_parse_k_ele_decreases
{
    if pos >= s.len() {
        Err((DecodeFault { rule: FaultRule::UnexpectedEnd, position: pos as usize }))
    } else if s[pos] != '<' {
        spec_parse_k_ele(s, pos + 1, start, acc)
    } else if lit_at(s, pos, "</"@) {
        match spec_close_tag(s, pos + "</"@.len()) {
            Err(f) => Err(f),
            Ok((cn, p2)) => if cn == "k_ele"@ {
                match k_ele_of(acc) {
                    Ok(k) => Ok((k, p2)),
                    Err(rule) => Err((DecodeFault { rule, position: start as usize })),
                }
            } else {
                Err((DecodeFault { rule: FaultRule::MismatchedClose, position: pos as usize }))
            },
        }
    } else if lit_at(s, pos, "<!--"@) {
        match spec_skip_past(s, pos + "<!--"@.len(), "-->"@) {
            Err(f) => Err(f),
            Ok(p2) => spec_parse_k_ele(s, p2, start, acc),
        }
    } else {
        match spec_open_tag(s, pos + 1) {
            Err(f) => Err(f),
            Ok((nm, a, sc, p2)) => match spec_finish_leaf(s, p2, nm, sc) {
                Err(f) => Err(f),
                Ok((it, p3)) => spec_parse_k_ele(s, p3, start, acc.push(it)),
            },
        }
    }
}

#[via_fn]
proof fn spec_parse_k_ele_decreases(s: Seq<char>, pos: int, start: int, acc: Seq<LeafItemV>) {
    reveal_strlit("</");
    reveal_strlit("<!--");
    reveal_strlit("-->");
    if 0 <= pos < s.len() {
        lemma_skip_past_bounds(s, pos + 4, "-->"@);
        lemma_open_tag_bounds(s, pos + 1);
        match spec_open_tag(s, pos + 1) {
            Ok((nm, a, sc, p2)) => {
                lemma_finish_leaf_bounds(s, p2, nm, sc);
            },
            Err(_) => {
            },
        }
    }
}

/// What a whole k_ele-form element at `pos` (just past its opening tag)
/// decodes to: an element that closed itself has no children.
pub open spec fn spec_k_ele_elem(s: Seq<char>, pos: int, start: int, sc: bool) -> Result<
    (KEleV, int),
    DecodeFault,
> {
    if sc {
        match k_ele_of(Seq::empty()) {
            Ok(k) => Ok((k, pos)),
            Err(rule) => Err((DecodeFault { rule, position: start as usize })),
        }
    } else {
        spec_parse_k_ele(s, pos, start, Seq::empty())
    }
}

/// What decoding the children of a r_ele-form element at `pos` yields, with
/// `acc` the child items read so far and `start` the element's own position
/// for fault reports: the built record and the position past the closing
/// tag, or the exact fault.
pub open spec fn spec_parse_r_ele(
    s: Seq<char>,
    pos: int,
    start: int,
    acc: Seq<LeafItemV>,
) -> Result<(REleV, int), DecodeFault>
    decreases s.len() - pos,
    when 0 <= pos
    via spec_parse_r_ele_decreases
{
    if pos >= s.len() {
        Err((DecodeFault { rule: FaultRule::UnexpectedEnd, position: pos as usize }))
    } else if s[pos] != '<' {
        spec_parse_r_ele(s, pos + 1, start, acc)
    } else if lit_at(s, pos, "</"@) {
        match spec_close_tag(s, pos + "</"@.len()) {
            Err(f) => Err(f),
            Ok((cn, p2)) => if cn == "r_ele"@ {
                match r_ele_of(acc) {
                    Ok(k) => Ok((k, p2)),
                    Err(rule) => Err((DecodeFault { rule, position: start as usize })),
                }
            } else {
                Err((DecodeFault { rule: FaultRule::MismatchedClose, position: pos as usize }))
            },
        }
    } else if lit_at(s, pos, "<!--"@) {
        match spec_skip_past(s, pos + "<!--"@.len(), "-->"@) {
            Err(f) => Err(f),
            Ok(p2) => spec_parse_r_ele(s, p2, start, acc),
        }
    } else {
        match spec_open_tag(s, pos + 1) {
            Err(f) => Err(f),
            Ok((nm, a, sc, p2)) => match spec_finish_leaf(s, p2, nm, sc) {
                Err(f) => Err(f),
                Ok((it, p3)) => spec_parse_r_ele(s, p3, start, acc.push(it)),
            },
        }
    }
}

#[via_fn]
proof fn spec_parse_r_ele_decreases(s: Seq<char>, pos: int, start: int, acc: Seq<LeafItemV>) {
    reveal_strlit("</");
    reveal_strlit("<!--");
    reveal_strlit("-->");
    if 0 <= pos < s.len() {
        lemma_skip_past_bounds(s, pos + 4, "-->"@);
        lemma_open_tag_bounds(s, pos + 1);
        match spec_open_tag(s, pos + 1) {
            Ok((nm, a, sc, p2)) => {
                lemma_finish_leaf_bounds(s, p2, nm, sc);
            },
            Err(_) => {
            },
        }
    }
}

/// What a whole r_ele-form element at `pos` (just past its opening tag)
/// decodes to: an element that closed itself has no children.
pub open spec fn spec_r_ele_elem(s: Seq<char>, pos: int, start: int, sc: bool) -> Result<
    (REleV, int),
    DecodeFault,
> {
    if sc {
        match r_ele_of(Seq::empty()) {
            Ok(k) => Ok((k, pos)),
            Err(rule) => Err((DecodeFault { rule, position: start as usize })),
        }
    } else {
        spec_parse_r_ele(s, pos, start, Seq::empty())
    }
}

/// Decode one kanji-form element; `pos` stands after its opening tag,
/// `start` at its `<` for fault positions.
#[verifier::loop_isolation(false)]
fn parse_k_ele(s: &str, pos: usize, selfclosing: bool, start: usize) -> (r: Result<
    (KEle, usize),
    DecodeFault,
>)
    requires
        pos <= s@.len(),
    ensures
        r matches Ok(t) ==> pos <= t.1 <= s@.len(),
        (match r {
            Ok((k, p)) => Ok((k@, p as int)),
            Err(f) => Err(f),
        }) == spec_k_ele_elem(s@, pos as int, start as int, selfclosing),
{
    let n = s.unicode_len();
    proof {
        reveal_strlit("</");
        reveal_strlit("<!--");
        reveal_strlit("-->");
    }
    let mut items: Vec<LeafItem> = Vec::new();
    let mut p = pos;
    proof {
        assert(leafs_v(items@) =~= Seq::<LeafItemV>::empty());
    }
    if !selfclosing {
        loop
            invariant
                pos <= p <= n,
                n == s@.len(),
                spec_parse_k_ele(s@, pos as int, start as int, Seq::empty()) == spec_parse_k_ele(
                    s@,
                    p as int,
                    start as int,
                    leafs_v(items@),
                ),
            decreases n - p,
        {
            if p >= n {
                return Err(DecodeFault { rule: FaultRule::UnexpectedEnd, position: p });
            }
            let c = s.get_char(p);
            if c != '<' {
                p += 1;
            } else if starts_with_at(s, p, "</") {
                let m = "</".unicode_len();
                let (cn, p2) = match parse_close_rest(s, p + m) {
                    Ok(t) => t,
                    Err(e) => {
                        return Err(e);
                    },
                };
                if !str_eq(cn.as_str(), "k_ele") {
                    return Err(DecodeFault { rule: FaultRule::MismatchedClose, position: p });
                }
                return match make_k_ele(&items) {
                    Ok(k) => Ok((k, p2)),
                    Err(rule) => Err(DecodeFault { rule, position: start }),
                };
            } else if starts_with_at(s, p, "<!--") {
                let m = "<!--".unicode_len();
                p = match skip_past(s, p + m, "-->") {
                    Ok(t) => t,
                    Err(e) => {
                        return Err(e);
                    },
                };
            } else {
                let (nm, _attrs, sc, p2) = match parse_open_tag_rest(s, p + 1) {
                    Ok(t) => t,
                    Err(e) => {
                        return Err(e);
                    },
                };
                let (item, p3) = match finish_leaf(s, p2, nm, sc) {
                    Ok(t) => t,
                    Err(e) => {
                        return Err(e);
                    },
                };
                let ghost old_items = items@;
                items.push(item);
                proof {
                    assert(leafs_v(items@) =~= leafs_v(old_items).push(items@.last()@));
                }
                p = p3;
            }
        }
    }
    match make_k_ele(&items) {
        Ok(k) => Ok((k, p)),
        Err(rule) => Err(DecodeFault { rule, position: start }),
    }
}

/// Decode one reading-form element.
#[verifier::loop_isolation(false)]
fn parse_r_ele(s: &str, pos: usize, selfclosing: bool, start: usize) -> (r: Result<
    (REle, usize),
    DecodeFault,
>)
    requires
        pos <= s@.len(),
    ensures
        r matches Ok(t) ==> pos <= t.1 <= s@.len(),
        (match r {
            Ok((k, p)) => Ok((k@, p as int)),
            Err(f) => Err(f),
        }) == spec_r_ele_elem(s@, pos as int, start as int, selfclosing),
{
    let n = s.unicode_len();
    proof {
        reveal_strlit("</");
        reveal_strlit("<!--");
        reveal_strlit("-->");
    }
    let mut items: Vec<LeafItem> = Vec::new();
    let mut p = pos;
    proof {
        assert(leafs_v(items@) =~= Seq::<LeafItemV>::empty());
    }
    if !selfclosing {
        loop
            invariant
                pos <= p <= n,
                n == s@.len(),
                spec_parse_r_ele(s@, pos as int, start as int, Seq::empty()) == spec_parse_r_ele(
                    s@,
                    p as int,
                    start as int,
                    leafs_v(items@),
                ),
            decreases n - p,
        {
            if p >= n {
                return Err(DecodeFault { rule: FaultRule::UnexpectedEnd, position: p });
            }
            let c = s.get_char(p);
            if c != '<' {
                p += 1;
            } else if starts_with_at(s, p, "</") {
                let m = "</".unicode_len();
                let (cn, p2) = match parse_close_rest(s, p + m) {
                    Ok(t) => t,
                    Err(e) => {
                        return Err(e);
                    },
                };
                if !str_eq(cn.as_str(), "r_ele") {
                    return Err(DecodeFault { rule: FaultRule::MismatchedClose, position: p });
                }
                return match make_r_ele(&items) {
                    Ok(re) => Ok((re, p2)),
                    Err(rule) => Err(DecodeFault { rule, position: start }),
                };
            } else if starts_with_at(s, p, "<!--") {
                let m = "<!--".unicode_len();
                p = match skip_past(s, p + m, "-->") {
                    Ok(t) => t,
                    Err(e) => {
                        return Err(e);
                    },
                };
            } else {
                let (nm, _attrs, sc, p2) = match parse_open_tag_rest(s, p + 1) {
                    Ok(t) => t,
                    Err(e) => {
                        return Err(e);
                    },
                };
                let (item, p3) = match finish_leaf(s, p2, nm, sc) {
                    Ok(t) => t,
                    Err(e) => {
                        return Err(e);
                    },
                };
                let ghost old_items = items@;
                items.push(item);
                proof {
                    assert(leafs_v(items@) =~= leafs_v(old_items).push(items@.last()@));
                }
                p = p3;
            }
        }
    }
    match make_r_ele(&items) {
        Ok(re) => Ok((re, p)),
        Err(rule) => Err(DecodeFault { rule, position: start }),
    }
}

/// What decoding the children of a sense element at `pos` yields, with
/// `acc` the child items read so far: each lexical source, gloss and plain
/// tagged child in document order, or the exact fault.
pub open spec fn spec_parse_sense(s: Seq<char>, pos: int, acc: Seq<SenseItemV>) -> Result<
    (SenseV, int),
    DecodeFault,
>
    decreases s.len() - pos,
    when 0 <= pos
    via spec_parse_sense_decreases
{
    if pos >= s.len() {
        Err((DecodeFault { rule: FaultRule::UnexpectedEnd, position: pos as usize }))
    } else if s[pos] != '<' {
        spec_parse_sense(s, pos + 1, acc)
    } else if lit_at(s, pos, "</"@) {
        match spec_close_tag(s, pos + "</"@.len()) {
            Err(f) => Err(f),
            Ok((cn, p2)) => if cn == "sense"@ {
                Ok((sense_of(acc), p2))
            } else {
                Err((DecodeFault { rule: FaultRule::MismatchedClose, position: pos as usize }))
            },
        }
    } else if lit_at(s, pos, "<!--"@) {
        match spec_skip_past(s, pos + "<!--"@.len(), "-->"@) {
            Err(f) => Err(f),
            Ok(p2) => spec_parse_sense(s, p2, acc),
        }
    } else {
        match spec_open_tag(s, pos + 1) {
            Err(f) => Err(f),
            Ok((nm, a, sc, p2)) => if nm == "lsource"@ {
                match (if sc {
                    Ok((Seq::<char>::empty(), p2))
                } else {
                    spec_text_content(s, p2, "lsource"@, Seq::empty())
                }) {
                    Err(f) => Err(f),
                    Ok((t, p3)) => match lsource_of(a, t) {
                        Err(rule) => Err((DecodeFault { rule, position: pos as usize })),
                        Ok(l) => spec_parse_sense(s, p3, acc.push(SenseItemV::Ls(l))),
                    },
                }
            } else if nm == "gloss"@ {
                match (if sc {
                    Ok((Seq::<char>::empty(), p2))
                } else {
                    spec_text_content(s, p2, "gloss"@, Seq::empty())
                }) {
                    Err(f) => Err(f),
                    Ok((t, p3)) => spec_parse_sense(s, p3, acc.push(SenseItemV::Gl(gloss_of(a, t)))),
                }
            } else {
                match spec_finish_leaf(s, p2, nm, sc) {
                    Err(f) => Err(f),
                    Ok((it, p3)) => spec_parse_sense(s, p3, acc.push(SenseItemV::Leaf(it))),
                }
            },
        }
    }
}

#[via_fn]
proof fn spec_parse_sense_decreases(s: Seq<char>, pos: int, acc: Seq<SenseItemV>) {
    reveal_strlit("</");
    reveal_strlit("<!--");
    reveal_strlit("-->");
    if 0 <= pos < s.len() {
        lemma_skip_past_bounds(s, pos + 4, "-->"@);
        lemma_open_tag_bounds(s, pos + 1);
        match spec_open_tag(s, pos + 1) {
            Ok((nm, a, sc, p2)) => {
                lemma_finish_leaf_bounds(s, p2, nm, sc);
                lemma_text_content_bounds(s, p2, "lsource"@, Seq::empty());
                lemma_text_content_bounds(s, p2, "gloss"@, Seq::empty());
            },
            Err(_) => {
            },
        }
    }
}

/// What a whole sense element at `pos` (just past its opening tag) decodes
/// to: an element that closed itself has no children.
pub open spec fn spec_sense_elem(s: Seq<char>, pos: int, sc: bool) -> Result<
    (SenseV, int),
    DecodeFault,
> {
    if sc {
        Ok((sense_of(Seq::empty()), pos))
    } else {
        spec_parse_sense(s, pos, Seq::empty())
    }
}

/// Decode one sense element: its plain tagged children, lexical sources and
/// glosses, each dispatched by its own tag at this position.
#[verifier::loop_isolation(false)]
fn parse_sense(s: &str, pos: usize, selfclosing: bool) -> (r: Result<(Sense, usize), DecodeFault>)
    requires
        pos <= s@.len(),
    ensures
        r matches Ok(t) ==> pos <= t.1 <= s@.len(),
        (match r {
            Ok((se, p)) => Ok((se@, p as int)),
            Err(f) => Err(f),
        }) == spec_sense_elem(s@, pos as int, selfclosing),
{
    let n = s.unicode_len();
    proof {
        reveal_strlit("</");
        reveal_strlit("<!--");
        reveal_strlit("-->");
    }
    let mut items: Vec<SenseItem> = Vec::new();
    let mut p = pos;
    proof {
        assert(sense_items_v(items@) =~= Seq::<SenseItemV>::empty());
    }
    if !selfclosing {
        loop
            invariant
                pos <= p <= n,
                n == s@.len(),
                spec_parse_sense(s@, pos as int, Seq::empty()) == spec_parse_sense(
                    s@,
                    p as int,
                    sense_items_v(items@),
                ),
            decreases n - p,
        {
            if p >= n {
                return Err(DecodeFault { rule: FaultRule::UnexpectedEnd, position: p });
            }
            let c = s.get_char(p);
            if c != '<' {
                p += 1;
            } else if starts_with_at(s, p, "</") {
                let m = "</".unicode_len();
                let (cn, p2) = match parse_close_rest(s, p + m) {
                    Ok(t) => t,
                    Err(e) => {
                        return Err(e);
                    },
                };
                if !str_eq(cn.as_str(), "sense") {
                    return Err(DecodeFault { rule: FaultRule::MismatchedClose, position: p });
                }
                return Ok((make_sense(&items), p2));
            } else if starts_with_at(s, p, "<!--") {
                let m = "<!--".unicode_len();
                p = match skip_past(s, p + m, "-->") {
                    Ok(t) => t,
                    Err(e) => {
                        return Err(e);
                    },
                };
            } else {
                let child_start = p;
                let (nm, attrs, sc, p2) = match parse_open_tag_rest(s, p + 1) {
                    Ok(t) => t,
                    Err(e) => {
                        return Err(e);
                    },
                };
                if str_eq(nm.as_str(), "lsource") {
                    let (text, p3) = if sc {
                        (String::new(), p2)
                    } else {
                        match collect_text_content(s, p2, "lsource") {
                            Ok(t) => t,
                            Err(e) => {
                                return Err(e);
                            },
                        }
                    };
                    match make_lsource(&attrs, text) {
                        Ok(l) => {
                            let ghost old_items = items@;
                            items.push(SenseItem::Ls(l));
                            proof {
                                assert(sense_items_v(items@) =~= sense_items_v(old_items).push(
                                    items@.last()@,
                                ));
                            }
                        },
                        Err(rule) => {
                            return Err(DecodeFault { rule, position: child_start });
                        },
                    }
                    p = p3;
                } else if str_eq(nm.as_str(), "gloss") {
                    let (text, p3) = if sc {
                        (String::new(), p2)
                    } else {
                        match collect_text_content(s, p2, "gloss") {
                            Ok(t) => t,
                            Err(e) => {
                                return Err(e);
                            },
                        }
                    };
                    let ghost old_items = items@;
                    items.push(SenseItem::Gl(make_gloss(&attrs, text)));
                    proof {
                        assert(sense_items_v(items@) =~= sense_items_v(old_items).push(
                            items@.last()@,
                        ));
                    }
                    p = p3;
                } else {
                    let (item, p3) = match finish_leaf(s, p2, nm, sc) {
                        Ok(t) => t,
                        Err(e) => {
                            return Err(e);
                        },
                    };
                    let ghost old_items = items@;
                    items.push(SenseItem::Leaf(item));
                    proof {
                        assert(sense_items_v(items@) =~= sense_items_v(old_items).push(
                            items@.last()@,
                        ));
                    }
                    p = p3;
                }
            }
        }
    }
    Ok((make_sense(&items), p))
}

proof fn lemma_parse_k_ele_bounds(s: Seq<char>, pos: int, start: int, acc: Seq<LeafItemV>)
    requires
        0 <= pos,
    ensures
        spec_parse_k_ele(s, pos, start, acc) matches Ok(t) ==> pos < t.1 <= s.len(),
    decreases s.len() - pos,
{
    reveal_strlit("</");
    reveal_strlit("<!--");
    reveal_strlit("-->");
    if 0 <= pos < s.len() {
        if s[pos] != '<' {
            lemma_parse_k_ele_bounds(s, pos + 1, start, acc);
        } else if lit_at(s, pos, "</"@) {
            lemma_close_tag_bounds(s, pos + 2);
        } else if lit_at(s, pos, "<!--"@) {
            lemma_skip_past_bounds(s, pos + 4, "-->"@);
            match spec_skip_past(s, pos + 4, "-->"@) {
                Ok(p2) => {
                    lemma_parse_k_ele_bounds(s, p2, start, acc);
                },
                Err(_) => {
                },
            }
        } else {
            lemma_open_tag_bounds(s, pos + 1);
            match spec_open_tag(s, pos + 1) {
                Ok((nm, a, sc, p2)) => {
                    lemma_finish_leaf_bounds(s, p2, nm, sc);
                    match spec_finish_leaf(s, p2, nm, sc) {
                        Ok((it, p3)) => {
                            lemma_parse_k_ele_bounds(s, p3, start, acc.push(it));
                        },
                        Err(_) => {
                        },
                    }
                },
                Err(_) => {
                },
            }
        }
    }
}

proof fn lemma_parse_r_ele_bounds(s: Seq<char>, pos: int, start: int, acc: Seq<LeafItemV>)
    requires
        0 <= pos,
    ensures
        spec_parse_r_ele(s, pos, start, acc) matches Ok(t) ==> pos < t.1 <= s.len(),
    decreases s.len() - pos,
{
    reveal_strlit("</");
    reveal_strlit("<!--");
    reveal_strlit("-->");
    if 0 <= pos < s.len() {
        if s[pos] != '<' {
            lemma_parse_r_ele_bounds(s, pos + 1, start, acc);
        } else if lit_at(s, pos, "</"@) {
            lemma_close_tag_bounds(s, pos + 2);
        } else if lit_at(s, pos, "<!--"@) {
            lemma_skip_past_bounds(s, pos + 4, "-->"@);
            match spec_skip_past(s, pos + 4, "-->"@) {
                Ok(p2) => {
                    lemma_parse_r_ele_bounds(s, p2, start, acc);
                },
                Err(_) => {
                },
            }
        } else {
            lemma_open_tag_bounds(s, pos + 1);
            match spec_open_tag(s, pos + 1) {
                Ok((nm, a, sc, p2)) => {
                    lemma_finish_leaf_bounds(s, p2, nm, sc);
                    match spec_finish_leaf(s, p2, nm, sc) {
                        Ok((it, p3)) => {
                            lemma_parse_r_ele_bounds(s, p3, start, acc.push(it));
                        },
                        Err(_) => {
                        },
                    }
                },
                Err(_) => {
                },
            }
        }
    }
}

proof fn lemma_parse_sense_bounds(s: Seq<char>, pos: int, acc: Seq<SenseItemV>)
    requires
        0 <= pos,
    ensures
        spec_parse_sense(s, pos, acc) matches Ok(t) ==> pos < t.1 <= s.len(),
    decreases s.len() - pos,
{
    reveal_strlit("</");
    reveal_strlit("<!--");
    reveal_strlit("-->");
    if 0 <= pos < s.len() {
        if s[pos] != '<' {
            lemma_parse_sense_bounds(s, pos + 1, acc);
        } else if lit_at(s, pos, "</"@) {
            lemma_close_tag_bounds(s, pos + 2);
        } else if lit_at(s, pos, "<!--"@) {
            lemma_skip_past_bounds(s, pos + 4, "-->"@);
            match spec_skip_past(s, pos + 4, "-->"@) {
                Ok(p2) => {
                    lemma_parse_sense_bounds(s, p2, acc);
                },
                Err(_) => {
                },
            }
        } else {
            lemma_open_tag_bounds(s, pos + 1);
            match spec_open_tag(s, pos + 1) {
                Ok((nm, a, sc, p2)) => {
                    if nm == "lsource"@ {
                        lemma_text_content_bounds(s, p2, "lsource"@, Seq::empty());
                        match (if sc {
                            Ok((Seq::<char>::empty(), p2))
                        } else {
                            spec_text_content(s, p2, "lsource"@, Seq::empty())
                        }) {
                            Ok((t, p3)) => {
                                match lsource_of(a, t) {
                                    Ok(l) => {
                                        lemma_parse_sense_bounds(
                                            s,
                                            p3,
                                            acc.push(SenseItemV::Ls(l)),
                                        );
                                    },
                                    Err(_) => {
                                    },
                                }
                            },
                            Err(_) => {
                            },
                        }
                    } else if nm == "gloss"@ {
                        lemma_text_content_bounds(s, p2, "gloss"@, Seq::empty());
                        match (if sc {
                            Ok((Seq::<char>::empty(), p2))
                        } else {
                            spec_text_content(s, p2, "gloss"@, Seq::empty())
                        }) {
                            Ok((t, p3)) => {
                                lemma_parse_sense_bounds(s, p3, acc.push(SenseItemV::Gl(gloss_of(a, t))));
                            },
                            Err(_) => {
                            },
                        }
                    } else {
                        lemma_finish_leaf_bounds(s, p2, nm, sc);
                        match spec_finish_leaf(s, p2, nm, sc) {
                            Ok((it, p3)) => {
                                lemma_parse_sense_bounds(s, p3, acc.push(SenseItemV::Leaf(it)));
                            },
                            Err(_) => {
                            },
                        }
                    }
                },
                Err(_) => {
                },
            }
        }
    }
}

proof fn lemma_k_elem_bounds(s: Seq<char>, pos: int, start: int, sc: bool)
    requires
        0 <= pos <= s.len(),
    ensures
        spec_k_ele_elem(s, pos, start, sc) matches Ok(t) ==> pos <= t.1 <= s.len(),
{
    if !sc {
        lemma_parse_k_ele_bounds(s, pos, start, Seq::empty());
    }
}

proof fn lemma_r_elem_bounds(s: Seq<char>, pos: int, start: int, sc: bool)
    requires
        0 <= pos <= s.len(),
    ensures
        spec_r_ele_elem(s, pos, start, sc) matches Ok(t) ==> pos <= t.1 <= s.len(),
{
    if !sc {
        lemma_parse_r_ele_bounds(s, pos, start, Seq::empty());
    }
}

proof fn lemma_sense_elem_bounds(s: Seq<char>, pos: int, sc: bool)
    requires
        0 <= pos <= s.len(),
    ensures
        spec_sense_elem(s, pos, sc) matches Ok(t) ==> pos <= t.1 <= s.len(),
{
    if !sc {
        lemma_parse_sense_bounds(s, pos, Seq::empty());
    }
}

/// What decoding the children of an entry element at `pos` yields, with
/// `acc` the child items read so far and `start` the entry's own position
/// for fault reports: the built entry and the position past the closing
/// tag, or the exact fault.
pub open spec fn spec_parse_entry(
    s: Seq<char>,
    pos: int,
    start: int,
    acc: Seq<EntryItemV>,
) -> Result<(EntryV, int), DecodeFault>
    decreases s.len() - pos,
    when 0 <= pos
    via spec_parse_entry_decreases
{
    if pos >= s.len() {
        Err((DecodeFault { rule: FaultRule::UnexpectedEnd, position: pos as usize }))
    } else if s[pos] != '<' {
        spec_parse_entry(s, pos + 1, start, acc)
    } else if lit_at(s, pos, "</"@) {
        match spec_close_tag(s, pos + "</"@.len()) {
            Err(f) => Err(f),
            Ok((cn, p2)) => if cn == "entry"@ {
                match entry_of(acc) {
                    Ok(e) => Ok((e, p2)),
                    Err(rule) => Err((DecodeFault { rule, position: start as usize })),
                }
            } else {
                Err((DecodeFault { rule: FaultRule::MismatchedClose, position: pos as usize }))
            },
        }
    } else if lit_at(s, pos, "<!--"@) {
        match spec_skip_past(s, pos + "<!--"@.len(), "-->"@) {
            Err(f) => Err(f),
            Ok(p2) => spec_parse_entry(s, p2, start, acc),
        }
    } else {
        match spec_open_tag(s, pos + 1) {
            Err(f) => Err(f),
            Ok((nm, a, sc, p2)) => if nm == "k_ele"@ {
                match spec_k_ele_elem(s, p2, pos, sc) {
                    Err(f) => Err(f),
                    Ok((k, p3)) => spec_parse_entry(s, p3, start, acc.push(EntryItemV::K(k))),
                }
            } else if nm == "r_ele"@ {
                match spec_r_ele_elem(s, p2, pos, sc) {
                    Err(f) => Err(f),
                    Ok((re, p3)) => spec_parse_entry(s, p3, start, acc.push(EntryItemV::R(re))),
                }
            } else if nm == "sense"@ {
                match spec_sense_elem(s, p2, sc) {
                    Err(f) => Err(f),
                    Ok((se, p3)) => spec_parse_entry(s, p3, start, acc.push(EntryItemV::S(se))),
                }
            } else {
                match spec_finish_leaf(s, p2, nm, sc) {
                    Err(f) => Err(f),
                    Ok((it, p3)) => spec_parse_entry(s, p3, start, acc.push(EntryItemV::Leaf(it))),
                }
            },
        }
    }
}

#[via_fn]
proof fn spec_parse_entry_decreases(s: Seq<char>, pos: int, start: int, acc: Seq<EntryItemV>) {
    reveal_strlit("</");
    reveal_strlit("<!--");
    reveal_strlit("-->");
    if 0 <= pos < s.len() {
        lemma_skip_past_bounds(s, pos + 4, "-->"@);
        lemma_open_tag_bounds(s, pos + 1);
        match spec_open_tag(s, pos + 1) {
            Ok((nm, a, sc, p2)) => {
                lemma_k_elem_bounds(s, p2, pos, sc);
                lemma_r_elem_bounds(s, p2, pos, sc);
                lemma_sense_elem_bounds(s, p2, sc);
                lemma_finish_leaf_bounds(s, p2, nm, sc);
            },
            Err(_) => {
            },
        }
    }
}

/// What a whole entry element at `pos` (just past its opening tag) decodes
/// to: an element that closed itself has no children.
pub open spec fn spec_entry_elem(s: Seq<char>, pos: int, start: int, sc: bool) -> Result<
    (EntryV, int),
    DecodeFault,
> {
    if sc {
        match entry_of(Seq::empty()) {
            Ok(e) => Ok((e, pos)),
            Err(rule) => Err((DecodeFault { rule, position: start as usize })),
        }
    } else {
        spec_parse_entry(s, pos, start, Seq::empty())
    }
}

/// Decode one entry element; on success the entry satisfies the schema
/// invariant: at least one reading form and at least one sense.
#[verifier::loop_isolation(false)]
fn parse_entry(s: &str, pos: usize, selfclosing: bool, start: usize) -> (r: Result<
    (Entry, usize),
    DecodeFault,
>)
    requires
        pos <= s@.len(),
    ensures
        r matches Ok(t) ==> pos <= t.1 <= s@.len() && entry_wf(t.0@),
        (match r {
            Ok((e, p)) => Ok((e@, p as int)),
            Err(f) => Err(f),
        }) == spec_entry_elem(s@, pos as int, start as int, selfclosing),
{
    let n = s.unicode_len();
    proof {
        reveal_strlit("</");
        reveal_strlit("<!--");
        reveal_strlit("-->");
    }
    let mut items: Vec<EntryItem> = Vec::new();
    let mut p = pos;
    proof {
        assert(entry_items_v(items@) =~= Seq::<EntryItemV>::empty());
    }
    if !selfclosing {
        loop
            invariant
                pos <= p <= n,
                n == s@.len(),
                spec_parse_entry(s@, pos as int, start as int, Seq::empty()) == spec_parse_entry(
                    s@,
                    p as int,
                    start as int,
                    entry_items_v(items@),
                ),
            decreases n - p,
        {
            if p >= n {
                return Err(DecodeFault { rule: FaultRule::UnexpectedEnd, position: p });
            }
            let c = s.get_char(p);
            if c != '<' {
                p += 1;
            } else if starts_with_at(s, p, "</") {
                let m = "</".unicode_len();
                let (cn, p2) = match parse_close_rest(s, p + m) {
                    Ok(t) => t,
                    Err(e) => {
                        return Err(e);
                    },
                };
                if !str_eq(cn.as_str(), "entry") {
                    return Err(DecodeFault { rule: FaultRule::MismatchedClose, position: p });
                }
                return match make_entry(items) {
                    Ok(e) => Ok((e, p2)),
                    Err(rule) => Err(DecodeFault { rule, position: start }),
                };
            } else if starts_with_at(s, p, "<!--") {
                let m = "<!--".unicode_len();
                p = match skip_past(s, p + m, "-->") {
                    Ok(t) => t,
                    Err(e) => {
                        return Err(e);
                    },
                };
            } else {
                let child_start = p;
                let (nm, _attrs, sc, p2) = match parse_open_tag_rest(s, p + 1) {
                    Ok(t) => t,
                    Err(e) => {
                        return Err(e);
                    },
                };
                if str_eq(nm.as_str(), "k_ele") {
                    let (k, p3) = match parse_k_ele(s, p2, sc, child_start) {
                        Ok(t) => t,
                        Err(e) => {
                            return Err(e);
                        },
                    };
                    let ghost old_items = items@;
                    items.push(EntryItem::K(k));
                    proof {
                        assert(entry_items_v(items@) =~= entry_items_v(old_items).push(
                            items@.last()@,
                        ));
                    }
                    p = p3;
                } else if str_eq(nm.as_str(), "r_ele") {
                    let (re, p3) = match parse_r_ele(s, p2, sc, child_start) {
                        Ok(t) => t,
                        Err(e) => {
                            return Err(e);
                        },
                    };
                    let ghost old_items = items@;
                    items.push(EntryItem::R(re));
                    proof {
                        assert(entry_items_v(items@) =~= entry_items_v(old_items).push(
                            items@.last()@,
                        ));
                    }
                    p = p3;
                } else if str_eq(nm.as_str(), "sense") {
                    let (se, p3) = match parse_sense(s, p2, sc) {
                        Ok(t) => t,
                        Err(e) => {
                            return Err(e);
                        },
                    };
                    let ghost old_items = items@;
                    items.push(EntryItem::S(se));
                    proof {
                        assert(entry_items_v(items@) =~= entry_items_v(old_items).push(
                            items@.last()@,
                        ));
                    }
                    p = p3;
                } else {
                    let (item, p3) = match finish_leaf(s, p2, nm, sc) {
                        Ok(t) => t,
                        Err(e) => {
                            return Err(e);
                        },
                    };
                    let ghost old_items = items@;
                    items.push(EntryItem::Leaf(item));
                    proof {
                        assert(entry_items_v(items@) =~= entry_items_v(old_items).push(
                            items@.last()@,
                        ));
                    }
                    p = p3;
                }
            }
        }
    }
    match make_entry(items) {
        Ok(e) => Ok((e, p)),
        Err(rule) => Err(DecodeFault { rule, position: start }),
    }
}

proof fn lemma_parse_entry_bounds(s: Seq<char>, pos: int, start: int, acc: Seq<EntryItemV>)
    requires
        0 <= pos,
    ensures
        spec_parse_entry(s, pos, start, acc) matches Ok(t) ==> pos < t.1 <= s.len(),
    decreases s.len() - pos,
{
    reveal_strlit("</");
    reveal_strlit("<!--");
    reveal_strlit("-->");
    if 0 <= pos < s.len() {
        if s[pos] != '<' {
            lemma_parse_entry_bounds(s, pos + 1, start, acc);
        } else if lit_at(s, pos, "</"@) {
            lemma_close_tag_bounds(s, pos + 2);
        } else if lit_at(s, pos, "<!--"@) {
            lemma_skip_past_bounds(s, pos + 4, "-->"@);
            match spec_skip_past(s, pos + 4, "-->"@) {
                Ok(p2) => {
                    lemma_parse_entry_bounds(s, p2, start, acc);
                },
                Err(_) => {
                },
            }
        } else {
            lemma_open_tag_bounds(s, pos + 1);
            match spec_open_tag(s, pos + 1) {
                Ok((nm, a, sc, p2)) => {
                    if nm == "k_ele"@ {
                        lemma_k_elem_bounds(s, p2, pos, sc);
                        match spec_k_ele_elem(s, p2, pos, sc) {
                            Ok((k, p3)) => {
                                lemma_parse_entry_bounds(s, p3, start, acc.push(EntryItemV::K(k)));
                            },
                            Err(_) => {
                            },
                        }
                    } else if nm == "r_ele"@ {
                        lemma_r_elem_bounds(s, p2, pos, sc);
                        match spec_r_ele_elem(s, p2, pos, sc) {
                            Ok((re, p3)) => {
                                lemma_parse_entry_bounds(s, p3, start, acc.push(EntryItemV::R(re)));
                            },
                            Err(_) => {
                            },
                        }
                    } else if nm == "sense"@ {
                        lemma_sense_elem_bounds(s, p2, sc);
                        match spec_sense_elem(s, p2, sc) {
                            Ok((se, p3)) => {
                                lemma_parse_entry_bounds(s, p3, start, acc.push(EntryItemV::S(se)));
                            },
                            Err(_) => {
                            },
                        }
                    } else {
                        lemma_finish_leaf_bounds(s, p2, nm, sc);
                        match spec_finish_leaf(s, p2, nm, sc) {
                            Ok((it, p3)) => {
                                lemma_parse_entry_bounds(
                                    s,
                                    p3,
                                    start,
                                    acc.push(EntryItemV::Leaf(it)),
                                );
                            },
                            Err(_) => {
                            },
                        }
                    }
                },
                Err(_) => {
                },
            }
        }
    }
}

proof fn lemma_entry_elem_bounds(s: Seq<char>, pos: int, start: int, sc: bool)
    requires
        0 <= pos <= s.len(),
    ensures
        spec_entry_elem(s, pos, start, sc) matches Ok(t) ==> pos <= t.1 <= s.len(),
{
    if !sc {
        lemma_parse_entry_bounds(s, pos, start, Seq::empty());
    }
}

/// What decoding the children of the root element named `root` at `pos`
/// yields, with `acc` the entries decoded so far: every entry in document
/// order, other children skipped whole, or the exact fault.
pub open spec fn spec_parse_root(
    s: Seq<char>,
    pos: int,
    root: Seq<char>,
    acc: Seq<EntryV>,
) -> Result<(Seq<EntryV>, int), DecodeFault>
    decreases s.len() - pos,
    when 0 <= pos
    via spec_parse_root_decreases
{
    if pos >= s.len() {
        Err((DecodeFault { rule: FaultRule::UnexpectedEnd, position: pos as usize }))
    } else if s[pos] != '<' {
        spec_parse_root(s, pos + 1, root, acc)
    } else if lit_at(s, pos, "</"@) {
        match spec_close_tag(s, pos + "</"@.len()) {
            Err(f) => Err(f),
            Ok((cn, p2)) => if cn == root {
                Ok((acc, p2))
            } else {
                Err((DecodeFault { rule: FaultRule::MismatchedClose, position: pos as usize }))
            },
        }
    } else if lit_at(s, pos, "<!--"@) {
        match spec_skip_past(s, pos + "<!--"@.len(), "-->"@) {
            Err(f) => Err(f),
            Ok(p2) => spec_parse_root(s, p2, root, acc),
        }
    } else {
        match spec_open_tag(s, pos + 1) {
            Err(f) => Err(f),
            Ok((nm, a, sc, p2)) => if nm == "entry"@ {
                match spec_entry_elem(s, p2, pos, sc) {
                    Err(f) => Err(f),
                    Ok((e, p3)) => spec_parse_root(s, p3, root, acc.push(e)),
                }
            } else {
                match spec_finish_leaf(s, p2, nm, sc) {
                    Err(f) => Err(f),
                    Ok((it, p3)) => spec_parse_root(s, p3, root, acc),
                }
            },
        }
    }
}

#[via_fn]
proof fn spec_parse_root_decreases(s: Seq<char>, pos: int, root: Seq<char>, acc: Seq<EntryV>) {
    reveal_strlit("</");
    reveal_strlit("<!--");
    reveal_strlit("-->");
    if 0 <= pos < s.len() {
        lemma_skip_past_bounds(s, pos + 4, "-->"@);
        lemma_open_tag_bounds(s, pos + 1);
        match spec_open_tag(s, pos + 1) {
            Ok((nm, a, sc, p2)) => {
                lemma_entry_elem_bounds(s, p2, pos, sc);
                lemma_finish_leaf_bounds(s, p2, nm, sc);
            },
            Err(_) => {
            },
        }
    }
}

/// Decode the children of the root element: each entry in document order;
/// other children are skipped whole.
#[verifier::loop_isolation(false)]
fn parse_root_children(s: &str, pos: usize, rootname: &str) -> (r: Result<
    (Vec<Entry>, usize),
    DecodeFault,
>)
    requires
        pos <= s@.len(),
    ensures
        r matches Ok(t) ==> pos <= t.1 <= s@.len() && (forall|i: int|
            0 <= i < t.0@.len() ==> entry_wf(#[trigger] t.0@[i]@)),
        (match r {
            Ok((es, p)) => Ok((es@.map_values(|e: Entry| e@), p as int)),
            Err(f) => Err(f),
        }) == spec_parse_root(s@, pos as int, rootname@, Seq::empty()),
{
    let n = s.unicode_len();
    proof {
        reveal_strlit("</");
        reveal_strlit("<!--");
        reveal_strlit("-->");
    }
    let mut entries: Vec<Entry> = Vec::new();
    let mut p = pos;
    proof {
        assert(entries@.map_values(|e: Entry| e@) =~= Seq::<EntryV>::empty());
    }
    loop
        invariant
            pos <= p <= n,
            n == s@.len(),
            forall|i: int| 0 <= i < entries@.len() ==> entry_wf(#[trigger] entries@[i]@),
            spec_parse_root(s@, pos as int, rootname@, Seq::empty()) == spec_parse_root(
                s@,
                p as int,
                rootname@,
                entries@.map_values(|e: Entry| e@),
            ),
        decreases n - p,
    {
        if p >= n {
            return Err(DecodeFault { rule: FaultRule::UnexpectedEnd, position: p });
        }
        let c = s.get_char(p);
        if c != '<' {
            p += 1;
        } else if starts_with_at(s, p, "</") {
            let m = "</".unicode_len();
            let (cn, p2) = match parse_close_rest(s, p + m) {
                Ok(t) => t,
                Err(e) => {
                    return Err(e);
                },
            };
            if !str_eq(cn.as_str(), rootname) {
                return Err(DecodeFault { rule: FaultRule::MismatchedClose, position: p });
            }
            return Ok((entries, p2));
        } else if starts_with_at(s, p, "<!--") {
            let m = "<!--".unicode_len();
            p = match skip_past(s, p + m, "-->") {
                Ok(t) => t,
                Err(e) => {
                    return Err(e);
                },
            };
        } else {
            let child_start = p;
            let (nm, _attrs, sc, p2) = match parse_open_tag_rest(s, p + 1) {
                Ok(t) => t,
                Err(e) => {
                    return Err(e);
                },
            };
            if str_eq(nm.as_str(), "entry") {
                let (en, p3) = match parse_entry(s, p2, sc, child_start) {
                    Ok(t) => t,
                    Err(e) => {
                        return Err(e);
                    },
                };
                let ghost old_entries = entries@;
                entries.push(en);
                proof {
                    assert(entries@.map_values(|e: Entry| e@) =~= old_entries.map_values(
                        |e: Entry| e@,
                    ).push(entries@.last()@));
                }
                p = p3;
            } else {
                let (_item, p3) = match finish_leaf(s, p2, nm, sc) {
                    Ok(t) => t,
                    Err(e) => {
                        return Err(e);
                    },
                };
                p = p3;
            }
        }
    }
}

/// The position after the document prolog and other inter-element material
/// at `pos`: whitespace, processing instructions, comments and
/// declarations, or the exact fault on an unfinished one.
pub open spec fn spec_skip_misc(s: Seq<char>, pos: int) -> Result<int, DecodeFault>
    decreases s.len() - pos,
    when 0 <= pos
    via spec_skip_misc_decreases
{
    let p2 = ws_end(s, pos);
    if lit_at(s, p2, "<!--"@) {
        match spec_skip_past(s, p2 + "<!--"@.len(), "-->"@) {
            Err(f) => Err(f),
            Ok(p3) => spec_skip_misc(s, p3),
        }
    } else if lit_at(s, p2, "<?"@) {
        match spec_skip_past(s, p2 + "<?"@.len(), "?>"@) {
            Err(f) => Err(f),
            Ok(p3) => spec_skip_misc(s, p3),
        }
    } else if lit_at(s, p2, "<!"@) {
        match spec_skip_decl(s, p2 + "<!"@.len(), 1) {
            Err(f) => Err(f),
            Ok(p3) => spec_skip_misc(s, p3),
        }
    } else {
        Ok(p2)
    }
}

#[via_fn]
proof fn spec_skip_misc_decreases(s: Seq<char>, pos: int) {
    reveal_strlit("<!--");
    reveal_strlit("-->");
    reveal_strlit("<?");
    reveal_strlit("?>");
    reveal_strlit("<!");
    if 0 <= pos <= s.len() {
        lemma_ws_end_bounds(s, pos);
        let p2 = ws_end(s, pos);
        lemma_skip_past_bounds(s, p2 + 4, "-->"@);
        lemma_skip_past_bounds(s, p2 + 2, "?>"@);
        lemma_skip_decl_bounds(s, p2 + 2, 1);
    }
}

/// Skip the document prolog and other inter-element material: whitespace,
/// processing instructions, comments, and declarations.
#[verifier::loop_isolation(false)]
fn skip_misc(s: &str, pos: usize) -> (r: Result<usize, DecodeFault>)
    requires
        pos <= s@.len(),
    ensures
        r matches Ok(p) ==> pos <= p <= s@.len(),
        (match r {
            Ok(p) => Ok(p as int),
            Err(f) => Err(f),
        }) == spec_skip_misc(s@, pos as int),
{
    let n = s.unicode_len();
    proof {
        reveal_strlit("<!--");
        reveal_strlit("-->");
        reveal_strlit("<?");
        reveal_strlit("?>");
        reveal_strlit("<!");
    }
    let mut p = pos;
    loop
        invariant
            pos <= p <= n,
            n == s@.len(),
            spec_skip_misc(s@, pos as int) == spec_skip_misc(s@, p as int),
        decreases n - p,
    {
        let p2 = skip_ws(s, p);
        if starts_with_at(s, p2, "<!--") {
            let m = "<!--".unicode_len();
            p = match skip_past(s, p2 + m, "-->") {
                Ok(t) => t,
                Err(e) => {
                    return Err(e);
                },
            };
        } else if starts_with_at(s, p2, "<?") {
            let m = "<?".unicode_len();
            p = match skip_past(s, p2 + m, "?>") {
                Ok(t) => t,
                Err(e) => {
                    return Err(e);
                },
            };
        } else if starts_with_at(s, p2, "<!") {
            let m = "<!".unicode_len();
            p = match skip_decl(s, p2 + m) {
                Ok(t) => t,
                Err(e) => {
                    return Err(e);
                },
            };
        } else {
            return Ok(p2);
        }
    }
}

/// What decoding a whole document yields: the dictionary of its entries in
/// document order, or the error for the first violated rule — the result is
/// a function of the input text alone.
pub open spec fn spec_decode_jmdict(s: Seq<char>) -> Result<JMDictV, JMDictError> {
    match spec_skip_misc(s, 0) {
        Err(f) => Err(classify_fault(f)),
        Ok(pos) => if pos >= s.len() {
            Err(
                classify_fault(
                    DecodeFault { rule: FaultRule::MissingRoot, position: pos as usize },
                ),
            )
        } else if s[pos] != '<' {
            Err(
                classify_fault(
                    DecodeFault { rule: FaultRule::MissingRoot, position: pos as usize },
                ),
            )
        } else {
            match spec_open_tag(s, pos + 1) {
                Err(f) => Err(classify_fault(f)),
                Ok((nm, a, sc, p1)) => match (if sc {
                    Ok((Seq::<EntryV>::empty(), p1))
                } else {
                    spec_parse_root(s, p1, nm, Seq::empty())
                }) {
                    Err(f) => Err(classify_fault(f)),
                    Ok((es, p2)) => match spec_skip_misc(s, p2) {
                        Err(f) => Err(classify_fault(f)),
                        Ok(p3) => if p3 != s.len() {
                            Err(
                                classify_fault(
                                    DecodeFault {
                                        rule: FaultRule::TrailingContent,
                                        position: p3 as usize,
                                    },
                                ),
                            )
                        } else {
                            Ok(JMDictV { entries: es })
                        },
                    },
                },
            }
        },
    }
}

/// Which error a decode fault surfaces as: a wrong-shaped scalar attribute
/// is a coercion error, everything else is structural.
pub open spec fn classify_fault(f: DecodeFault) -> JMDictError {
    if f.rule == FaultRule::FlagTooLong {
        JMDictError::TypeCoercionError(f)
    } else {
        JMDictError::StructuralError(f)
    }
}

/// A decode never reports a resource error, and reports a coercion error
/// exactly for the wrong-shaped flag attribute.
pub open spec fn is_decode_error(e: JMDictError) -> bool {
    match e {
        JMDictError::ResourceError(_) => false,
        JMDictError::StructuralError(f) => f.rule != FaultRule::FlagTooLong,
        JMDictError::TypeCoercionError(f) => f.rule == FaultRule::FlagTooLong,
    }
}

fn wrap_fault(f: DecodeFault) -> (e: JMDictError)
    ensures
        e == classify_fault(f),
        is_decode_error(e),
{
    if f.rule == FaultRule::FlagTooLong {
        JMDictError::TypeCoercionError(f)
    } else {
        JMDictError::StructuralError(f)
    }
}

/// Decode a whole document into a dictionary.
///
/// On success every entry satisfies the schema invariant: at least one
/// reading form and at least one sense. On failure the error is structural,
/// or a coercion error exactly when a single-character flag attribute held
/// more than one character; a decode never reports a resource error.
pub fn decode_jmdict(s: &str) -> (r: Result<JMDict, JMDictError>)
    ensures
        r matches Ok(d) ==> dict_wf(d@),
        r matches Err(e) ==> is_decode_error(e),
        (match r {
            Ok(d) => Ok(d@),
            Err(e) => Err(e),
        }) == spec_decode_jmdict(s@),
{
    let n = s.unicode_len();
    let pos = match skip_misc(s, 0) {
        Ok(p) => p,
        Err(f) => {
            return Err(wrap_fault(f));
        },
    };
    if pos >= n {
        return Err(wrap_fault(DecodeFault { rule: FaultRule::MissingRoot, position: pos }));
    }
    if s.get_char(pos) != '<' {
        return Err(wrap_fault(DecodeFault { rule: FaultRule::MissingRoot, position: pos }));
    }
    let (rootname, _attrs, selfclosing, p1) = match parse_open_tag_rest(s, pos + 1) {
        Ok(t) => t,
        Err(f) => {
            return Err(wrap_fault(f));
        },
    };
    proof {
        assert(Seq::<Entry>::empty().map_values(|e: Entry| e@) =~= Seq::<EntryV>::empty());
    }
    let (entries, p2) = if selfclosing {
        (Vec::new(), p1)
    } else {
        match parse_root_children(s, p1, rootname.as_str()) {
            Ok(t) => t,
            Err(f) => {
                return Err(wrap_fault(f));
            },
        }
    };
    let p3 = match skip_misc(s, p2) {
        Ok(p) => p,
        Err(f) => {
            return Err(wrap_fault(f));
        },
    };
    if p3 != n {
        return Err(wrap_fault(DecodeFault { rule: FaultRule::TrailingContent, position: p3 }));
    }
    Ok(JMDict { entries })
}

} // verus!
