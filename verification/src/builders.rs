//! The structural core of the decoder: given the attributes and the child
//! items collected from one element, build the model record for that element.
//!
//! Each builder has an exact contract: a spec-level mirror states, over the
//! views of the collected items, precisely which record is produced, which
//! defaults are filled in, and on which child lists the element is rejected.
//! Tag dispatch is per structural position: each level filters its own child
//! list, so a tag name reused in another context never leaks across levels.

use vstd::prelude::*;
use crate::model::{KEle, KEleV, REle, REleV, Sense, SenseV, Entry, EntryV, LSource, LSourceV,
    Gloss, GlossV, FaultRule, strs};
use crate::strutil::str_eq;

verus! {

/// One attribute of an element: its name and its (entity-decoded) value.
#[derive(Debug)]
pub struct XmlAttr {
    pub name: String,
    pub value: String,
}

pub struct XmlAttrV {
    pub name: Seq<char>,
    pub value: Seq<char>,
}

impl View for XmlAttr {
    type V = XmlAttrV;

    open spec fn view(&self) -> XmlAttrV {
        XmlAttrV { name: self.name@, value: self.value@ }
    }
}

/// One child element reduced to its tag name and its text content.
#[derive(Debug)]
pub struct LeafItem {
    pub name: String,
    pub text: String,
}

pub struct LeafItemV {
    pub name: Seq<char>,
    pub text: Seq<char>,
}

impl View for LeafItem {
    type V = LeafItemV;

    open spec fn view(&self) -> LeafItemV {
        LeafItemV { name: self.name@, text: self.text@ }
    }
}

/// One child of a sense element: a plain tagged text, a lexical source, or a
/// gloss, in document order.
#[derive(Debug)]
pub enum SenseItem {
    Leaf(LeafItem),
    Ls(LSource),
    Gl(Gloss),
}

pub enum SenseItemV {
    Leaf(LeafItemV),
    Ls(LSourceV),
    Gl(GlossV),
}

impl View for SenseItem {
    type V = SenseItemV;

    open spec fn view(&self) -> SenseItemV {
        match self {
            SenseItem::Leaf(l) => SenseItemV::Leaf(l@),
            SenseItem::Ls(l) => SenseItemV::Ls(l@),
            SenseItem::Gl(g) => SenseItemV::Gl(g@),
        }
    }
}

/// One child of an entry element, in document order.
#[derive(Debug)]
pub enum EntryItem {
    Leaf(LeafItem),
    K(KEle),
    R(REle),
    S(Sense),
}

pub enum EntryItemV {
    Leaf(LeafItemV),
    K(KEleV),
    R(REleV),
    S(SenseV),
}

impl View for EntryItem {
    type V = EntryItemV;

    open spec fn view(&self) -> EntryItemV {
        match self {
            EntryItem::Leaf(l) => EntryItemV::Leaf(l@),
            EntryItem::K(k) => EntryItemV::K(k@),
            EntryItem::R(r) => EntryItemV::R(r@),
            EntryItem::S(s) => EntryItemV::S(s@),
        }
    }
}

pub open spec fn attrs_v(s: Seq<XmlAttr>) -> Seq<XmlAttrV> {
    s.map_values(|a: XmlAttr| a@)
}

pub open spec fn leafs_v(s: Seq<LeafItem>) -> Seq<LeafItemV> {
    s.map_values(|l: LeafItem| l@)
}

pub open spec fn sense_items_v(s: Seq<SenseItem>) -> Seq<SenseItemV> {
    s.map_values(|it: SenseItem| it@)
}

pub open spec fn entry_items_v(s: Seq<EntryItem>) -> Seq<EntryItemV> {
    s.map_values(|it: EntryItem| it@)
}

/// The value of the first attribute from index `i` on whose name is `n1` or
/// `n2`, if any.
pub open spec fn attr_from(attrs: Seq<XmlAttrV>, n1: Seq<char>, n2: Seq<char>, i: int) -> Option<
    Seq<char>,
>
    decreases attrs.len() - i,
{
    if i < 0 || i >= attrs.len() {
        None
    } else if attrs[i].name == n1 || attrs[i].name == n2 {
        Some(attrs[i].value)
    } else {
        attr_from(attrs, n1, n2, i + 1)
    }
}

/// The value of the first attribute named `n1` or `n2`, or `dflt` when no
/// attribute carries either name.
pub open spec fn attr_or_default(
    attrs: Seq<XmlAttrV>,
    n1: Seq<char>,
    n2: Seq<char>,
    dflt: Seq<char>,
) -> Seq<char> {
    match attr_from(attrs, n1, n2, 0) {
        Some(v) => v,
        None => dflt,
    }
}

/// The texts of the items named `name`, in document order.
pub open spec fn texts_named(items: Seq<LeafItemV>, name: Seq<char>) -> Seq<Seq<char>>
    decreases items.len(),
{
    if items.len() == 0 {
        Seq::empty()
    } else {
        texts_named(items.drop_last(), name) + (if items.last().name == name {
            seq![items.last().text]
        } else {
            Seq::empty()
        })
    }
}

pub proof fn lemma_texts_named_take(items: Seq<LeafItemV>, name: Seq<char>, i: int)
    requires
        0 <= i < items.len(),
    ensures
        texts_named(items.take(i + 1), name) == texts_named(items.take(i), name) + (if items[
            i
        ].name == name {
            seq![items[i].text]
        } else {
            Seq::<Seq<char>>::empty()
        }),
{
    assert(items.take(i + 1).drop_last() =~= items.take(i));
    assert(items.take(i + 1).last() == items[i]);
}

/// The texts of the plain sense children named `name`, in document order.
pub open spec fn sense_texts_named(items: Seq<SenseItemV>, name: Seq<char>) -> Seq<Seq<char>>
    decreases items.len(),
{
    if items.len() == 0 {
        Seq::empty()
    } else {
        sense_texts_named(items.drop_last(), name) + (match items.last() {
            SenseItemV::Leaf(l) => if l.name == name {
                seq![l.text]
            } else {
                Seq::empty()
            },
            _ => Seq::empty(),
        })
    }
}

pub proof fn lemma_sense_texts_named_take(items: Seq<SenseItemV>, name: Seq<char>, i: int)
    requires
        0 <= i < items.len(),
    ensures
        sense_texts_named(items.take(i + 1), name) == sense_texts_named(items.take(i), name) + (
        match items[i] {
            SenseItemV::Leaf(l) => if l.name == name {
                seq![l.text]
            } else {
                Seq::<Seq<char>>::empty()
            },
            _ => Seq::<Seq<char>>::empty(),
        }),
{
    assert(items.take(i + 1).drop_last() =~= items.take(i));
    assert(items.take(i + 1).last() == items[i]);
}

/// The lexical sources among the sense children, in document order.
pub open spec fn sense_lsources(items: Seq<SenseItemV>) -> Seq<LSourceV>
    decreases items.len(),
{
    if items.len() == 0 {
        Seq::empty()
    } else {
        sense_lsources(items.drop_last()) + (match items.last() {
            SenseItemV::Ls(l) => seq![l],
            _ => Seq::empty(),
        })
    }
}

pub proof fn lemma_sense_lsources_take(items: Seq<SenseItemV>, i: int)
    requires
        0 <= i < items.len(),
    ensures
        sense_lsources(items.take(i + 1)) == sense_lsources(items.take(i)) + (match items[i] {
            SenseItemV::Ls(l) => seq![l],
            _ => Seq::<LSourceV>::empty(),
        }),
{
    assert(items.take(i + 1).drop_last() =~= items.take(i));
    assert(items.take(i + 1).last() == items[i]);
}

/// The glosses among the sense children, in document order.
pub open spec fn sense_glosses(items: Seq<SenseItemV>) -> Seq<GlossV>
    decreases items.len(),
{
    if items.len() == 0 {
        Seq::empty()
    } else {
        sense_glosses(items.drop_last()) + (match items.last() {
            SenseItemV::Gl(g) => seq![g],
            _ => Seq::empty(),
        })
    }
}

pub proof fn lemma_sense_glosses_take(items: Seq<SenseItemV>, i: int)
    requires
        0 <= i < items.len(),
    ensures
        sense_glosses(items.take(i + 1)) == sense_glosses(items.take(i)) + (match items[i] {
            SenseItemV::Gl(g) => seq![g],
            _ => Seq::<GlossV>::empty(),
        }),
{
    assert(items.take(i + 1).drop_last() =~= items.take(i));
    assert(items.take(i + 1).last() == items[i]);
}

/// The texts of the plain entry children named `name`, in document order.
pub open spec fn entry_texts_named(items: Seq<EntryItemV>, name: Seq<char>) -> Seq<Seq<char>>
    decreases items.len(),
{
    if items.len() == 0 {
        Seq::empty()
    } else {
        entry_texts_named(items.drop_last(), name) + (match items.last() {
            EntryItemV::Leaf(l) => if l.name == name {
                seq![l.text]
            } else {
                Seq::empty()
            },
            _ => Seq::empty(),
        })
    }
}

pub proof fn lemma_entry_texts_named_take(items: Seq<EntryItemV>, name: Seq<char>, i: int)
    requires
        0 <= i < items.len(),
    ensures
        entry_texts_named(items.take(i + 1), name) == entry_texts_named(items.take(i), name) + (
        match items[i] {
            EntryItemV::Leaf(l) => if l.name == name {
                seq![l.text]
            } else {
                Seq::<Seq<char>>::empty()
            },
            _ => Seq::<Seq<char>>::empty(),
        }),
{
    assert(items.take(i + 1).drop_last() =~= items.take(i));
    assert(items.take(i + 1).last() == items[i]);
}

/// The kanji forms among the entry children, in document order.
pub open spec fn entry_ks(items: Seq<EntryItemV>) -> Seq<KEleV>
    decreases items.len(),
{
    if items.len() == 0 {
        Seq::empty()
    } else {
        entry_ks(items.drop_last()) + (match items.last() {
            EntryItemV::K(k) => seq![k],
            _ => Seq::empty(),
        })
    }
}

pub proof fn lemma_entry_ks_take(items: Seq<EntryItemV>, i: int)
    requires
        0 <= i < items.len(),
    ensures
        entry_ks(items.take(i + 1)) == entry_ks(items.take(i)) + (match items[i] {
            EntryItemV::K(k) => seq![k],
            _ => Seq::<KEleV>::empty(),
        }),
{
    assert(items.take(i + 1).drop_last() =~= items.take(i));
    assert(items.take(i + 1).last() == items[i]);
}

/// The reading forms among the entry children, in document order.
pub open spec fn entry_rs(items: Seq<EntryItemV>) -> Seq<REleV>
    decreases items.len(),
{
    if items.len() == 0 {
        Seq::empty()
    } else {
        entry_rs(items.drop_last()) + (match items.last() {
            EntryItemV::R(r) => seq![r],
            _ => Seq::empty(),
        })
    }
}

pub proof fn lemma_entry_rs_take(items: Seq<EntryItemV>, i: int)
    requires
        0 <= i < items.len(),
    ensures
        entry_rs(items.take(i + 1)) == entry_rs(items.take(i)) + (match items[i] {
            EntryItemV::R(r) => seq![r],
            _ => Seq::<REleV>::empty(),
        }),
{
    assert(items.take(i + 1).drop_last() =~= items.take(i));
    assert(items.take(i + 1).last() == items[i]);
}

/// The senses among the entry children, in document order.
pub open spec fn entry_ss(items: Seq<EntryItemV>) -> Seq<SenseV>
    decreases items.len(),
{
    if items.len() == 0 {
        Seq::empty()
    } else {
        entry_ss(items.drop_last()) + (match items.last() {
            EntryItemV::S(s) => seq![s],
            _ => Seq::empty(),
        })
    }
}

pub proof fn lemma_entry_ss_take(items: Seq<EntryItemV>, i: int)
    requires
        0 <= i < items.len(),
    ensures
        entry_ss(items.take(i + 1)) == entry_ss(items.take(i)) + (match items[i] {
            EntryItemV::S(s) => seq![s],
            _ => Seq::<SenseV>::empty(),
        }),
{
    assert(items.take(i + 1).drop_last() =~= items.take(i));
    assert(items.take(i + 1).last() == items[i]);
}

/// What a gloss element decodes to: the text payload, the language attribute
/// defaulting to "eng", and the gender and type attributes defaulting to
/// empty.
pub open spec fn gloss_of(attrs: Seq<XmlAttrV>, text: Seq<char>) -> GlossV {
    GlossV {
        gloss: text,
        lang: attr_or_default(attrs, "xml:lang"@, "lang"@, "eng"@),
        g_gend: attr_or_default(attrs, "g_gend"@, "g_gend"@, Seq::empty()),
        g_type: attr_or_default(attrs, "g_type"@, "g_type"@, Seq::empty()),
    }
}

/// What a lexical-source element decodes to. The single-character wasei flag
/// is `'\0'` when absent or empty; a longer flag value is a coercion fault.
pub open spec fn lsource_of(attrs: Seq<XmlAttrV>, text: Seq<char>) -> Result<LSourceV, FaultRule> {
    match attr_from(attrs, "ls_wasei"@, "ls_wasei"@, 0) {
        Some(v) => if v.len() > 1 {
            Err(FaultRule::FlagTooLong)
        } else {
            Ok(
                LSourceV {
                    lsource: text,
                    lang: attr_or_default(attrs, "xml:lang"@, "lang"@, "eng"@),
                    ls_type: attr_or_default(attrs, "ls_type"@, "ls_type"@, Seq::empty()),
                    ls_wasei: if v.len() == 1 {
                        v[0]
                    } else {
                        '\0'
                    },
                },
            )
        },
        None => Ok(
            LSourceV {
                lsource: text,
                lang: attr_or_default(attrs, "xml:lang"@, "lang"@, "eng"@),
                ls_type: attr_or_default(attrs, "ls_type"@, "ls_type"@, Seq::empty()),
                ls_wasei: '\0',
            },
        ),
    }
}

/// What a kanji-form element decodes to: exactly one text, and the note and
/// priority lists in document order.
pub open spec fn k_ele_of(items: Seq<LeafItemV>) -> Result<KEleV, FaultRule> {
    let kebs = texts_named(items, "keb"@);
    if kebs.len() == 0 {
        Err(FaultRule::MissingKanjiText)
    } else if kebs.len() > 1 {
        Err(FaultRule::DuplicateKanjiText)
    } else {
        Ok(
            KEleV {
                keb: kebs[0],
                ke_inf: texts_named(items, "ke_inf"@),
                ke_pri: texts_named(items, "ke_pri"@),
            },
        )
    }
}

/// What a reading-form element decodes to: exactly one text, at most one
/// no-kanji marker, and the restriction, note and priority lists in document
/// order.
pub open spec fn r_ele_of(items: Seq<LeafItemV>) -> Result<REleV, FaultRule> {
    let rebs = texts_named(items, "reb"@);
    let nokanji = texts_named(items, "re_nokanji"@);
    if rebs.len() == 0 {
        Err(FaultRule::MissingReadingText)
    } else if rebs.len() > 1 {
        Err(FaultRule::DuplicateReadingText)
    } else if nokanji.len() > 1 {
        Err(FaultRule::DuplicateNoKanji)
    } else {
        Ok(
            REleV {
                reb: rebs[0],
                re_nokanji: nokanji.len() == 1,
                re_restr: texts_named(items, "re_restr"@),
                re_inf: texts_named(items, "re_inf"@),
                re_pri: texts_named(items, "re_pri"@),
            },
        )
    }
}

/// What a sense element decodes to: every field is the list of its own
/// children with the matching tag, in document order; all may be empty.
pub open spec fn sense_of(items: Seq<SenseItemV>) -> SenseV {
    SenseV {
        stagk: sense_texts_named(items, "stagk"@),
        stagr: sense_texts_named(items, "stagr"@),
        pos: sense_texts_named(items, "pos"@),
        xref: sense_texts_named(items, "xref"@),
        ant: sense_texts_named(items, "ant"@),
        field: sense_texts_named(items, "field"@),
        misc: sense_texts_named(items, "misc"@),
        s_inf: sense_texts_named(items, "s_inf"@),
        lsource: sense_lsources(items),
        dial: sense_texts_named(items, "dial"@),
        gloss: sense_glosses(items),
    }
}

/// What an entry element decodes to: exactly one sequence identifier, the
/// kanji forms in order, at least one reading form, at least one sense.
pub open spec fn entry_of(items: Seq<EntryItemV>) -> Result<EntryV, FaultRule> {
    let seqs = entry_texts_named(items, "ent_seq"@);
    let rs = entry_rs(items);
    let ss = entry_ss(items);
    if seqs.len() == 0 {
        Err(FaultRule::MissingSequenceId)
    } else if seqs.len() > 1 {
        Err(FaultRule::DuplicateSequenceId)
    } else if rs.len() == 0 {
        Err(FaultRule::MissingReadingForm)
    } else if ss.len() == 0 {
        Err(FaultRule::MissingSense)
    } else {
        Ok(EntryV { ent_seq: seqs[0], k_ele: entry_ks(items), r_ele: rs, sense: ss })
    }
}

/// The value of the first attribute named `n1` or `n2`, if any.
pub fn find_attr(attrs: &Vec<XmlAttr>, n1: &str, n2: &str) -> (r: Option<String>)
    ensures
        (match r {
            Some(v) => Some(v@),
            None => None,
        }) == attr_from(attrs_v(attrs@), n1@, n2@, 0),
{
    let mut i: usize = 0;
    while i < attrs.len()
        invariant
            0 <= i <= attrs@.len(),
            attr_from(attrs_v(attrs@), n1@, n2@, 0) == attr_from(
                attrs_v(attrs@),
                n1@,
                n2@,
                i as int,
            ),
        decreases attrs@.len() - i,
    {
        if str_eq(attrs[i].name.as_str(), n1) || str_eq(attrs[i].name.as_str(), n2) {
            return Some(attrs[i].value.clone());
        }
        i += 1;
    }
    None
}

/// Build a gloss from an element's attributes and text payload.
pub fn make_gloss(attrs: &Vec<XmlAttr>, text: String) -> (g: Gloss)
    ensures
        g@ == gloss_of(attrs_v(attrs@), text@),
{
    let lang = match find_attr(attrs, "xml:lang", "lang") {
        Some(v) => v,
        None => "eng".to_owned(),
    };
    let g_gend = match find_attr(attrs, "g_gend", "g_gend") {
        Some(v) => v,
        None => String::new(),
    };
    let g_type = match find_attr(attrs, "g_type", "g_type") {
        Some(v) => v,
        None => String::new(),
    };
    Gloss { gloss: text, lang, g_gend, g_type }
}

/// Build a lexical source from an element's attributes and text payload.
pub fn make_lsource(attrs: &Vec<XmlAttr>, text: String) -> (r: Result<LSource, FaultRule>)
    ensures
        (match r {
            Ok(l) => Ok(l@),
            Err(e) => Err(e),
        }) == lsource_of(attrs_v(attrs@), text@),
{
    let wasei = find_attr(attrs, "ls_wasei", "ls_wasei");
    let ls_wasei: char = match &wasei {
        Some(v) => {
            let n = v.as_str().unicode_len();
            if n > 1 {
                return Err(FaultRule::FlagTooLong);
            }
            if n == 1 {
                v.as_str().get_char(0)
            } else {
                '\0'
            }
        },
        None => '\0',
    };
    let lang = match find_attr(attrs, "xml:lang", "lang") {
        Some(v) => v,
        None => "eng".to_owned(),
    };
    let ls_type = match find_attr(attrs, "ls_type", "ls_type") {
        Some(v) => v,
        None => String::new(),
    };
    Ok(LSource { lsource: text, lang, ls_type, ls_wasei })
}

/// The texts of the child items named `name`, in document order.
pub fn collect_texts(items: &Vec<LeafItem>, name: &str) -> (r: Vec<String>)
    ensures
        strs(r@) == texts_named(leafs_v(items@), name@),
{
    let ghost iv = leafs_v(items@);
    let mut r: Vec<String> = Vec::new();
    let mut i: usize = 0;
    while i < items.len()
        invariant
            0 <= i <= items@.len(),
            iv == leafs_v(items@),
            iv.len() == items@.len(),
            strs(r@) == texts_named(iv.take(i as int), name@),
        decreases items@.len() - i,
    {
        proof {
            lemma_texts_named_take(iv, name@, i as int);
        }
        if str_eq(items[i].name.as_str(), name) {
            let ghost old_r = r@;
            r.push(items[i].text.clone());
            proof {
                assert(strs(r@) =~= strs(old_r).push(items@[i as int].text@));
            }
        }
        i += 1;
    }
    proof {
        assert(iv.take(items@.len() as int) =~= iv);
    }
    r
}

/// Build a kanji form from its collected child items.
pub fn make_k_ele(items: &Vec<LeafItem>) -> (r: Result<KEle, FaultRule>)
    ensures
        (match r {
            Ok(k) => Ok(k@),
            Err(e) => Err(e),
        }) == k_ele_of(leafs_v(items@)),
{
    let mut kebs = collect_texts(items, "keb");
    if kebs.len() == 0 {
        return Err(FaultRule::MissingKanjiText);
    }
    if kebs.len() > 1 {
        return Err(FaultRule::DuplicateKanjiText);
    }
    let keb = kebs.pop().unwrap();
    let ke_inf = collect_texts(items, "ke_inf");
    let ke_pri = collect_texts(items, "ke_pri");
    Ok(KEle { keb, ke_inf, ke_pri })
}

/// Build a reading form from its collected child items.
pub fn make_r_ele(items: &Vec<LeafItem>) -> (r: Result<REle, FaultRule>)
    ensures
        (match r {
            Ok(re) => Ok(re@),
            Err(e) => Err(e),
        }) == r_ele_of(leafs_v(items@)),
{
    let mut rebs = collect_texts(items, "reb");
    let nokanji = collect_texts(items, "re_nokanji");
    if rebs.len() == 0 {
        return Err(FaultRule::MissingReadingText);
    }
    if rebs.len() > 1 {
        return Err(FaultRule::DuplicateReadingText);
    }
    if nokanji.len() > 1 {
        return Err(FaultRule::DuplicateNoKanji);
    }
    let reb = rebs.pop().unwrap();
    let re_nokanji = nokanji.len() == 1;
    let re_restr = collect_texts(items, "re_restr");
    let re_inf = collect_texts(items, "re_inf");
    let re_pri = collect_texts(items, "re_pri");
    Ok(REle { reb, re_nokanji, re_restr, re_inf, re_pri })
}

/// Copy of a lexical source, field for field.
fn copy_lsource(l: &LSource) -> (r: LSource)
    ensures
        r@ == l@,
{
    LSource {
        lsource: l.lsource.clone(),
        lang: l.lang.clone(),
        ls_type: l.ls_type.clone(),
        ls_wasei: l.ls_wasei,
    }
}

/// Copy of a gloss, field for field.
fn copy_gloss(g: &Gloss) -> (r: Gloss)
    ensures
        r@ == g@,
{
    Gloss {
        gloss: g.gloss.clone(),
        lang: g.lang.clone(),
        g_gend: g.g_gend.clone(),
        g_type: g.g_type.clone(),
    }
}

/// The texts of the plain sense children named `name`, in document order.
pub fn collect_sense_texts(items: &Vec<SenseItem>, name: &str) -> (r: Vec<String>)
    ensures
        strs(r@) == sense_texts_named(sense_items_v(items@), name@),
{
    let ghost iv = sense_items_v(items@);
    let mut r: Vec<String> = Vec::new();
    let mut i: usize = 0;
    while i < items.len()
        invariant
            0 <= i <= items@.len(),
            iv == sense_items_v(items@),
            iv.len() == items@.len(),
            strs(r@) == sense_texts_named(iv.take(i as int), name@),
        decreases items@.len() - i,
    {
        proof {
            lemma_sense_texts_named_take(iv, name@, i as int);
        }
        match &items[i] {
            SenseItem::Leaf(l) => {
                if str_eq(l.name.as_str(), name) {
                    let ghost old_r = r@;
                    r.push(l.text.clone());
                    proof {
                        assert(strs(r@) =~= strs(old_r).push(l.text@));
                    }
                }
            },
            _ => {},
        }
        i += 1;
    }
    proof {
        assert(iv.take(items@.len() as int) =~= iv);
    }
    r
}

/// The lexical sources among the sense children, in document order.
pub fn collect_lsources(items: &Vec<SenseItem>) -> (r: Vec<LSource>)
    ensures
        r@.map_values(|l: LSource| l@) == sense_lsources(sense_items_v(items@)),
{
    let ghost iv = sense_items_v(items@);
    let mut r: Vec<LSource> = Vec::new();
    let mut i: usize = 0;
    while i < items.len()
        invariant
            0 <= i <= items@.len(),
            iv == sense_items_v(items@),
            iv.len() == items@.len(),
            r@.map_values(|l: LSource| l@) == sense_lsources(iv.take(i as int)),
        decreases items@.len() - i,
    {
        proof {
            lemma_sense_lsources_take(iv, i as int);
        }
        match &items[i] {
            SenseItem::Ls(l) => {
                let ghost old_r = r@;
                r.push(copy_lsource(l));
                proof {
                    assert(r@.map_values(|x: LSource| x@) =~= old_r.map_values(
                        |x: LSource| x@,
                    ).push(l@));
                }
            },
            _ => {},
        }
        i += 1;
    }
    proof {
        assert(iv.take(items@.len() as int) =~= iv);
    }
    r
}

/// The glosses among the sense children, in document order.
pub fn collect_glosses(items: &Vec<SenseItem>) -> (r: Vec<Gloss>)
    ensures
        r@.map_values(|g: Gloss| g@) == sense_glosses(sense_items_v(items@)),
{
    let ghost iv = sense_items_v(items@);
    let mut r: Vec<Gloss> = Vec::new();
    let mut i: usize = 0;
    while i < items.len()
        invariant
            0 <= i <= items@.len(),
            iv == sense_items_v(items@),
            iv.len() == items@.len(),
            r@.map_values(|g: Gloss| g@) == sense_glosses(iv.take(i as int)),
        decreases items@.len() - i,
    {
        proof {
            lemma_sense_glosses_take(iv, i as int);
        }
        match &items[i] {
            SenseItem::Gl(g) => {
                let ghost old_r = r@;
                r.push(copy_gloss(g));
                proof {
                    assert(r@.map_values(|x: Gloss| x@) =~= old_r.map_values(|x: Gloss| x@).push(
                        g@,
                    ));
                }
            },
            _ => {},
        }
        i += 1;
    }
    proof {
        assert(iv.take(items@.len() as int) =~= iv);
    }
    r
}

/// Build a sense from its collected child items.
pub fn make_sense(items: &Vec<SenseItem>) -> (s: Sense)
    ensures
        s@ == sense_of(sense_items_v(items@)),
{
    Sense {
        stagk: collect_sense_texts(items, "stagk"),
        stagr: collect_sense_texts(items, "stagr"),
        pos: collect_sense_texts(items, "pos"),
        xref: collect_sense_texts(items, "xref"),
        ant: collect_sense_texts(items, "ant"),
        field: collect_sense_texts(items, "field"),
        misc: collect_sense_texts(items, "misc"),
        s_inf: collect_sense_texts(items, "s_inf"),
        lsource: collect_lsources(items),
        dial: collect_sense_texts(items, "dial"),
        gloss: collect_glosses(items),
    }
}

/// The texts of the plain entry children named `name`, in document order.
fn collect_entry_texts(items: &Vec<EntryItem>, name: &str) -> (r: Vec<String>)
    ensures
        strs(r@) == entry_texts_named(entry_items_v(items@), name@),
{
    let ghost iv = entry_items_v(items@);
    let mut r: Vec<String> = Vec::new();
    let mut i: usize = 0;
    while i < items.len()
        invariant
            0 <= i <= items@.len(),
            iv == entry_items_v(items@),
            iv.len() == items@.len(),
            strs(r@) == entry_texts_named(iv.take(i as int), name@),
        decreases items@.len() - i,
    {
        proof {
            lemma_entry_texts_named_take(iv, name@, i as int);
        }
        match &items[i] {
            EntryItem::Leaf(l) => {
                if str_eq(l.name.as_str(), name) {
                    let ghost old_r = r@;
                    r.push(l.text.clone());
                    proof {
                        assert(strs(r@) =~= strs(old_r).push(l.text@));
                    }
                }
            },
            _ => {},
        }
        i += 1;
    }
    proof {
        assert(iv.take(items@.len() as int) =~= iv);
    }
    r
}

/// Build an entry from its collected child items, consuming them so that the
/// structured children move into the entry without copying.
pub fn make_entry(items: Vec<EntryItem>) -> (r: Result<Entry, FaultRule>)
    ensures
        (match r {
            Ok(e) => Ok(e@),
            Err(e) => Err(e),
        }) == entry_of(entry_items_v(items@)),
{
    let ghost iv = entry_items_v(items@);
    let mut seqs = collect_entry_texts(&items, "ent_seq");
    if seqs.len() == 0 {
        return Err(FaultRule::MissingSequenceId);
    }
    if seqs.len() > 1 {
        return Err(FaultRule::DuplicateSequenceId);
    }
    let ent_seq = seqs.pop().unwrap();
    let mut k_ele: Vec<KEle> = Vec::new();
    let mut r_ele: Vec<REle> = Vec::new();
    let mut sense: Vec<Sense> = Vec::new();
    // Walk the children in order, moving each structured child into the list
    // for its own position.
    let mut rest = items;
    let total = rest.len();
    let ghost n = iv.len();
    let mut i: usize = 0;
    proof {
        assert(entry_items_v(rest@) =~= iv.skip(0));
        assert(k_ele@.map_values(|x: KEle| x@) =~= entry_ks(iv.take(0)));
        assert(r_ele@.map_values(|x: REle| x@) =~= entry_rs(iv.take(0)));
        assert(sense@.map_values(|x: Sense| x@) =~= entry_ss(iv.take(0)));
    }
    while rest.len() > 0
        invariant
            iv.len() == n,
            n == total as int,
            i as int == n - rest@.len(),
            0 <= i as int <= n,
            entry_items_v(rest@) == iv.skip(i as int),
            k_ele@.map_values(|x: KEle| x@) == entry_ks(iv.take(i as int)),
            r_ele@.map_values(|x: REle| x@) == entry_rs(iv.take(i as int)),
            sense@.map_values(|x: Sense| x@) == entry_ss(iv.take(i as int)),
        decreases rest@.len(),
    {
        let ghost oldi = i as int;
        proof {
            lemma_entry_ks_take(iv, oldi);
            lemma_entry_rs_take(iv, oldi);
            lemma_entry_ss_take(iv, oldi);
        }
        let ghost oldrest = rest@;
        let it = rest.remove(0);
        let ghost itv = it@;
        proof {
            assert(rest@ =~= oldrest.skip(1));
            assert(itv == entry_items_v(oldrest)[0]);
            assert(itv == iv[oldi]);
        }
        match it {
            EntryItem::K(k) => {
                k_ele.push(k);
            },
            EntryItem::R(re) => {
                r_ele.push(re);
            },
            EntryItem::S(s) => {
                sense.push(s);
            },
            EntryItem::Leaf(_) => {},
        }
        i += 1;
        proof {
            assert forall|j: int| 0 <= j < rest@.len() implies #[trigger] entry_items_v(rest@)[j]
                == iv.skip(oldi + 1)[j] by {
                assert(rest@[j] == oldrest[j + 1]);
                assert(entry_items_v(oldrest)[j + 1] == iv.skip(oldi)[j + 1]);
            }
            assert(entry_items_v(rest@) =~= iv.skip(oldi + 1));
            assert(k_ele@.map_values(|x: KEle| x@) =~= entry_ks(iv.take(oldi + 1)));
            assert(r_ele@.map_values(|x: REle| x@) =~= entry_rs(iv.take(oldi + 1)));
            assert(sense@.map_values(|x: Sense| x@) =~= entry_ss(iv.take(oldi + 1)));
        }
    }
    proof {
        assert(iv.take(n as int) =~= iv);
    }
    if r_ele.len() == 0 {
        return Err(FaultRule::MissingReadingForm);
    }
    if sense.len() == 0 {
        return Err(FaultRule::MissingSense);
    }
    Ok(Entry { ent_seq, k_ele, r_ele, sense })
}

} // verus!
