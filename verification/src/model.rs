//! The data model: the record types a decoded dictionary is made of, their
//! mathematical views, and the error taxonomy of a failed load.

use vstd::prelude::*;

verus! {

/// A whole decoded dictionary: entries in document order.
#[derive(Debug)]
pub struct JMDict {
    pub entries: Vec<Entry>,
}

/// One headword group: a required sequence identifier, zero or more kanji
/// forms, one or more reading forms, one or more senses.
#[derive(Debug)]
pub struct Entry {
    pub ent_seq: String,
    pub k_ele: Vec<KEle>,
    pub r_ele: Vec<REle>,
    pub sense: Vec<Sense>,
}

/// A written (kanji) representation of a headword.
#[derive(Debug)]
pub struct KEle {
    pub keb: String,
    pub ke_inf: Vec<String>,
    pub ke_pri: Vec<String>,
}

/// A phonetic (kana) representation of a headword. `re_nokanji` is a
/// presence marker: the reading is not tied to any kanji form.
#[derive(Debug)]
pub struct REle {
    pub reb: String,
    pub re_nokanji: bool,
    pub re_restr: Vec<String>,
    pub re_inf: Vec<String>,
    pub re_pri: Vec<String>,
}

/// One meaning group of an entry.
#[derive(Debug)]
pub struct Sense {
    pub stagk: Vec<String>,
    pub stagr: Vec<String>,
    pub pos: Vec<String>,
    pub xref: Vec<String>,
    pub ant: Vec<String>,
    pub field: Vec<String>,
    pub misc: Vec<String>,
    pub s_inf: Vec<String>,
    pub lsource: Vec<LSource>,
    pub dial: Vec<String>,
    pub gloss: Vec<Gloss>,
}

/// The foreign-language origin of a loanword sense. The text payload may be
/// empty; `lang` defaults to "eng" when the markup carries no language
/// attribute; `ls_wasei` holds the single-character flag value, `'\0'` when
/// the flag is absent or empty.
#[derive(Debug)]
pub struct LSource {
    pub lsource: String,
    pub lang: String,
    pub ls_type: String,
    pub ls_wasei: char,
}

/// One translated or explanatory meaning. `lang` defaults to "eng" when the
/// markup carries no language attribute.
#[derive(Debug)]
pub struct Gloss {
    pub gloss: String,
    pub lang: String,
    pub g_gend: String,
    pub g_type: String,
}

/// The structural rule a failed decode violated.
#[derive(Clone, Copy, Debug, PartialEq, Eq, Structural)]
pub enum FaultRule {
    /// The input ended inside an unfinished construct.
    UnexpectedEnd,
    /// A tag or attribute does not follow the markup syntax.
    MalformedTag,
    /// A closing tag does not match the element it closes.
    MismatchedClose,
    /// An entity reference is not one of the recognized entities.
    UnknownEntity,
    /// No root element was found.
    MissingRoot,
    /// Content follows the closed root element.
    TrailingContent,
    /// An entry has no sequence identifier.
    MissingSequenceId,
    /// An entry has more than one sequence identifier.
    DuplicateSequenceId,
    /// An entry has no reading form.
    MissingReadingForm,
    /// An entry has no sense.
    MissingSense,
    /// A kanji form has no text.
    MissingKanjiText,
    /// A kanji form has more than one text.
    DuplicateKanjiText,
    /// A reading form has no text.
    MissingReadingText,
    /// A reading form has more than one text.
    DuplicateReadingText,
    /// A reading form has more than one no-kanji marker.
    DuplicateNoKanji,
    /// A single-character flag attribute holds more than one character.
    FlagTooLong,
}

/// Where and why a decode failed: the violated rule and the character
/// offset of the construct it was detected in.
#[derive(Debug)]
pub struct DecodeFault {
    pub rule: FaultRule,
    pub position: usize,
}

/// What a load can fail with: an unreadable resource, a structural
/// violation, or an attribute value of the wrong scalar shape.
#[derive(Debug)]
pub enum JMDictError {
    ResourceError(String),
    StructuralError(DecodeFault),
    TypeCoercionError(DecodeFault),
}

/// The view of a sequence of strings: each as its character sequence.
pub open spec fn strs(v: Seq<String>) -> Seq<Seq<char>> {
    v.map_values(|s: String| s@)
}

pub struct GlossV {
    pub gloss: Seq<char>,
    pub lang: Seq<char>,
    pub g_gend: Seq<char>,
    pub g_type: Seq<char>,
}

impl View for Gloss {
    type V = GlossV;

    open spec fn view(&self) -> GlossV {
        GlossV {
            gloss: self.gloss@,
            lang: self.lang@,
            g_gend: self.g_gend@,
            g_type: self.g_type@,
        }
    }
}

pub struct LSourceV {
    pub lsource: Seq<char>,
    pub lang: Seq<char>,
    pub ls_type: Seq<char>,
    pub ls_wasei: char,
}

impl View for LSource {
    type V = LSourceV;

    open spec fn view(&self) -> LSourceV {
        LSourceV {
            lsource: self.lsource@,
            lang: self.lang@,
            ls_type: self.ls_type@,
            ls_wasei: self.ls_wasei,
        }
    }
}

pub struct KEleV {
    pub keb: Seq<char>,
    pub ke_inf: Seq<Seq<char>>,
    pub ke_pri: Seq<Seq<char>>,
}

impl View for KEle {
    type V = KEleV;

    open spec fn view(&self) -> KEleV {
        KEleV { keb: self.keb@, ke_inf: strs(self.ke_inf@), ke_pri: strs(self.ke_pri@) }
    }
}

pub struct REleV {
    pub reb: Seq<char>,
    pub re_nokanji: bool,
    pub re_restr: Seq<Seq<char>>,
    pub re_inf: Seq<Seq<char>>,
    pub re_pri: Seq<Seq<char>>,
}

impl View for REle {
    type V = REleV;

    open spec fn view(&self) -> REleV {
        REleV {
            reb: self.reb@,
            re_nokanji: self.re_nokanji,
            re_restr: strs(self.re_restr@),
            re_inf: strs(self.re_inf@),
            re_pri: strs(self.re_pri@),
        }
    }
}

pub struct SenseV {
    pub stagk: Seq<Seq<char>>,
    pub stagr: Seq<Seq<char>>,
    pub pos: Seq<Seq<char>>,
    pub xref: Seq<Seq<char>>,
    pub ant: Seq<Seq<char>>,
    pub field: Seq<Seq<char>>,
    pub misc: Seq<Seq<char>>,
    pub s_inf: Seq<Seq<char>>,
    pub lsource: Seq<LSourceV>,
    pub dial: Seq<Seq<char>>,
    pub gloss: Seq<GlossV>,
}

impl View for Sense {
    type V = SenseV;

    open spec fn view(&self) -> SenseV {
        SenseV {
            stagk: strs(self.stagk@),
            stagr: strs(self.stagr@),
            pos: strs(self.pos@),
            xref: strs(self.xref@),
            ant: strs(self.ant@),
            field: strs(self.field@),
            misc: strs(self.misc@),
            s_inf: strs(self.s_inf@),
            lsource: self.lsource@.map_values(|l: LSource| l@),
            dial: strs(self.dial@),
            gloss: self.gloss@.map_values(|g: Gloss| g@),
        }
    }
}

pub struct EntryV {
    pub ent_seq: Seq<char>,
    pub k_ele: Seq<KEleV>,
    pub r_ele: Seq<REleV>,
    pub sense: Seq<SenseV>,
}

impl View for Entry {
    type V = EntryV;

    open spec fn view(&self) -> EntryV {
        EntryV {
            ent_seq: self.ent_seq@,
            k_ele: self.k_ele@.map_values(|k: KEle| k@),
            r_ele: self.r_ele@.map_values(|r: REle| r@),
            sense: self.sense@.map_values(|s: Sense| s@),
        }
    }
}

pub struct JMDictV {
    pub entries: Seq<EntryV>,
}

impl View for JMDict {
    type V = JMDictV;

    open spec fn view(&self) -> JMDictV {
        JMDictV { entries: self.entries@.map_values(|e: Entry| e@) }
    }
}

/// The schema-required invariant of a decoded entry: at least one reading
/// form and at least one sense.
pub open spec fn entry_wf(e: EntryV) -> bool {
    &&& e.r_ele.len() >= 1
    &&& e.sense.len() >= 1
}

/// Every entry of a decoded dictionary satisfies the entry invariant.
pub open spec fn dict_wf(d: JMDictV) -> bool {
    forall|i: int| 0 <= i < d.entries.len() ==> entry_wf(#[trigger] d.entries[i])
}

} // verus!
