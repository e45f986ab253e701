//! The general properties of the decoding, stated and proved over the spec
//! mirrors of `crate::builders`.

use vstd::prelude::*;
use crate::decode::spec_decode_jmdict;
use crate::model::{EntryV, SenseV, FaultRule, entry_wf};
use crate::builders::{EntryItemV, SenseItemV, XmlAttrV, attr_from, gloss_of, lsource_of, sense_of,
    sense_texts_named, sense_glosses, entry_of, entry_texts_named, entry_ks, entry_rs, entry_ss};

verus! {

proof fn lemma_attr_from_none(attrs: Seq<XmlAttrV>, n1: Seq<char>, n2: Seq<char>, i: int)
    requires
        forall|j: int| 0 <= j < attrs.len() ==> (#[trigger] attrs[j].name) != n1 && attrs[j].name
            != n2,
        0 <= i,
    ensures
        attr_from(attrs, n1, n2, i) == None::<Seq<char>>,
    decreases attrs.len() - i,
{
    if i < attrs.len() {
        lemma_attr_from_none(attrs, n1, n2, i + 1);
    }
}

/// Default-filling: a gloss whose markup carries no language attribute
/// decodes with language code "eng".
pub proof fn lemma_gloss_lang_default(attrs: Seq<XmlAttrV>, text: Seq<char>)
    requires
        forall|j: int| 0 <= j < attrs.len() ==> (#[trigger] attrs[j].name) != "xml:lang"@
            && attrs[j].name != "lang"@,
    ensures
        gloss_of(attrs, text).lang == "eng"@,
{
    lemma_attr_from_none(attrs, "xml:lang"@, "lang"@, 0);
}

/// Default-filling: a lexical source whose markup carries no language
/// attribute decodes with language code "eng".
pub proof fn lemma_lsource_lang_default(attrs: Seq<XmlAttrV>, text: Seq<char>)
    requires
        forall|j: int| 0 <= j < attrs.len() ==> (#[trigger] attrs[j].name) != "xml:lang"@
            && attrs[j].name != "lang"@,
    ensures
        lsource_of(attrs, text) matches Ok(l) ==> l.lang == "eng"@,
{
    lemma_attr_from_none(attrs, "xml:lang"@, "lang"@, 0);
}

/// A child list that satisfies the schema's cardinalities (exactly one
/// sequence identifier, at least one reading form, at least one sense)
/// always decodes to an entry, made of exactly those children in document
/// order.
pub proof fn lemma_conforming_entry_decodes(items: Seq<EntryItemV>)
    requires
        entry_texts_named(items, "ent_seq"@).len() == 1,
        entry_rs(items).len() >= 1,
        entry_ss(items).len() >= 1,
    ensures
        entry_of(items) matches Ok(e) && e.ent_seq == entry_texts_named(items, "ent_seq"@)[0]
            && e.k_ele == entry_ks(items) && e.r_ele == entry_rs(items) && e.sense == entry_ss(
            items,
        ),
{
}

/// Every decoded entry satisfies the schema invariant: at least one reading
/// form and at least one sense.
pub proof fn lemma_entry_invariant(items: Seq<EntryItemV>, e: EntryV)
    requires
        entry_of(items) == Ok::<EntryV, FaultRule>(e),
    ensures
        entry_wf(e),
{
}

/// An entry child list with no sequence identifier is rejected as missing
/// its required sequence identifier, never decoded partially.
pub proof fn lemma_missing_sequence_id(items: Seq<EntryItemV>)
    requires
        entry_texts_named(items, "ent_seq"@).len() == 0,
    ensures
        entry_of(items) == Err::<EntryV, FaultRule>(FaultRule::MissingSequenceId),
{
}

/// Order preservation: one more sense child at the end of an entry's child
/// list appends exactly that sense to the decoded sense list; nothing is
/// reordered, merged or dropped.
pub proof fn lemma_sense_order(items: Seq<EntryItemV>, s: SenseV)
    ensures
        entry_ss(items.push(EntryItemV::S(s))) == entry_ss(items).push(s),
{
    assert(items.push(EntryItemV::S(s)).drop_last() =~= items);
    assert(entry_ss(items) + seq![s] =~= entry_ss(items).push(s));
}

/// Order preservation inside a sense: one more gloss child at the end
/// appends exactly that gloss to the decoded gloss list.
pub proof fn lemma_gloss_order(items: Seq<SenseItemV>, g: crate::model::GlossV)
    ensures
        sense_glosses(items.push(SenseItemV::Gl(g))) == sense_glosses(items).push(g),
{
    assert(items.push(SenseItemV::Gl(g)).drop_last() =~= items);
    assert(sense_glosses(items) + seq![g] =~= sense_glosses(items).push(g));
}

proof fn lemma_sense_texts_member(items: Seq<SenseItemV>, name: Seq<char>, t: Seq<char>)
    requires
        sense_texts_named(items, name).contains(t),
    ensures
        exists|i: int|
            #![trigger items[i]]
            {
                &&& 0 <= i < items.len()
                &&& items[i] matches SenseItemV::Leaf(l) && l.name == name && l.text == t
            },
    decreases items.len(),
{
    let texts = sense_texts_named(items, name);
    if items.len() == 0 {
        assert(texts.len() == 0);
    } else {
        let pre = items.drop_last();
        let pretexts = sense_texts_named(pre, name);
        let k = choose|k: int| 0 <= k < texts.len() && texts[k] == t;
        if k < pretexts.len() {
            assert(pretexts[k] == t);
            assert(pretexts.contains(t));
            lemma_sense_texts_member(pre, name, t);
            let i = choose|i: int|
                #![trigger pre[i]]
                {
                    &&& 0 <= i < pre.len()
                    &&& pre[i] matches SenseItemV::Leaf(l) && l.name == name && l.text == t
                };
            assert(items[i] == pre[i]);
        } else {
            let i = items.len() - 1;
            assert(items[i] == items.last());
            match items.last() {
                SenseItemV::Leaf(l) => {
                    assert(l.name == name && l.text == t);
                },
                _ => {
                    assert(false);
                },
            }
        }
    }
}

/// Determinism: what a document decodes to is a function of its text
/// alone, so re-decoding identical input yields the identical dictionary
/// or the identical error.
pub proof fn lemma_decode_deterministic(s1: Seq<char>, s2: Seq<char>)
    requires
        s1 == s2,
    ensures
        spec_decode_jmdict(s1) == spec_decode_jmdict(s2),
{
}

/// Positional disambiguation: a part-of-speech tag stands in a decoded
/// sense only if a `pos` child with that text stands in that sense's own
/// child list — a tag of another sense, or of another position, never leaks
/// in.
pub proof fn lemma_pos_positional(items: Seq<SenseItemV>, t: Seq<char>)
    requires
        sense_of(items).pos.contains(t),
    ensures
        exists|i: int|
            #![trigger items[i]]
            {
                &&& 0 <= i < items.len()
                &&& items[i] matches SenseItemV::Leaf(l) && l.name == "pos"@ && l.text == t
            },
{
    lemma_sense_texts_member(items, "pos"@, t);
}

} // verus!
