use jmdict::builders::{
    make_entry, make_gloss, make_k_ele, make_lsource, make_r_ele, make_sense, EntryItem, LeafItem,
    SenseItem, XmlAttr,
};
use jmdict::FaultRule;

fn attr(name: &str, value: &str) -> XmlAttr {
    XmlAttr { name: name.to_string(), value: value.to_string() }
}

fn leaf(name: &str, text: &str) -> LeafItem {
    LeafItem { name: name.to_string(), text: text.to_string() }
}

#[test]
fn test_gloss_defaults() {
    let g = make_gloss(&vec![], "trade fair".to_string());
    assert_eq!(g.gloss, "trade fair");
    assert_eq!(g.lang, "eng");
    assert_eq!(g.g_gend, "");
    assert_eq!(g.g_type, "");
}

#[test]
fn test_gloss_attributes_captured() {
    let attrs = vec![attr("xml:lang", "dut"), attr("g_gend", "f"), attr("g_type", "lit")];
    let g = make_gloss(&attrs, "beurs".to_string());
    assert_eq!(g.lang, "dut");
    assert_eq!(g.g_gend, "f");
    assert_eq!(g.g_type, "lit");
}

#[test]
fn test_lsource_wasei_flag() {
    let ok = make_lsource(&vec![attr("ls_wasei", "y")], "campaign".to_string()).unwrap();
    assert_eq!(ok.ls_wasei, 'y');
    assert_eq!(ok.lang, "eng");
    let empty = make_lsource(&vec![attr("ls_wasei", "")], "x".to_string()).unwrap();
    assert_eq!(empty.ls_wasei, '\0');
    let err = make_lsource(&vec![attr("ls_wasei", "yy")], "x".to_string());
    assert_eq!(err.unwrap_err(), FaultRule::FlagTooLong);
}

#[test]
fn test_k_ele_cardinality() {
    let missing = make_k_ele(&vec![leaf("ke_pri", "news1")]);
    assert_eq!(missing.unwrap_err(), FaultRule::MissingKanjiText);
    let twice = make_k_ele(&vec![leaf("keb", "一"), leaf("keb", "二")]);
    assert_eq!(twice.unwrap_err(), FaultRule::DuplicateKanjiText);
    let ok = make_k_ele(&vec![leaf("keb", "一"), leaf("ke_inf", "old"), leaf("ke_pri", "news1")])
        .unwrap();
    assert_eq!(ok.keb, "一");
    assert_eq!(ok.ke_inf, vec!["old"]);
    assert_eq!(ok.ke_pri, vec!["news1"]);
}

#[test]
fn test_r_ele_cardinality() {
    let missing = make_r_ele(&vec![]);
    assert_eq!(missing.unwrap_err(), FaultRule::MissingReadingText);
    let twice = make_r_ele(&vec![leaf("reb", "あ"), leaf("reb", "い")]);
    assert_eq!(twice.unwrap_err(), FaultRule::DuplicateReadingText);
    let marked = make_r_ele(&vec![leaf("reb", "あ"), leaf("re_nokanji", "")]).unwrap();
    assert!(marked.re_nokanji);
    let double_mark = make_r_ele(&vec![
        leaf("reb", "あ"),
        leaf("re_nokanji", ""),
        leaf("re_nokanji", ""),
    ]);
    assert_eq!(double_mark.unwrap_err(), FaultRule::DuplicateNoKanji);
}

#[test]
fn test_sense_positional_fields() {
    let items = vec![
        SenseItem::Leaf(leaf("pos", "noun")),
        SenseItem::Leaf(leaf("xref", "see other")),
        SenseItem::Leaf(leaf("stagk", "一")),
        SenseItem::Gl(make_gloss(&vec![], "a".to_string())),
        SenseItem::Leaf(leaf("pos", "verb")),
    ];
    let s = make_sense(&items);
    assert_eq!(s.pos, vec!["noun", "verb"]);
    assert_eq!(s.xref, vec!["see other"]);
    assert_eq!(s.stagk, vec!["一"]);
    assert!(s.ant.is_empty());
    assert_eq!(s.gloss.len(), 1);
}

#[test]
fn test_entry_cardinality() {
    let r = make_r_ele(&vec![leaf("reb", "あ")]).unwrap();
    let s = make_sense(&vec![]);
    let ok = make_entry(vec![
        EntryItem::Leaf(leaf("ent_seq", "1000")),
        EntryItem::R(r),
        EntryItem::S(s),
    ])
    .unwrap();
    assert_eq!(ok.ent_seq, "1000");
    assert_eq!(ok.r_ele.len(), 1);
    assert_eq!(ok.sense.len(), 1);

    let none = make_entry(vec![]);
    assert_eq!(none.unwrap_err(), FaultRule::MissingSequenceId);

    let two_ids = make_entry(vec![
        EntryItem::Leaf(leaf("ent_seq", "1")),
        EntryItem::Leaf(leaf("ent_seq", "2")),
    ]);
    assert_eq!(two_ids.unwrap_err(), FaultRule::DuplicateSequenceId);
}
