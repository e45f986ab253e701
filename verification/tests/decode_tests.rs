use jmdict::{decode_jmdict, FaultRule, JMDictError};

const DOC: &str = r#"<?xml version="1.0" encoding="UTF-8"?>
<!DOCTYPE JMdict [
<!ELEMENT JMdict (entry*)>
<!ELEMENT entry (ent_seq, k_ele*, r_ele+, sense+)>
]>
<!-- a small dictionary of three entries -->
<JMdict>
<entry>
<ent_seq>1260110</ent_seq>
<k_ele>
<keb>見本市</keb>
<ke_pri>news1</ke_pri>
<ke_pri>nf17</ke_pri>
</k_ele>
<r_ele>
<reb>みほんいち</reb>
<re_pri>news1</re_pri>
<re_pri>nf17</re_pri>
</r_ele>
<sense>
<pos>noun (common) (futsuumeishi)</pos>
<lsource xml:lang="rus">test</lsource>
<gloss>trade fair</gloss>
</sense>
<sense>
<gloss xml:lang="dut">handelsbeurs</gloss>
<gloss xml:lang="dut">vakbeurs</gloss>
<gloss xml:lang="dut">{gew.} foor</gloss>
</sense>
<sense>
<gloss xml:lang="ger">Messe</gloss>
<gloss xml:lang="ger">Mustermesse</gloss>
</sense>
<sense>
<gloss xml:lang="hun">termékbemutató</gloss>
</sense>
<sense>
<gloss xml:lang="spa">feria de muestras</gloss>
</sense>
<sense>
<gloss xml:lang="swe">fackmässa</gloss>
</sense>
</entry>
<entry>
<ent_seq>1053260</ent_seq>
<r_ele>
<reb>コンビナートキャンペーン</reb>
</r_ele>
<r_ele>
<reb>コンビナート・キャンペーン</reb>
</r_ele>
<sense>
<pos>noun (common) (futsuumeishi)</pos>
<misc>obsolete term</misc>
<lsource xml:lang="rus">kombinat</lsource>
<lsource ls_type="part" ls_wasei="y">campaign</lsource>
<gloss>coordinated advertising campaign for various different products (sharing brand name, slogans, etc.)</gloss>
</sense>
<sense>
<gloss xml:lang="ger">industrieübergreifende Werbekampagne</gloss>
</sense>
</entry>
<entry>
<ent_seq>1053261</ent_seq>
<r_ele>
<reb>コンビナートキャンペーン</reb>
</r_ele>
<r_ele>
<reb>コンビナート・キャンペーン</reb>
</r_ele>
<sense>
<pos>noun (common) (futsuumeishi)</pos>
<misc>obsolete term</misc>
<lsource xml:lang="rus">kombinat</lsource>
<lsource ls_type="part" ls_wasei="y">campaign</lsource>
<gloss>coordinated advertising campaign for various different products (sharing brand name, slogans, etc.)</gloss>
</sense>
<sense>
<gloss xml:lang="ger">industrieübergreifende Werbekampagne</gloss>
</sense>
</entry>
</JMdict>
"#;

#[test]
fn test_read_jmdict() {
    let r_jmdict = decode_jmdict(DOC);
    assert!(r_jmdict.is_ok(), "Error reading jmdict.");
    let jmdict = r_jmdict.unwrap();
    assert!(jmdict.entries.len() == 3, "There should be 3 entries in jmdict.");

    let entry1 = &jmdict.entries[0];
    assert_eq!(entry1.ent_seq, "1260110");
    assert_eq!(entry1.k_ele.len(), 1);
    assert_eq!(entry1.k_ele[0].keb, "見本市");
    assert!(entry1.k_ele[0].ke_inf.is_empty());
    assert_eq!(entry1.k_ele[0].ke_pri, vec!["news1", "nf17"]);
    assert_eq!(entry1.r_ele.len(), 1);
    assert_eq!(entry1.r_ele[0].reb, "みほんいち");
    assert!(!entry1.r_ele[0].re_nokanji);
    assert_eq!(entry1.r_ele[0].re_pri, vec!["news1", "nf17"]);
    assert_eq!(entry1.sense.len(), 6);
    assert_eq!(entry1.sense[0].pos, vec!["noun (common) (futsuumeishi)"]);
    assert_eq!(entry1.sense[0].lsource.len(), 1);
    assert_eq!(entry1.sense[0].lsource[0].lsource, "test");
    assert_eq!(entry1.sense[0].lsource[0].lang, "rus");
    assert_eq!(entry1.sense[0].lsource[0].ls_type, "");
    assert_eq!(entry1.sense[0].lsource[0].ls_wasei, '\0');
    assert_eq!(entry1.sense[0].gloss.len(), 1);
    assert_eq!(entry1.sense[0].gloss[0].gloss, "trade fair");
    assert_eq!(entry1.sense[0].gloss[0].lang, "eng");

    let entry2 = &jmdict.entries[1];
    assert_eq!(entry2.ent_seq, "1053260");
    assert!(entry2.k_ele.is_empty());
    assert_eq!(entry2.r_ele.len(), 2);
    assert_eq!(entry2.sense.len(), 2);
    assert_eq!(entry2.sense[0].misc, vec!["obsolete term"]);
    assert_eq!(entry2.sense[0].lsource.len(), 2);
    assert_eq!(entry2.sense[0].lsource[0].lsource, "kombinat");
    assert_eq!(entry2.sense[0].lsource[0].lang, "rus");
    assert_eq!(entry2.sense[0].lsource[1].lsource, "campaign");
    assert_eq!(entry2.sense[0].lsource[1].lang, "eng");
    assert_eq!(entry2.sense[0].lsource[1].ls_type, "part");
    assert_eq!(entry2.sense[0].lsource[1].ls_wasei, 'y');

    let entry3 = &jmdict.entries[2];
    assert_eq!(entry3.ent_seq, "1053261");
    assert!(entry3.k_ele.is_empty());
    assert_eq!(entry3.r_ele.len(), 2);
    assert_eq!(entry3.r_ele[0].reb, "コンビナートキャンペーン");
    assert_eq!(entry3.r_ele[1].reb, "コンビナート・キャンペーン");
    assert_eq!(entry3.sense.len(), 2);
    assert_eq!(entry3.sense[0].pos, vec!["noun (common) (futsuumeishi)"]);
    assert_eq!(entry3.sense[0].misc, vec!["obsolete term"]);
    assert_eq!(entry3.sense[0].lsource.len(), 2);
    assert_eq!(entry3.sense[0].lsource[0].lsource, "kombinat");
    assert_eq!(entry3.sense[0].lsource[0].lang, "rus");
    assert_eq!(entry3.sense[0].lsource[0].ls_wasei, '\0');
    assert_eq!(entry3.sense[0].lsource[1].lsource, "campaign");
    assert_eq!(entry3.sense[0].lsource[1].lang, "eng");
    assert_eq!(entry3.sense[0].lsource[1].ls_type, "part");
    assert_eq!(entry3.sense[0].lsource[1].ls_wasei, 'y');
    assert_eq!(
        entry3.sense[0].gloss[0].gloss,
        "coordinated advertising campaign for various different products (sharing brand name, slogans, etc.)"
    );
    assert_eq!(entry3.sense[1].gloss[0].gloss, "industrieübergreifende Werbekampagne");
    assert_eq!(entry3.sense[1].gloss[0].lang, "ger");
}

#[test]
fn test_no_kanji_entry() {
    let jmdict = decode_jmdict(DOC).unwrap();
    let entry2 = &jmdict.entries[1];
    assert!(entry2.k_ele.is_empty());
    assert_eq!(entry2.r_ele.len(), 2);
    assert_eq!(entry2.r_ele[0].reb, "コンビナートキャンペーン");
    assert_eq!(entry2.r_ele[1].reb, "コンビナート・キャンペーン");
}

#[test]
fn test_sense_order_preserved() {
    let jmdict = decode_jmdict(DOC).unwrap();
    let entry1 = &jmdict.entries[0];
    assert_eq!(entry1.sense[1].gloss[0].gloss, "handelsbeurs");
    assert_eq!(entry1.sense[1].gloss[1].gloss, "vakbeurs");
    assert_eq!(entry1.sense[1].gloss[2].gloss, "{gew.} foor");
    assert_eq!(entry1.sense[2].gloss[0].gloss, "Messe");
    assert_eq!(entry1.sense[2].gloss[1].gloss, "Mustermesse");
    assert_eq!(entry1.sense[3].gloss[0].lang, "hun");
    assert_eq!(entry1.sense[4].gloss[0].lang, "spa");
    assert_eq!(entry1.sense[5].gloss[0].lang, "swe");
}

#[test]
fn test_determinism() {
    let d1 = decode_jmdict(DOC).unwrap();
    let d2 = decode_jmdict(DOC).unwrap();
    assert_eq!(format!("{:#?}", d1), format!("{:#?}", d2));
}

#[test]
fn test_pos_positional() {
    let doc = r#"<JMdict><entry><ent_seq>1</ent_seq>
<pos>stray</pos>
<r_ele><reb>か</reb></r_ele>
<sense><pos>noun</pos><gloss>a</gloss></sense>
<sense><gloss>b</gloss></sense>
</entry></JMdict>"#;
    let d = decode_jmdict(doc).unwrap();
    let e = &d.entries[0];
    assert_eq!(e.sense[0].pos, vec!["noun"]);
    assert!(e.sense[1].pos.is_empty());
}

#[test]
fn test_default_lang() {
    let doc = r#"<JMdict><entry><ent_seq>2</ent_seq>
<r_ele><reb>か</reb></r_ele>
<sense>
<lsource>origin</lsource>
<gloss>meaning</gloss>
<gloss xml:lang="ger">Bedeutung</gloss>
</sense>
</entry></JMdict>"#;
    let d = decode_jmdict(doc).unwrap();
    let se = &d.entries[0].sense[0];
    assert_eq!(se.lsource[0].lang, "eng");
    assert_eq!(se.gloss[0].lang, "eng");
    assert_eq!(se.gloss[1].lang, "ger");
}

#[test]
fn test_missing_sequence_id() {
    let doc = r#"<JMdict><entry>
<r_ele><reb>か</reb></r_ele>
<sense><gloss>a</gloss></sense>
</entry></JMdict>"#;
    let r = decode_jmdict(doc);
    match r {
        Err(JMDictError::StructuralError(f)) => {
            assert_eq!(f.rule, FaultRule::MissingSequenceId);
        }
        _ => panic!("expected a structural error"),
    }
}

#[test]
fn test_missing_reading_form() {
    let doc = r#"<JMdict><entry><ent_seq>3</ent_seq>
<sense><gloss>a</gloss></sense>
</entry></JMdict>"#;
    match decode_jmdict(doc) {
        Err(JMDictError::StructuralError(f)) => {
            assert_eq!(f.rule, FaultRule::MissingReadingForm);
        }
        _ => panic!("expected a structural error"),
    }
}

#[test]
fn test_missing_sense() {
    let doc = r#"<JMdict><entry><ent_seq>4</ent_seq>
<r_ele><reb>か</reb></r_ele>
</entry></JMdict>"#;
    match decode_jmdict(doc) {
        Err(JMDictError::StructuralError(f)) => {
            assert_eq!(f.rule, FaultRule::MissingSense);
        }
        _ => panic!("expected a structural error"),
    }
}

#[test]
fn test_missing_kanji_text() {
    let doc = r#"<JMdict><entry><ent_seq>5</ent_seq>
<k_ele><ke_pri>news1</ke_pri></k_ele>
<r_ele><reb>か</reb></r_ele>
<sense><gloss>a</gloss></sense>
</entry></JMdict>"#;
    match decode_jmdict(doc) {
        Err(JMDictError::StructuralError(f)) => {
            assert_eq!(f.rule, FaultRule::MissingKanjiText);
        }
        _ => panic!("expected a structural error"),
    }
}

#[test]
fn test_wasei_flag_too_long() {
    let doc = r#"<JMdict><entry><ent_seq>6</ent_seq>
<r_ele><reb>か</reb></r_ele>
<sense><lsource ls_wasei="yes">x</lsource><gloss>a</gloss></sense>
</entry></JMdict>"#;
    match decode_jmdict(doc) {
        Err(JMDictError::TypeCoercionError(f)) => {
            assert_eq!(f.rule, FaultRule::FlagTooLong);
        }
        _ => panic!("expected a coercion error"),
    }
}

#[test]
fn test_empty_lsource_payload() {
    let doc = r#"<JMdict><entry><ent_seq>7</ent_seq>
<r_ele><reb>か</reb></r_ele>
<sense><lsource xml:lang="ger"/><gloss>a</gloss></sense>
</entry></JMdict>"#;
    let d = decode_jmdict(doc).unwrap();
    let ls = &d.entries[0].sense[0].lsource[0];
    assert_eq!(ls.lsource, "");
    assert_eq!(ls.lang, "ger");
    assert_eq!(ls.ls_wasei, '\0');
}

#[test]
fn test_re_nokanji_marker() {
    let doc = r#"<JMdict><entry><ent_seq>8</ent_seq>
<r_ele><reb>あ</reb><re_nokanji/></r_ele>
<r_ele><reb>い</reb></r_ele>
<sense><gloss>a</gloss></sense>
</entry></JMdict>"#;
    let d = decode_jmdict(doc).unwrap();
    assert!(d.entries[0].r_ele[0].re_nokanji);
    assert!(!d.entries[0].r_ele[1].re_nokanji);
}

#[test]
fn test_re_restr_preserved() {
    let doc = r#"<JMdict><entry><ent_seq>9</ent_seq>
<k_ele><keb>一</keb></k_ele>
<k_ele><keb>二</keb></k_ele>
<r_ele><reb>か</reb><re_restr>一</re_restr><re_restr>二</re_restr></r_ele>
<sense><gloss>a</gloss></sense>
</entry></JMdict>"#;
    let d = decode_jmdict(doc).unwrap();
    assert_eq!(d.entries[0].r_ele[0].re_restr, vec!["一", "二"]);
}

#[test]
fn test_entities_decoded() {
    let doc = r#"<JMdict><entry><ent_seq>10</ent_seq>
<r_ele><reb>か</reb></r_ele>
<sense><gloss g_type="&quot;lit&quot;">a &amp; b &lt;c&gt; &apos;d&apos;</gloss></sense>
</entry></JMdict>"#;
    let d = decode_jmdict(doc).unwrap();
    let g = &d.entries[0].sense[0].gloss[0];
    assert_eq!(g.gloss, "a & b <c> 'd'");
    assert_eq!(g.g_type, "\"lit\"");
}

#[test]
fn test_unknown_entity_rejected() {
    let doc = r#"<JMdict><entry><ent_seq>11</ent_seq>
<r_ele><reb>か</reb></r_ele>
<sense><gloss>&unknown;</gloss></sense>
</entry></JMdict>"#;
    match decode_jmdict(doc) {
        Err(JMDictError::StructuralError(f)) => {
            assert_eq!(f.rule, FaultRule::UnknownEntity);
        }
        _ => panic!("expected a structural error"),
    }
}

#[test]
fn test_unclosed_markup() {
    let doc = r#"<JMdict><entry><ent_seq>12</ent_seq>"#;
    match decode_jmdict(doc) {
        Err(JMDictError::StructuralError(f)) => {
            assert_eq!(f.rule, FaultRule::UnexpectedEnd);
        }
        _ => panic!("expected a structural error"),
    }
}

#[test]
fn test_mismatched_close() {
    let doc = r#"<JMdict><entry><ent_seq>13</wrong></entry></JMdict>"#;
    match decode_jmdict(doc) {
        Err(JMDictError::StructuralError(f)) => {
            assert_eq!(f.rule, FaultRule::MismatchedClose);
        }
        _ => panic!("expected a structural error"),
    }
}

#[test]
fn test_trailing_content() {
    let doc = r#"<JMdict></JMdict>tail"#;
    match decode_jmdict(doc) {
        Err(JMDictError::StructuralError(f)) => {
            assert_eq!(f.rule, FaultRule::TrailingContent);
        }
        _ => panic!("expected a structural error"),
    }
}

#[test]
fn test_missing_root() {
    match decode_jmdict("   ") {
        Err(JMDictError::StructuralError(f)) => {
            assert_eq!(f.rule, FaultRule::MissingRoot);
        }
        _ => panic!("expected a structural error"),
    }
}

#[test]
fn test_empty_dictionary() {
    let d = decode_jmdict("<JMdict></JMdict>").unwrap();
    assert!(d.entries.is_empty());
    let d2 = decode_jmdict("<JMdict/>").unwrap();
    assert!(d2.entries.is_empty());
}

#[test]
fn test_unknown_elements_skipped() {
    let doc = r#"<JMdict>
<unrelated><deep><deeper/></deep></unrelated>
<entry><ent_seq>14</ent_seq>
<k_ele><keb>字</keb><audit><upd_date>x</upd_date></audit></k_ele>
<r_ele><reb>か</reb></r_ele>
<sense><example><ex_text>ignored</ex_text></example><gloss>a</gloss></sense>
</entry></JMdict>"#;
    let d = decode_jmdict(doc).unwrap();
    assert_eq!(d.entries.len(), 1);
    assert_eq!(d.entries[0].k_ele[0].keb, "字");
    assert_eq!(d.entries[0].sense[0].gloss.len(), 1);
    assert_eq!(d.entries[0].sense[0].gloss[0].gloss, "a");
}

#[test]
fn test_comments_between_entries() {
    let doc = r#"<?xml version="1.0"?>
<!-- prolog comment -->
<JMdict>
<!-- before -->
<entry><ent_seq>15</ent_seq><r_ele><reb>か</reb></r_ele><sense><gloss>a</gloss></sense></entry>
<!-- after -->
</JMdict>
<!-- trailing comment is fine -->"#;
    let d = decode_jmdict(doc).unwrap();
    assert_eq!(d.entries.len(), 1);
}

#[test]
fn test_cdata_payload() {
    let doc = r#"<JMdict><entry><ent_seq>16</ent_seq>
<r_ele><reb>か</reb></r_ele>
<sense><gloss>before <![CDATA[<raw & data>]]> after</gloss></sense>
</entry></JMdict>"#;
    let d = decode_jmdict(doc).unwrap();
    assert_eq!(d.entries[0].sense[0].gloss[0].gloss, "before <raw & data> after");
}
