use samsmrti::anki_models::{legacy_decks, legacy_note_types, parse_i64, plan_legacy_note_types, AnkiModel};

#[test]
fn parses_integers_as_str_parse_does() {
    for s in ["0", "42", "-7", "+9", "007", "9223372036854775807", "-9223372036854775808", "", "-", "+", "1a", "9223372036854775808", "-9223372036854775809", "99999999999999999999999", " 1"] {
        assert_eq!(parse_i64(s), s.parse::<i64>().ok(), "{s:?}");
    }
}

#[test]
fn legacy_models_become_note_types() {
    let text = r#"{"1342697561419": {"name": "Basic", "type": 0,
        "flds": [{"name": "Front"}, {"name": "Back"}],
        "tmpls": [{"name": "Card 1", "qfmt": "{{Front}}", "afmt": "{{Back}}"}]},
        "x7": {"type": 1, "flds": [{}], "tmpls": [{}]}}"#;
    let plans = legacy_note_types(text);
    assert_eq!(plans.len(), 2);
    let p = &plans[0];
    assert_eq!(p.anki_id, 1342697561419);
    assert_eq!(p.note_type_id, "nt_imp_1342697561419");
    assert_eq!(p.name, "Basic");
    assert!(!p.is_cloze);
    assert_eq!(p.fields.len(), 2);
    assert_eq!(p.fields[1].id, "f_imp_1342697561419_1");
    assert_eq!(p.fields[1].name, "Back");
    assert_eq!(p.fields[1].ordinal, 1);
    assert_eq!(p.templates[0].id, "ct_imp_1342697561419_0");
    assert_eq!(p.templates[0].name, "Card 1");
    assert_eq!(p.templates[0].back, "{{Back}}");
    let q = &plans[1];
    assert_eq!(q.anki_id, 0);
    assert_eq!(q.note_type_id, "nt_imp_0");
    assert_eq!(q.name, "Imported");
    assert!(q.is_cloze);
    assert_eq!(q.fields[0].id, "f_imp_0_0");
    assert_eq!(q.fields[0].name, "Field");
    assert_eq!(q.templates[0].name, "Card");
    assert_eq!(q.templates[0].front, "{{Front}}");
    assert_eq!(q.templates[0].back, "{{Back}}");
}

#[test]
fn models_text_that_is_not_an_object_gives_nothing() {
    assert!(legacy_note_types("not json").is_empty());
    assert!(legacy_note_types("[1, 2]").is_empty());
}

#[test]
fn a_model_without_field_or_template_arrays_gets_none() {
    let m = AnkiModel { key: "-5".to_string(), name: None, kind: Some(2), fields: None, templates: None };
    let plans = plan_legacy_note_types(&vec![m]);
    assert_eq!(plans[0].note_type_id, "nt_imp_-5");
    assert!(!plans[0].is_cloze);
    assert!(plans[0].fields.is_empty() && plans[0].templates.is_empty());
}

#[test]
fn legacy_decks_are_read_by_id_and_name() {
    let decks = legacy_decks(r#"{"1": {"name": "Default"}, "17::x": {"name": "Geo::Capitals"}, "5": {}}"#);
    assert_eq!(
        decks,
        vec![(1, "Default".to_string()), (0, "Geo::Capitals".to_string()), (5, "Imported Deck".to_string())]
    );
    assert!(legacy_decks("nope").is_empty());
}
