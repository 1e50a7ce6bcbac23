use samsmrti::mochi_data::{plan_mochi_import, plan_mochi_import_checked, read_mochi_data};

const DATA: &str = r#"{"decks":[{"id":"d1","name":"Deck","parent-id":"d0",
  "templates":[{"id":"t1","name":"Basic","fields":{"f1":{"name":"Front","pos":"a"},"f2":{"name":"Back"}}}],
  "cards":[{"id":"c1","content":"Hello","fields":{"k":"v","n":3}}]},
  {"name":7}],
  "cards":[{"id":"c2","deck-id":"d1","name":"Loose"}]}"#;

#[test]
fn mochi_data_lists_decks_templates_and_cards_in_order() {
    let d = read_mochi_data(DATA).unwrap();
    assert_eq!(d.decks.len(), 2);
    let first = &d.decks[0];
    assert_eq!(first.id, "d1");
    assert_eq!(first.name.as_deref(), Some("Deck"));
    assert_eq!(first.parent_id.as_deref(), Some("d0"));
    assert_eq!(first.templates.len(), 1);
    let t = &first.templates[0];
    assert_eq!(t.id, "t1");
    assert_eq!(t.name.as_deref(), Some("Basic"));
    assert_eq!(t.content, None);
    let fields = t.fields.as_ref().unwrap();
    assert_eq!(fields.len(), 2);
    assert_eq!(fields[0].name.as_deref(), Some("Front"));
    assert_eq!(fields[0].pos.as_deref(), Some("a"));
    assert_eq!(fields[1].pos, None);
    let c = &first.cards[0];
    assert_eq!(c.id, "c1");
    assert_eq!(c.deck_id, "");
    assert_eq!(c.content.as_deref(), Some("Hello"));
    assert_eq!(c.fields, Some(vec![("k".to_string(), Some("v".to_string())), ("n".to_string(), None)]));
    let second = &d.decks[1];
    assert_eq!(second.id, "");
    assert_eq!(second.name, None);
    assert!(second.templates.is_empty() && second.cards.is_empty());
    assert_eq!(d.cards.len(), 1);
    assert_eq!(d.cards[0].deck_id, "d1");
    assert_eq!(d.cards[0].name.as_deref(), Some("Loose"));
    assert_eq!(d.cards[0].fields, None);
}

#[test]
fn mochi_json_error_is_reported_as_invalid_json() {
    let e = plan_mochi_import("{\"decks\": [", false).err().unwrap();
    assert!(e.starts_with("Invalid JSON: EOF while parsing"), "{}", e);
}

#[test]
fn mochi_edn_is_converted_before_it_is_read() {
    let d = plan_mochi_import("[1 2]", true).unwrap();
    assert!(d.decks.is_empty() && d.cards.is_empty());
    let e = plan_mochi_import("{:a 1}", true).err().unwrap();
    assert!(e.starts_with("Failed to parse converted EDN: "), "{}", e);
    assert!(e.ends_with(" (converted: {\"a\", 1})"), "{}", e);
}

#[test]
fn mochi_edn_error_cut_inside_a_character_is_refused() {
    let edn = format!("\"{}é", "a".repeat(198));
    assert!(plan_mochi_import_checked(&edn, true).is_none());
    let edn_ok = format!("\"{}é", "a".repeat(197));
    let e = plan_mochi_import_checked(&edn_ok, true).unwrap().err().unwrap();
    assert!(e.ends_with(&format!("(converted: \"{}é)", "a".repeat(197))), "{}", e);
}
