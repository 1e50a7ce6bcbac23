use samsmrti::mochi_plan::{mochi_entry, MochiEntry};
use samsmrti::mochi_plan::{
    mochi_card, mochi_card_deck, mochi_deck, mochi_template, remember_deck, MochiCard, MochiField, MochiTemplate,
};

fn s(x: &str) -> String {
    x.to_string()
}

fn is_random_after(id: &str, prefix: &str) -> bool {
    id.len() == prefix.len() + 32
        && id.starts_with(prefix)
        && id[prefix.len()..].chars().all(|c| c.is_ascii_digit() || ('a'..='f').contains(&c))
}

#[test]
fn decks_get_ids_names_and_parents() {
    let mut known: Vec<(String, String)> = Vec::new();
    let top = mochi_deck("abc", Some("Spanish"), None, &known);
    assert_eq!(top.id, "dk_mochi_abc");
    assert_eq!(top.name, "Spanish");
    assert_eq!(top.parent_id, None);
    remember_deck(&mut known, "abc", &top.id);
    let child = mochi_deck("def", None, Some("abc"), &known);
    assert_eq!(child.id, "dk_mochi_def");
    assert_eq!(child.name, "Imported Deck");
    assert_eq!(child.parent_id, Some(s("dk_mochi_abc")));
    let orphan = mochi_deck("", Some("Loose"), Some("nope"), &known);
    assert!(is_random_after(&orphan.id, "dk_"));
    assert_eq!(orphan.parent_id, None);
    remember_deck(&mut known, "", &orphan.id);
    assert_eq!(known, vec![(s("abc"), s("dk_mochi_abc"))]);
}

#[test]
fn loose_cards_find_their_deck_or_the_first() {
    let empty: Vec<(String, String)> = Vec::new();
    assert_eq!(mochi_card_deck(&empty, "abc"), None);
    let known = vec![(s("a"), s("dk_mochi_a")), (s("b"), s("dk_mochi_b"))];
    assert_eq!(mochi_card_deck(&known, "b"), Some(s("dk_mochi_b")));
    assert_eq!(mochi_card_deck(&known, "zzz"), Some(s("dk_mochi_a")));
    assert_eq!(mochi_card_deck(&known, ""), Some(s("dk_mochi_a")));
}

fn field(name: Option<&str>, pos: Option<&str>) -> MochiField {
    MochiField { name: name.map(s), pos: pos.map(s) }
}

#[test]
fn templates_sort_their_fields_by_position() {
    let t = MochiTemplate {
        id: s("t1"),
        name: Some(s("Vocab")),
        content: Some(s("<< Front >>")),
        fields: Some(vec![field(Some("Back"), Some("b")), field(None, None), field(Some("Front"), Some("a")), field(Some("Note"), Some("b"))]),
    };
    let p = mochi_template(&t);
    assert_eq!(p.note_type_id, "nt_mochi_t1");
    assert_eq!(p.name, "Vocab");
    assert!(!p.is_cloze);
    assert_eq!(
        p.fields,
        vec![
            (s("f_mochi_t1_0"), s("Front"), 0),
            (s("f_mochi_t1_1"), s("Back"), 1),
            (s("f_mochi_t1_2"), s("Note"), 2),
            (s("f_mochi_t1_3"), s("Field"), 3),
        ]
    );
    assert_eq!(p.card_template_id, "ct_mochi_t1");
}

#[test]
fn cloze_templates_and_templates_without_fields() {
    let by_content = MochiTemplate { id: s("x"), name: None, content: Some(s("{{c1::a}}")), fields: None };
    let p = mochi_template(&by_content);
    assert!(p.is_cloze);
    assert_eq!(p.name, "Card");
    assert_eq!(p.fields, vec![(s("f_mochi_x_0"), s("Content"), 0)]);
    let by_name = MochiTemplate { id: s(""), name: Some(s("My CLOZE")), content: None, fields: Some(vec![]) };
    let p = mochi_template(&by_name);
    assert!(p.is_cloze);
    assert!(is_random_after(&p.note_type_id, "nt_mochi_"));
    assert!(p.fields.is_empty());
    assert_eq!(p.card_template_id, "ct_mochi_");
}

#[test]
fn cards_become_notes() {
    let with_fields = MochiCard {
        id: s("c9"),
        deck_id: s("abc"),
        fields: Some(vec![(s("name"), Some(s("Paris"))), (s("n"), None)]),
        content: Some(s("ignored")),
        name: None,
    };
    let p = mochi_card(&with_fields);
    assert_eq!(p.note_id, "n_mochi_c9");
    assert_eq!(p.card_id, "c_mochi_c9");
    assert_eq!(p.fields, vec![(s("name"), s("Paris")), (s("n"), s(""))]);
    let by_content = MochiCard { id: s(""), deck_id: s(""), fields: None, content: Some(s("Q")), name: Some(s("N")) };
    let p = mochi_card(&by_content);
    assert!(is_random_after(&p.note_id, "n_"));
    assert!(is_random_after(&p.card_id, "c_mochi_"));
    assert_ne!(p.note_id[2..], p.card_id[8..]);
    assert_eq!(p.fields, vec![(s("Content"), s("Q"))]);
    let by_name = MochiCard { id: s("k"), deck_id: s(""), fields: None, content: None, name: Some(s("N")) };
    assert_eq!(mochi_card(&by_name).fields, vec![(s("Front"), s("N"))]);
    let bare = MochiCard { id: s("k"), deck_id: s(""), fields: None, content: None, name: None };
    assert!(mochi_card(&bare).fields.is_empty());
}

#[test]
fn archive_entries_are_told_apart() {
    assert!(mochi_entry("data.json") == MochiEntry::DataJson);
    assert!(mochi_entry("data.edn") == MochiEntry::DataEdn);
    assert!(mochi_entry("media/cat.png") == MochiEntry::Media);
    assert!(mochi_entry("__MACOSX/x") == MochiEntry::Skip);
    assert!(mochi_entry("media/") == MochiEntry::Skip);
}
