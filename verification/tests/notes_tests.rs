use samsmrti::notes::{
    check_note_type_deletion, count_csv_items, find_each_field, note_card_ordinals, usage_summaries,
};

fn s(x: &str) -> String {
    x.to_string()
}

fn fields(entries: &[(&str, Option<&str>)]) -> Vec<(String, Option<String>)> {
    entries.iter().map(|(k, v)| (s(k), v.map(s))).collect()
}

fn tpl(front: &str, back: &str, ordinal: i64) -> (String, String, i64) {
    (s(front), s(back), ordinal)
}

#[test]
fn each_field_is_found_on_front_then_back() {
    assert_eq!(find_each_field("<b>{{each:Capitals}}</b>", ""), Some(s("Capitals")));
    assert_eq!(find_each_field("{{Front}}", "x {{each: Items }} y"), Some(s("Items")));
    assert_eq!(find_each_field("{{each:}}", "{{each:Back}}"), Some(s("Back")));
    assert_eq!(find_each_field("{{each:Open", ""), None);
    assert_eq!(find_each_field("{{Front}}", "{{Back}}"), None);
}

#[test]
fn comma_separated_items_are_counted() {
    assert_eq!(count_csv_items("a, b,,c"), 3);
    assert_eq!(count_csv_items("Paris"), 1);
    assert_eq!(count_csv_items(""), 1);
    assert_eq!(count_csv_items(" , "), 1);
}

#[test]
fn cloze_notes_get_one_card_per_deletion() {
    let f = fields(&[("Text", Some("{{c1::a}} and {{c3::b}}")), ("Extra", Some(""))]);
    assert_eq!(note_card_ordinals(true, &f, &vec![]), vec![0, 1, 2]);
    let plain = fields(&[("Text", Some("no deletions"))]);
    assert_eq!(note_card_ordinals(true, &plain, &vec![]), vec![0]);
    assert_eq!(note_card_ordinals(true, &vec![], &vec![]), vec![0]);
}

#[test]
fn templates_with_each_get_one_card_per_item() {
    let f = fields(&[("Front", Some("France")), ("Items", Some("Seine, Loire, Rhone"))]);
    let t = vec![tpl("{{Front}}", "{{Back}}", 0), tpl("{{each:Items}}", "", 1)];
    assert_eq!(note_card_ordinals(false, &f, &t), vec![0, 1000, 1001, 1002]);
    let missing = fields(&[("Front", Some("France"))]);
    assert_eq!(note_card_ordinals(false, &missing, &t), vec![0, 1000]);
}

#[test]
fn usage_of_note_types() {
    let ids = vec![s("a"), s("b"), s("a")];
    let agg = vec![(s("a"), (2, 3, 6))];
    let mut rows = Vec::new();
    for k in 0..6 {
        rows.push((s("a"), format!("d{}", k), format!("Deck {}", k), 10 - k as i64));
    }
    rows.push((s("b"), s("x"), s("Other"), 1));
    let u = usage_summaries(&ids, &agg, &rows);
    assert_eq!(u.len(), 3);
    assert_eq!(u[0].note_type_id, "a");
    assert_eq!((u[0].note_count, u[0].card_count, u[0].deck_count), (2, 3, 6));
    assert_eq!(u[0].top_decks.len(), 5);
    assert_eq!(u[0].top_decks[0].deck_id, "d0");
    assert_eq!(u[0].top_decks[4].deck_name, "Deck 4");
    assert_eq!(u[0].top_decks[4].note_count, 6);
    assert_eq!((u[1].note_count, u[1].card_count, u[1].deck_count), (0, 0, 0));
    assert_eq!(u[1].top_decks.len(), 1);
    assert_eq!(u[1].top_decks[0].deck_name, "Other");
    assert!(u[2].top_decks.is_empty());
}

#[test]
fn note_types_in_use_cannot_be_deleted() {
    assert_eq!(check_note_type_deletion(0), Ok(()));
    assert_eq!(check_note_type_deletion(3), Err(s("Cannot delete note type: 3 notes still use it")));
}
