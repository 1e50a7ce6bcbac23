use samsmrti::imports::ImportResult;
use samsmrti::senators::{
    decode_quoted_printable, extract_attr, extract_between, import_warnings, json_to_record, merge_photos,
    normalize_party, photo_html, photos_from_html, plan_senator, record_senator_note, senator_slug, SenatorJson,
    SenatorPlan, SenatorRecord,
};

#[test]
fn normalize_party_codes() {
    assert_eq!(normalize_party("R"), "Republican");
    assert_eq!(normalize_party("D"), "Democrat");
    assert_eq!(normalize_party("I"), "Independent");
}

#[test]
fn slug_names() {
    assert_eq!(senator_slug("Mark Kelly"), "mark_kelly");
    assert_eq!(senator_slug("Tommy Tuberville"), "tommy_tuberville");
}

#[test]
fn party_names_and_unknown_codes() {
    assert_eq!(normalize_party(" Democratic "), "Democrat");
    assert_eq!(normalize_party("Republican"), "Republican");
    assert_eq!(normalize_party("  L  "), "L");
    for code in ["R", "D", "I", " Democratic ", "L "] {
        let once = normalize_party(code);
        assert_eq!(normalize_party(&once), once);
    }
}

fn record(name: &str, photo: &str) -> SenatorRecord {
    SenatorRecord {
        name: name.to_string(),
        state: "AZ".to_string(),
        party: "Democrat".to_string(),
        since: "2020".to_string(),
        background: String::new(),
        trivia: String::new(),
        personal_fact: String::new(),
        photo: photo.to_string(),
    }
}

#[test]
fn json_record_fields() {
    let r = json_to_record(SenatorJson {
        name: "Mark Kelly".to_string(),
        state: "AZ".to_string(),
        party: "D".to_string(),
        since: 2020,
        background: "Astronaut".to_string(),
        fun_fact: "Twin".to_string(),
        personal_fact: "Navy".to_string(),
    });
    assert_eq!(r.party, "Democrat");
    assert_eq!(r.since, "2020");
    assert_eq!(r.trivia, "Twin");
    assert_eq!(r.photo, "");
}

#[test]
fn plan_gives_note_and_two_cards() {
    match plan_senator(&record("Mark Kelly", "")) {
        SenatorPlan::Insert { note_id, card_ids } => {
            assert_eq!(note_id, "n_sen_mark_kelly");
            assert_eq!(card_ids, vec!["c_sen_mark_kelly_0".to_string(), "c_sen_mark_kelly_1".to_string()]);
        }
        SenatorPlan::Skip(_) => panic!("expected a note"),
    }
    match plan_senator(&record("!!!", "")) {
        SenatorPlan::Skip(w) => assert_eq!(w, "Skip empty slug for name \"!!!\""),
        SenatorPlan::Insert { .. } => panic!("expected a skip"),
    }
}

#[test]
fn booking_notes_and_existing_ones() {
    let mut r = ImportResult::new();
    record_senator_note(&mut r, "Mark Kelly", true);
    assert_eq!(r.notes_imported, 1);
    assert_eq!(r.cards_imported, 2);
    record_senator_note(&mut r, "Mark Kelly", false);
    assert_eq!(r.notes_imported, 1);
    assert_eq!(r.warnings, vec!["Note already exists: Mark Kelly".to_string()]);
}

#[test]
fn warnings_for_count_and_photos() {
    let recs = vec![record("A B", ""), record("C D", "<img>")];
    assert_eq!(
        import_warnings(&recs),
        vec![
            "Expected 100 senators, got 2".to_string(),
            "1 senators have no photo (pass senators_standalone.html to merge)".to_string(),
        ]
    );
    let full: Vec<SenatorRecord> = (0..100).map(|i| record(&format!("S {i}"), "p")).collect();
    assert!(import_warnings(&full).is_empty());
}

#[test]
fn quoted_printable_soft_breaks_and_escapes() {
    assert_eq!(decode_quoted_printable("a=3Db"), "a=b\n");
    assert_eq!(decode_quoted_printable("long=\nline"), "longline\n");
    // each escaped byte becomes the character with that code
    assert_eq!(decode_quoted_printable("caf=C3=A9"), "caf\u{c3}\u{a9}\n");
    assert_eq!(decode_quoted_printable("x=ZZ"), "x=ZZ\n");
}

#[test]
fn html_helpers() {
    assert_eq!(extract_between("x<a>y</a>z", "<a>", "</a>"), Some("y".to_string()));
    assert_eq!(extract_between("nothing", "<a>", "</a>"), None);
    assert_eq!(extract_attr("<img src=\"p.jpg\" alt=\"A\">", "src"), Some("p.jpg".to_string()));
    assert_eq!(photo_html("p.jpg?a&b", "A \"B\" & C"), "<img src=\"p.jpg?a&amp;b\" alt=\"A &quot;B&quot; &amp; C\">");
}

#[test]
fn merging_photos_by_name() {
    let mut recs = vec![record("A B", ""), record("C D", "")];
    merge_photos(&mut recs, &vec![("C D".to_string(), "<img c>".to_string())]);
    assert_eq!(recs[0].photo, "");
    assert_eq!(recs[1].photo, "<img c>");
    let none = photos_from_html("<html></html>");
    assert!(none.is_empty());
    let html = "<div class=\"card\"><img src=\"a.jpg\" alt=\"Alpha\"><div class=\"card-name\"> Mark Kelly </div></div>";
    let photos = photos_from_html(html);
    assert_eq!(photos, vec![("Mark Kelly".to_string(), "<img src=\"a.jpg\" alt=\"Alpha\">".to_string())]);
}
