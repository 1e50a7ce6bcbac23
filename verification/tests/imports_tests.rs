use samsmrti::imports::{import_format, ImportFormat};
use samsmrti::anki_decks::{path_keys, split_anki_deck_path};
use samsmrti::anki_notes::{
    card_state, cards_of_note, default_template, imported_note_type_id, is_cloze_name, note_fields, note_tags,
    plan_anki_note, AnkiCard, AnkiNotePlan,
};
use samsmrti::cloze::{count_cloze_deletions, escape_cloze_content, wrap_cloze};
use samsmrti::imports::ImportResult;
use samsmrti::mochi::edn_to_json_text;
use samsmrti::quizbowl::{plan_page, plan_text_segment, QuestionKind, SegmentPlan};

fn s(x: &str) -> String {
    x.to_string()
}

fn card(id: i64, note_id: i64, ord: i64, card_type: i64) -> AnkiCard {
    AnkiCard { id, note_id, deck_id: 1, ord, card_type, queue: 0 }
}

#[test]
fn anki_deck_paths_split_and_keys() {
    assert_eq!(split_anki_deck_path("Lang::Spanish:: Verbs "), vec![s("Lang"), s("Spanish"), s("Verbs")]);
    assert_eq!(split_anki_deck_path("A\u{1f}B::C"), vec![s("A"), s("B::C")]);
    assert_eq!(split_anki_deck_path("::A::::"), vec![s("A")]);
    assert_eq!(split_anki_deck_path("  Default "), vec![s("Default")]);
    assert_eq!(split_anki_deck_path("   "), vec![s("")]);
    let keys = path_keys(&vec![s("Lang"), s("Spanish"), s("Verbs")]);
    assert_eq!(keys, vec![s("Lang"), s("Lang/Spanish"), s("Lang/Spanish/Verbs")]);
}

#[test]
fn anki_card_states_and_note_cards() {
    assert_eq!(card_state(0), "new");
    assert_eq!(card_state(1), "learning");
    assert_eq!(card_state(2), "review");
    assert_eq!(card_state(3), "relearning");
    assert_eq!(card_state(9), "new");
    let cards = vec![card(10, 1, 0, 0), card(11, 2, 0, 2), card(12, 1, 1, 1)];
    let mine = cards_of_note(&cards, 1);
    assert_eq!(mine.len(), 2);
    assert_eq!((mine[0].id, mine[1].id), (10, 12));
    assert!(cards_of_note(&cards, 7).is_empty());
}

#[test]
fn anki_tags_fields_and_types() {
    assert_eq!(note_tags("  geo  europe\tcapitals "), vec![s("geo"), s("europe"), s("capitals")]);
    assert!(note_tags("   ").is_empty());
    let names = vec![s("Front"), s("Back"), s("Extra")];
    assert_eq!(
        note_fields(&names, "Paris\u{1f}Capital of France"),
        vec![(s("Front"), s("Paris")), (s("Back"), s("Capital of France")), (s("Extra"), s(""))]
    );
    assert_eq!(imported_note_type_id(42), "nt_imp_42");
    assert!(is_cloze_name("Cloze (overlapping)"));
    assert!(is_cloze_name("my CLOZE type"));
    assert!(!is_cloze_name("Basic"));
    assert_eq!(default_template(true), (s("{{cloze:Text}}"), s("{{cloze:Text}}")));
    assert_eq!(default_template(false), (s("{{Front}}"), s("{{FrontSide}}<hr>{{Back}}")));
}

#[test]
fn anki_note_plans() {
    let names = vec![s("Front"), s("Back")];
    let cards = vec![card(5, 3, 0, 2), card(6, 3, 1, 0)];
    let deck = s("deck_1");
    let fallback = s("deck_0");
    match plan_anki_note(3, 77, "a\u{1f}b", "t1 t2", false, Some(&deck), None, &names, &cards) {
        AnkiNotePlan::Skip(w) => assert_eq!(w, "Skipped note 3: unknown note type 77"),
        _ => panic!("expected a skip"),
    }
    match plan_anki_note(3, 77, "a\u{1f}b", "", true, None, None, &names, &cards) {
        AnkiNotePlan::Skip(w) => assert_eq!(w, "Skipped note 3: no deck found"),
        _ => panic!("expected a skip"),
    }
    match plan_anki_note(3, 77, "a\u{1f}b", "t1 t2", true, None, Some(&fallback), &names, &cards) {
        AnkiNotePlan::Import { note_id, deck_id, fields, tags, cards } => {
            assert_eq!(note_id, "n_imp_3");
            assert_eq!(deck_id, "deck_0");
            assert_eq!(fields, vec![(s("Front"), s("a")), (s("Back"), s("b"))]);
            assert_eq!(tags, vec![s("t1"), s("t2")]);
            assert_eq!(cards, vec![(s("c_imp_5"), 0, s("review")), (s("c_imp_6"), 1, s("new"))]);
        }
        _ => panic!("expected an import"),
    }
}

#[test]
fn cloze_wrapping_escapes_and_counts() {
    assert_eq!(escape_cloze_content("a}}b"), "a}b");
    assert_eq!(wrap_cloze(12, "x}}"), "{{c12::x}}}");
    assert_eq!(count_cloze_deletions("{{c2::a}} {{c10::b}} {{c::c}}"), 10);
    assert_eq!(count_cloze_deletions("no markup"), 0);
}

#[test]
fn edn_becomes_json_text() {
    assert_eq!(
        edn_to_json_text("{:decks [{:id \"abc\" :name \"Spanish\"}]}"),
        "{\"decks\", [{\"id\", \"abc\", \"name\", \"Spanish\"}]}"
    );
    assert_eq!(edn_to_json_text("[1 2,3]"), "[1, 2, 3]");
    assert_eq!(edn_to_json_text("#{:a :b}"), "[\"a\", \"b\"}");
    assert_eq!(edn_to_json_text("a:b"), "a:b");
    assert_eq!(edn_to_json_text("[1 ]"), "[1 ]");
    assert_eq!(edn_to_json_text("\"a\\\"b\""), "\"a\\\"b\"");
}

#[test]
fn import_results_count_and_warn() {
    let mut r = ImportResult::new();
    assert_eq!((r.notes_imported, r.cards_imported), (0, 0));
    r.note_with_card_added();
    r.note_with_card_added();
    r.warn(s("careful"));
    assert_eq!((r.notes_imported, r.cards_imported), (2, 2));
    assert_eq!(r.warnings, vec![s("careful")]);
}

const TOSSUP: &str = "1. This quantity is conserved in collisions (*) and equals mass times velocity.\nanswer: momentum";

#[test]
fn a_tossup_page_is_planned_as_one_note() {
    match plan_text_segment(TOSSUP, "page1.png", "pk_page1", "Packet 3") {
        SegmentPlan::Import(note, entry) => {
            assert_eq!(note.note_id, "n_qb_pk_page1");
            assert_eq!(note.card_id, "c_qb_pk_page1");
            assert_eq!(note.extra, "Tossup · Packet 3 · page1.png");
            assert_eq!(note.tags, vec![s("quizbowl"), s("tossup"), s("ssnct")]);
            assert!(note.text.contains("{{c1::"));
            assert_eq!(entry.file, "page1.png");
            assert!(entry.kind == QuestionKind::Tossup);
            assert_eq!(entry.cloze_count, 2);
            assert!(entry.warnings.is_empty());
            assert_eq!(entry.ocr_preview, TOSSUP);
        }
        SegmentPlan::Skip(w) => panic!("unexpected skip: {}", w),
    }
}

#[test]
fn an_unparsable_page_is_skipped_with_a_warning() {
    match plan_text_segment("no answer line here", "p.png", "x", "P") {
        SegmentPlan::Skip(w) => assert!(w.starts_with("p.png: ")),
        SegmentPlan::Import(_, _) => panic!("expected a skip"),
    }
}

#[test]
fn pages_with_several_questions_are_numbered() {
    let one = plan_page(1, "p.png", "slug");
    assert_eq!(one.delete_note, None);
    assert_eq!(one.targets, vec![(s("p.png"), s("slug"))]);
    let three = plan_page(3, "p.png", "slug");
    assert_eq!(three.delete_note, Some(s("n_qb_slug")));
    assert_eq!(
        three.targets,
        vec![(s("p.png #0"), s("slug_0")), (s("p.png #1"), s("slug_1")), (s("p.png #2"), s("slug_2"))]
    );
    let none = plan_page(0, "p.png", "slug");
    assert_eq!(none.delete_note, None);
    assert!(none.targets.is_empty());
}

#[test]
fn files_go_to_their_importer() {
    assert!(import_format("deck.apkg") == Ok(ImportFormat::AnkiPackage));
    assert!(import_format("/x/COLLECTION.ANKI2") == Ok(ImportFormat::AnkiCollection));
    assert!(import_format("c.anki21") == Ok(ImportFormat::AnkiCollection));
    assert!(import_format("export.Mochi") == Ok(ImportFormat::Mochi));
    assert!(
        import_format("notes.csv")
            == Err("Unsupported file format. Use .apkg, .anki2 (Anki collection), or .mochi.".to_string())
    );
}

#[test]
fn a_wrapped_deletion_sets_the_card_count() {
    assert_eq!(count_cloze_deletions(&format!("before {} after", wrap_cloze(3, "y"))), 3);
    assert_eq!(count_cloze_deletions(&format!("{}{}", wrap_cloze(1, "a"), wrap_cloze(7, "b"))), 7);
}
