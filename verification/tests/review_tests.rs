use samsmrti::review::{buried_card_listed, buried_fetch_limit, buried_search};
use samsmrti::review::{empty_review_stats, end_of_today, lapse_increment, next_state, rating_index, review_stats, undo_lapse_delta};
use samsmrti::search::{calculate_streak, day_start, extract_text_from_fields, strip_html, text_of_fields, DailyReview};

#[test]
fn answers_move_cards_between_states() {
    assert_eq!(next_state("new", 1), "learning");
    assert_eq!(next_state("new", 3), "review");
    assert_eq!(next_state("review", 1), "relearning");
    assert_eq!(next_state("learning", 4), "review");
    assert_eq!(rating_index(1), 0);
    assert_eq!(rating_index(4), 3);
    assert_eq!(rating_index(-7), 0);
    assert_eq!(rating_index(9), 3);
}

#[test]
fn undo_takes_back_a_lapse() {
    for r in 1..=4 {
        assert_eq!(lapse_increment(r) + undo_lapse_delta(r), 0);
    }
    assert_eq!(lapse_increment(1), 1);
    assert_eq!(undo_lapse_delta(2), 0);
}

#[test]
fn review_counts_by_rating() {
    let rows = vec![(1, 1000i64), (3, 2000), (3, 500), (4, 10), (7, 5)];
    let s = review_stats(&rows);
    assert_eq!(s.reviewed_today, 5);
    assert_eq!(s.again_count, 1);
    assert_eq!(s.hard_count, 0);
    assert_eq!(s.good_count, 2);
    assert_eq!(s.easy_count, 1);
    assert_eq!(s.total_time_ms, 3515);
    let e = empty_review_stats();
    assert_eq!(e.reviewed_today, 0);
}

#[test]
fn buried_cards_come_back_at_midnight() {
    assert_eq!(day_start(86400 * 3 + 5), 86400 * 3);
    assert_eq!(end_of_today(86400 * 3 + 5), 86400 * 4);
    assert_eq!(end_of_today(0), 86400);
    // before 1970 the remainder is taken toward zero
    assert_eq!(day_start(-5), 0);
    assert_eq!(end_of_today(-5), 86400);
    for now in [1i64, 1000, 86399, 86400, 1_700_000_000] {
        let e = end_of_today(now);
        assert!(now < e && e <= now + 86400);
    }
}

#[test]
fn tags_are_stripped_from_index_text() {
    assert_eq!(strip_html("<b>bold</b> text"), " bold  text");
    assert_eq!(strip_html("a < b"), "a ");
    assert!(!strip_html("<i>x</i><br/>y").contains('<'));
    let fields = vec![
        ("Back".to_string(), Some("<b>Paris</b>".to_string())),
        ("Count".to_string(), None),
        ("Front".to_string(), Some("Capital of France?".to_string())),
    ];
    assert_eq!(text_of_fields(&fields), " Paris  Capital of France?");
    assert_eq!(extract_text_from_fields(r#"{"Front":"Q","Back":"<i>A</i>","n":3}"#), " A  Q");
    assert_eq!(extract_text_from_fields("not json"), "");
    assert_eq!(extract_text_from_fields("[1,2]"), "");
}

fn day(date: &str) -> DailyReview {
    DailyReview { date: date.to_string(), count: 1, again: 0, hard: 0, good: 1, easy: 0 }
}

#[test]
fn study_streak_counts_consecutive_days() {
    let days = vec![day("2024-03-01"), day("2024-02-29"), day("2024-02-28"), day("2024-02-26")];
    assert_eq!(calculate_streak("2024-03-01", &days), 3);
    assert_eq!(calculate_streak("2024-03-02", &days), 0);
    assert_eq!(calculate_streak("2024-03-01", &vec![]), 0);
    let bad = vec![day("2024-13-01")];
    assert_eq!(calculate_streak("2024-13-01", &bad), 1);
}

#[test]
fn buried_list_limit_defaults_and_caps() {
    assert_eq!(buried_fetch_limit(None), 100);
    assert_eq!(buried_fetch_limit(Some(20)), 20);
    assert_eq!(buried_fetch_limit(Some(900)), 500);
}

#[test]
fn buried_search_is_trimmed_and_lowercased() {
    assert_eq!(buried_search(Some("  Spanish Verbs \n")), "spanish verbs");
    assert_eq!(buried_search(None), "");
}

#[test]
fn buried_card_is_listed_by_deck_front_or_fields() {
    let fields = vec!["Hola".to_string(), "Mundo".to_string()];
    assert!(buried_card_listed("Spanish", "<b>Q</b>", &fields, ""));
    assert!(buried_card_listed("Spanish", "<b>Q</b>", &fields, "span"));
    assert!(buried_card_listed("Spanish", "<b>Q</b>", &fields, "<b>q"));
    assert!(buried_card_listed("Spanish", "<b>Q</b>", &fields, "hola mundo"));
    assert!(!buried_card_listed("Spanish", "<b>Q</b>", &fields, "holamundo"));
    assert!(!buried_card_listed("Spanish", "<b>Q</b>", &fields, "french"));
}
