use samsmrti::quizbowl::{
    build_bonus_cloze_text, build_bonus_part_text, build_tossup_cloze_text, classify,
    count_cloze_deletions, parse_tossup, split_multipage_questions, wrap_cloze, BonusPart,
    ParsedBonus, QuestionKind,
};

const TOSSUP_SAMPLE: &str = r#"1. A "generalized" form of this quantity is the partial derivative of the Lagrangian with respect
to generalized velocity. Planck's constant over this quantity gives the de Broglie (*) wavelength. The average force multiplied by the time the force acts is the change in this quantity, which is
called impulse. This classically conserved quantity is denoted by p. For 10 points—what quantity classically
equals mass times velocity?

answer: (linear) momentum (or momenta)"#;

#[test]
fn classify_tossup() {
    assert_eq!(classify(TOSSUP_SAMPLE), QuestionKind::Tossup);
}

#[test]
fn parse_tossup_sample() {
    let p = parse_tossup(TOSSUP_SAMPLE).unwrap();
    assert!(p.lead_in.contains("Lagrangian"));
    assert!(p.post_power.contains("wavelength"));
    assert!(p.answer.contains("momentum"));
}

#[test]
fn tossup_cloze_markup() {
    let p = parse_tossup(TOSSUP_SAMPLE).unwrap();
    let text = build_tossup_cloze_text(&p);
    assert!(text.contains("{{c1::"));
    assert!(text.contains("{{c2::"));
    assert_eq!(count_cloze_deletions(&text), 2);
}

#[test]
fn wrap_cloze_format() {
    assert_eq!(wrap_cloze(1, "foo"), "{{c1::foo}}");
}

#[test]
fn bonus_cloze_three_parts() {
    let p = ParsedBonus {
        intro: "For 10 points each—".into(),
        parts: vec![
            BonusPart {
                label: 'A',
                stem: "Name this continent.".into(),
                answer: "Africa".into(),
            },
            BonusPart {
                label: 'B',
                stem: "Name this region.".into(),
                answer: "Sahel".into(),
            },
            BonusPart {
                label: 'C',
                stem: "Name this country.".into(),
                answer: "Sudan".into(),
            },
        ],
    };
    let text = build_bonus_cloze_text(&p);
    assert_eq!(count_cloze_deletions(&text), 3);
    assert!(text.contains("A. Name this continent.\n\nAnswer: {{c1::Africa}}"));
    assert!(text.contains("\n\nB. Name this region.\n\nAnswer: {{c2::Sahel}}"));
}

#[test]
fn split_multipage_without_packet_ids() {
    const SAMPLE: &str = r#"1. Edge weights cannot be these numbers in (*) Dijkstra's algorithm. For 10 points—what
numbers that are less than zero?

answer: negative numbers

1. In 2023 scientists found that this region had reversed its "super-rotation". For 10 points each—

A. What solid region is the densest part of the Earth?

answer: inner core

B. Like the outer core, Earth's inner core contains large quantities of this element.

answer: iron

C. Seismologist Inge Lehmann discovered the inner core via reflection of p-waves into these regions.

answer: shadow zones

2. A party now known as "Renaissance" defeated the far-right Marine le Pen in—for 10
points—what country that re-elected Emmanuel Macron?

answer: France
"#;
    let segments = split_multipage_questions(SAMPLE);
    assert_eq!(segments.len(), 3);
    assert_eq!(classify(&segments[0]), QuestionKind::Tossup);
    assert_eq!(classify(&segments[1]), QuestionKind::Bonus);
    assert_eq!(classify(&segments[2]), QuestionKind::Tossup);
}

#[test]
fn split_multipage_guillemet_packet_ids() {
    const SAMPLE: &str = r#"19. For 10 points each—

A. Name this country?

answer: Ecuador

«603039

20. This author wrote Tam o' Shanter. (*) bridge after catcalling a witch. For 10 points—what Scotsman?

answer: Robert Burns

«606604

20. This case concerned Plessy. For 10 points each—

A. Name this 1896 case?

answer: Plessy v. Ferguson

B. Plessy challenged the act in this city?

answer: New Orleans

C. The lone dissent was from this justice?

answer: John Marshall Harlan
"#;
    let segments = split_multipage_questions(SAMPLE);
    assert_eq!(segments.len(), 3);
    assert_eq!(classify(&segments[0]), QuestionKind::Bonus);
    assert_eq!(classify(&segments[1]), QuestionKind::Tossup);
    assert_eq!(classify(&segments[2]), QuestionKind::Bonus);
}

#[test]
fn split_multipage_sample() {
    const SAMPLE: &str = r#"1. Salts of this anion carry out a redox reaction. (*) nitrile group. For 10 points—name this anion.

answer: cyanide

<603709>

1. This leader suppressed the Jeju uprising. For 10 points each—

A. Name this dictator?

answer: Syngman Rhee

B. Capital city?

answer: Busan

C. Exile capital?

answer: Seoul

<602126>

2. A pope with this name chose to resign. (*) shifting equinox. For 10 points—give this papal name.

answer: Gregory
"#;
    let segments = split_multipage_questions(SAMPLE);
    assert_eq!(segments.len(), 3);
    assert_eq!(classify(&segments[0]), QuestionKind::Tossup);
    assert_eq!(classify(&segments[1]), QuestionKind::Bonus);
    assert_eq!(classify(&segments[2]), QuestionKind::Tossup);
}

#[test]
fn bonus_part_text_single_cloze() {
    let intro = "For 10 points each—";
    let a = BonusPart {
        label: 'A',
        stem: "Name this state.".into(),
        answer: "Uttar Pradesh".into(),
    };
    let b = BonusPart {
        label: 'B',
        stem: "Name this river.".into(),
        answer: "Ganges".into(),
    };
    let text_a = build_bonus_part_text(intro, &a, &[]);
    assert_eq!(count_cloze_deletions(&text_a), 1);
    assert!(text_a.contains("{{c1::Uttar Pradesh}}"));

    let text_b = build_bonus_part_text(intro, &b, &[(&a, "Uttar Pradesh")]);
    assert_eq!(count_cloze_deletions(&text_b), 1);
    assert!(text_b.contains("{{c1::Ganges}}"));
    assert!(text_b.contains("Uttar Pradesh"));
}
