use samsmrti::deck_tree::{is_ancestor_of, rollup_deck_counts, validate_parent};
use samsmrti::decks::{
    apply_deck_update, decks_with_counts, deletion_order, new_deck, CreateDeckInput, Deck, UpdateDeckInput,
};

fn s(x: &str) -> String {
    x.to_string()
}

fn tree() -> Vec<(String, Option<String>)> {
    vec![
        (s("root"), None),
        (s("a"), Some(s("root"))),
        (s("b"), Some(s("root"))),
        (s("a1"), Some(s("a"))),
        (s("other"), None),
    ]
}

fn deck(id: &str, parent: Option<&str>) -> Deck {
    Deck {
        id: s(id),
        name: s(id),
        parent_id: parent.map(s),
        description: s(""),
        new_per_day: 20,
        max_reviews: 200,
        created_at: 1,
        updated_at: 1,
    }
}

#[test]
fn a_new_deck_gets_the_defaults() {
    let input = CreateDeckInput { name: s("Spanish"), parent_id: Some(s("root")), description: None };
    let d = new_deck("id1", &input, 1234);
    assert_eq!(d.id, "id1");
    assert_eq!(d.name, "Spanish");
    assert_eq!(d.parent_id, Some(s("root")));
    assert_eq!(d.description, "");
    assert_eq!((d.new_per_day, d.max_reviews), (20, 200));
    assert_eq!((d.created_at, d.updated_at), (1234, 1234));
}

#[test]
fn an_update_changes_only_what_is_given() {
    let current = deck("a", Some("root"));
    let input = UpdateDeckInput {
        id: s("a"),
        name: Some(s("Renamed")),
        parent_id: Some(None),
        description: None,
        new_per_day: Some(5),
        max_reviews: None,
    };
    let d = apply_deck_update(&current, &input, 99);
    assert_eq!(d.name, "Renamed");
    assert_eq!(d.parent_id, None);
    assert_eq!(d.description, "");
    assert_eq!((d.new_per_day, d.max_reviews), (5, 200));
    assert_eq!((d.created_at, d.updated_at), (1, 99));
    let keep = UpdateDeckInput {
        id: s("a"),
        name: None,
        parent_id: None,
        description: Some(s("words")),
        new_per_day: None,
        max_reviews: Some(7),
    };
    let d = apply_deck_update(&current, &keep, 5);
    assert_eq!(d.name, "a");
    assert_eq!(d.parent_id, Some(s("root")));
    assert_eq!(d.description, "words");
    assert_eq!((d.new_per_day, d.max_reviews), (20, 7));
}

#[test]
fn counts_roll_up_to_every_ancestor() {
    let ids: Vec<String> = tree().into_iter().map(|(i, _)| i).collect();
    let direct = vec![(s("a"), (2, 1, 1)), (s("a1"), (3, 0, 3)), (s("b"), (1, 1, 0)), (s("other"), (4, 4, 0))];
    let r = rollup_deck_counts(&ids, &tree(), &direct);
    assert_eq!(r[0], (s("root"), (6, 2, 4)));
    assert_eq!(r[1], (s("a"), (5, 1, 4)));
    assert_eq!(r[2], (s("b"), (1, 1, 0)));
    assert_eq!(r[3], (s("a1"), (3, 0, 3)));
    assert_eq!(r[4], (s("other"), (4, 4, 0)));

    let decks = vec![deck("root", None), deck("a", Some("root")), deck("a1", Some("a"))];
    let w = decks_with_counts(&decks, &direct);
    assert_eq!(w.len(), 3);
    assert_eq!((w[0].total_cards, w[0].due_cards, w[0].new_cards), (5, 1, 4));
    assert_eq!(w[2].deck.id, "a1");
    assert_eq!((w[2].total_cards, w[2].due_cards, w[2].new_cards), (3, 0, 3));
}

#[test]
fn deepest_decks_are_deleted_first() {
    let by_depth = vec![(0, s("root")), (1, s("a")), (2, s("a1")), (1, s("b")), (2, s("b1"))];
    let order = deletion_order(&by_depth);
    assert_eq!(order, vec![(2, s("a1")), (2, s("b1")), (1, s("a")), (1, s("b")), (0, s("root"))]);
}

#[test]
fn subtree_membership() {
    let t = tree();
    assert!(is_ancestor_of("root", "a1", &t));
    assert!(is_ancestor_of("a", "a", &t));
    assert!(!is_ancestor_of("b", "a1", &t));
    assert!(!is_ancestor_of("a1", "root", &t));
    assert!(!is_ancestor_of("root", "missing", &t));
}

#[test]
fn moving_a_deck_checks_its_new_parent() {
    let t = tree();
    assert_eq!(validate_parent("a", None, &t), Ok(()));
    assert_eq!(validate_parent("a", Some("a"), &t), Err(s("A deck cannot be its own parent.")));
    assert_eq!(validate_parent("a", Some("nowhere"), &t), Err(s("Parent deck not found.")));
    assert_eq!(validate_parent("a", Some("a1"), &t), Err(s("Cannot move a deck under one of its subdecks.")));
    assert_eq!(validate_parent("a", Some("b"), &t), Ok(()));
}

fn move_deck(t: &mut Vec<(String, Option<String>)>, id: &str, parent: Option<&str>) -> bool {
    if validate_parent(id, parent, t).is_err() {
        return false;
    }
    for e in t.iter_mut() {
        if e.0 == id {
            e.1 = parent.map(|p| p.to_string());
        }
    }
    true
}

fn every_chain_ends(t: &Vec<(String, Option<String>)>) -> bool {
    t.iter().all(|(id, _)| {
        let mut x = id.clone();
        for _ in 0..=t.len() {
            match t.iter().rev().find(|e| e.0 == x).and_then(|e| e.1.clone()) {
                Some(p) => x = p,
                None => return true,
            }
        }
        false
    })
}

#[test]
fn accepted_moves_keep_the_decks_a_forest() {
    let mut t = tree();
    assert!(every_chain_ends(&t));
    assert!(move_deck(&mut t, "a", Some("b")));
    assert!(every_chain_ends(&t));
    assert!(!move_deck(&mut t, "b", Some("a1")));
    assert!(!move_deck(&mut t, "root", Some("a")));
    assert!(move_deck(&mut t, "b", None));
    assert!(move_deck(&mut t, "root", Some("a1")));
    assert!(every_chain_ends(&t));
    assert!(!move_deck(&mut t, "b", Some("root")));
    assert!(every_chain_ends(&t));
}

#[test]
fn counts_of_any_sign_roll_up() {
    let ids: Vec<String> = tree().into_iter().map(|(i, _)| i).collect();
    let direct = vec![(s("root"), (-1, 0, 0)), (s("a"), (2, -5, 1)), (s("a1"), (-3, 0, 3)), (s("b"), (1, 1, 0))];
    let r = rollup_deck_counts(&ids, &tree(), &direct);
    assert_eq!(r[0], (s("root"), (-1, -4, 4)));
    assert_eq!(r[1], (s("a"), (-1, -5, 4)));
    assert_eq!(r[3], (s("a1"), (-3, 0, 3)));
}
