use samsmrti::backup::{backup_entry, check_backup, content_bytes, gzip_export, BackupEntry};
use samsmrti::content::{
    check_format, check_undo_snapshot, filter_content_payload, list_decks_from_payload, record_insert,
    resolve_deck_scope_from_payload, resolve_export_scope, scoped_card_ids_from_content, sort_decks_parent_first,
    ContentImportSummary,
    ContentTables, Row,
};

fn row(fields: &[(&str, Option<&str>)]) -> Row {
    fields.iter().map(|(k, v)| (k.to_string(), v.map(|s| s.to_string()))).collect()
}

fn deck(id: &str, name: Option<&str>, parent: Option<&str>) -> Row {
    row(&[("id", Some(id)), ("name", name), ("parent_id", parent)])
}

fn strings(v: &[&str]) -> Vec<String> {
    v.iter().map(|s| s.to_string()).collect()
}

fn sorted(mut v: Vec<String>) -> Vec<String> {
    v.sort();
    v.dedup();
    v
}

#[test]
fn format_check_messages() {
    assert_eq!(check_format(Some("samsmrti-content-v1")), Ok(()));
    assert_eq!(check_format(Some("samsmrti-backup-v1")), Ok(()));
    assert_eq!(check_format(None), Err("Missing format field".to_string()));
    assert_eq!(check_format(Some("x")), Err("Unsupported export format: x".to_string()));
}

#[test]
fn listing_decks_rolls_notes_up_and_sorts_by_name() {
    let decks = vec![
        deck("dk_parent", Some("Parent"), None),
        deck("dk_child", Some("Child"), Some("dk_parent")),
        deck("dk_other", None, None),
    ];
    let notes = vec![
        row(&[("id", Some("n1")), ("deck_id", Some("dk_child"))]),
        row(&[("id", Some("n2")), ("deck_id", Some("dk_child"))]),
        row(&[("id", Some("n3")), ("deck_id", Some("dk_parent"))]),
    ];
    let out = list_decks_from_payload(Some("samsmrti-content-v1"), Some(&decks), Some(&notes)).unwrap();
    let names: Vec<&str> = out.iter().map(|p| p.name.as_str()).collect();
    assert_eq!(names, vec!["(unnamed)", "Child", "Parent"]);
    let parent = out.iter().find(|p| p.id == "dk_parent").unwrap();
    assert_eq!(parent.note_count, 3);
    let child = out.iter().find(|p| p.id == "dk_child").unwrap();
    assert_eq!(child.note_count, 2);
    assert_eq!(child.parent_id, Some("dk_parent".to_string()));
    let other = out.iter().find(|p| p.id == "dk_other").unwrap();
    assert_eq!(other.note_count, 0);
}

#[test]
fn listing_decks_errors() {
    let decks = vec![deck("a", Some("A"), None)];
    assert_eq!(list_decks_from_payload(None, Some(&decks), None).err(), Some("Missing format field".to_string()));
    assert_eq!(
        list_decks_from_payload(Some("nope"), Some(&decks), None).err(),
        Some("Unsupported export format: nope".to_string())
    );
    assert_eq!(
        list_decks_from_payload(Some("samsmrti-backup-v1"), None, None).err(),
        Some("Missing decks array".to_string())
    );
    let bad = vec![deck("a", Some("A"), None), row(&[("name", Some("no id"))])];
    assert_eq!(
        list_decks_from_payload(Some("samsmrti-backup-v1"), Some(&bad), None).err(),
        Some("Deck missing id".to_string())
    );
}

#[test]
fn equal_names_keep_their_order() {
    let decks = vec![deck("z1", Some("Same"), None), deck("a1", Some("Same"), None), deck("m", Some("A"), None)];
    let out = list_decks_from_payload(Some("samsmrti-content-v1"), Some(&decks), None).unwrap();
    let ids: Vec<&str> = out.iter().map(|p| p.id.as_str()).collect();
    assert_eq!(ids, vec!["m", "z1", "a1"]);
}

#[test]
fn scope_of_a_selection() {
    let decks = vec![
        deck("root", Some("Root"), None),
        deck("mid", Some("Mid"), Some("root")),
        deck("leaf", Some("Leaf"), Some("mid")),
        deck("other", Some("Other"), None),
    ];
    let scope = resolve_deck_scope_from_payload(Some(&decks), Some(&strings(&["mid"]))).unwrap();
    assert_eq!(sorted(scope), strings(&["leaf", "mid", "root"]));
    assert_eq!(resolve_deck_scope_from_payload(Some(&decks), Some(&vec![])), None);
    assert_eq!(resolve_deck_scope_from_payload(Some(&decks), None), None);
    assert_eq!(resolve_deck_scope_from_payload(None, Some(&strings(&["mid"]))), None);
    let unknown = resolve_deck_scope_from_payload(Some(&decks), Some(&strings(&["ghost"]))).unwrap();
    assert_eq!(sorted(unknown), strings(&["ghost"]));
}

#[test]
fn filtering_a_payload_to_a_scope() {
    let t = ContentTables {
        decks: vec![deck("d1", Some("One"), None), deck("d2", Some("Two"), None)],
        note_types: vec![row(&[("id", Some("nt1"))]), row(&[("id", Some("nt2"))])],
        fields: vec![row(&[("note_type_id", Some("nt1"))]), row(&[("note_type_id", Some("nt2"))])],
        card_templates: vec![row(&[("note_type_id", Some("nt2"))])],
        notes: vec![
            row(&[("id", Some("n1")), ("deck_id", Some("d1")), ("note_type_id", Some("nt1"))]),
            row(&[("id", Some("n2")), ("deck_id", Some("d2")), ("note_type_id", Some("nt2"))]),
        ],
        cards: vec![row(&[("id", Some("c1")), ("note_id", Some("n1"))]), row(&[("id", Some("c2")), ("note_id", Some("n2"))])],
        tags: vec![row(&[("id", Some("t1"))]), row(&[("id", Some("t2"))])],
        note_tags: vec![row(&[("note_id", Some("n1")), ("tag_id", Some("t1"))])],
        note_links: vec![
            row(&[("source_note_id", Some("n1")), ("target_note_id", Some("n1"))]),
            row(&[("source_note_id", Some("n1")), ("target_note_id", Some("n2"))]),
        ],
        entities: vec![row(&[("id", Some("e1"))]), row(&[("id", Some("e2"))]), row(&[("id", Some("e3"))])],
        relation_types: vec![row(&[("id", Some("r1"))])],
        triples: vec![
            row(&[("id", Some("tr1")), ("subject_id", Some("e1")), ("object_id", Some("e2")), ("relation_type_id", Some("r1"))]),
            row(&[("id", Some("tr2")), ("subject_id", Some("e3")), ("object_id", Some("e3")), ("relation_type_id", Some("r1"))]),
        ],
        card_triples: vec![row(&[("card_id", Some("c1")), ("triple_id", Some("tr1"))])],
        entity_tags: vec![row(&[("entity_id", Some("e2"))]), row(&[("entity_id", Some("e3"))])],
        relation_type_tags: vec![row(&[("relation_type_id", Some("r1"))])],
    };
    let s = filter_content_payload(&t, &strings(&["d1"]));
    assert_eq!(s.decks, vec![0]);
    assert_eq!(s.notes, vec![0]);
    assert_eq!(s.note_types, vec![0]);
    assert_eq!(s.fields, vec![0]);
    assert!(s.card_templates.is_empty());
    assert_eq!(s.cards, vec![0]);
    assert_eq!(s.tags, vec![0]);
    assert_eq!(s.note_tags, vec![0]);
    assert_eq!(s.note_links, vec![0]);
    assert_eq!(s.card_triples, vec![0]);
    assert_eq!(s.triples, vec![0]);
    assert_eq!(s.entities, vec![0, 1]);
    assert_eq!(s.relation_types, vec![0]);
    assert_eq!(s.entity_tags, vec![0]);
    assert_eq!(s.relation_type_tags, vec![0]);
}

#[test]
fn decks_go_in_parent_first() {
    let decks = vec![
        deck("leaf", Some("Leaf"), Some("mid")),
        deck("mid", Some("Mid"), Some("root")),
        deck("root", Some("Root"), Some("")),
        deck("orphan", Some("Orphan"), Some("missing")),
    ];
    assert_eq!(sort_decks_parent_first(&decks), vec![2, 1, 0, 3]);
    let order = sort_decks_parent_first(&decks);
    let mut seen = order.clone();
    seen.sort();
    assert_eq!(seen, vec![0, 1, 2, 3]);
}

#[test]
fn insert_outcomes_are_booked() {
    let mut s = ContentImportSummary::new();
    assert!(record_insert(&mut s, "notes", Ok(1)));
    assert!(!record_insert(&mut s, "notes", Ok(0)));
    assert!(!record_insert(&mut s, "tags", Err("UNIQUE constraint failed".to_string())));
    assert_eq!(s.rows_skipped, 1);
    assert_eq!(s.warnings, vec!["tags: UNIQUE constraint failed".to_string()]);
}

#[test]
fn undo_snapshot_checks() {
    assert_eq!(check_undo_snapshot(Some("samsmrti-deck-undo-v1"), true), Ok(()));
    assert_eq!(check_undo_snapshot(None, true), Err("Missing format field".to_string()));
    assert_eq!(
        check_undo_snapshot(Some("samsmrti-content-v1"), true),
        Err("Unsupported deck undo format: samsmrti-content-v1".to_string())
    );
    assert_eq!(
        check_undo_snapshot(Some("samsmrti-deck-undo-v1"), false),
        Err("Missing content in deck undo snapshot".to_string())
    );
    let cards = vec![row(&[("id", Some("c1"))]), row(&[("id", None)]), row(&[("id", Some("c3"))])];
    assert_eq!(scoped_card_ids_from_content(Some(&cards)), strings(&["c1", "c3"]));
    assert!(scoped_card_ids_from_content(None).is_empty());
}

#[test]
fn full_backup_entries_and_checks() {
    assert!(backup_entry("media/") == BackupEntry::Directory);
    assert!(backup_entry("format.json") == BackupEntry::FormatRecord);
    assert!(backup_entry("samsmrti.db") == BackupEntry::Database);
    assert!(backup_entry("x/samsmrti.db") == BackupEntry::Database);
    assert!(backup_entry("media/a.png") == BackupEntry::Other);
    assert_eq!(check_backup(None, true), Err("Backup missing format.json".to_string()));
    assert_eq!(check_backup(Some("v0"), true), Err("Unsupported backup format: v0".to_string()));
    assert_eq!(check_backup(Some("samsmrti-full-v1"), false), Err("Backup missing samsmrti.db".to_string()));
    assert_eq!(check_backup(Some("samsmrti-full-v1"), true), Ok(()));
}

#[test]
fn gzip_exports_read_back() {
    let json = br#"{"format":"samsmrti-backup-v1"}"#.to_vec();
    let (gz, summary) = gzip_export("/tmp/x.json.gz", &json, 1, 2, 3, 4, 5);
    assert_eq!(&gz[..2], &[0x1f, 0x8b]);
    assert_eq!(summary.bytes_written, gz.len());
    assert_eq!(summary.notes, 2);
    assert_eq!(content_bytes(Some("gz"), gz.clone()), Ok(json.clone()));
    assert_eq!(content_bytes(Some("GZ"), gz.clone()), Ok(json.clone()));
    assert_eq!(content_bytes(None, gz.clone()), Ok(json.clone()));
    assert_eq!(content_bytes(Some("json"), json.clone()), Ok(json.clone()));
    assert!(content_bytes(Some("gz"), b"not gzip".to_vec()).is_err());
}

#[test]
fn every_deck_follows_its_parent() {
    let decks = vec![
        deck("c", Some("C"), Some("b")),
        deck("b", Some("B"), Some("a")),
        deck("x", Some("X"), Some("y")),
        deck("a", Some("A"), None),
        deck("y", Some("Y"), Some("x")),
    ];
    let order = sort_decks_parent_first(&decks);
    let ids: Vec<&str> = order.iter().map(|&i| ["c", "b", "x", "a", "y"][i]).collect();
    let pos = |id: &str| ids.iter().position(|d| *d == id).unwrap();
    assert!(pos("a") < pos("b") && pos("b") < pos("c"));
    assert_eq!(ids.len(), 5);
}

#[test]
fn export_scope_takes_subtrees_and_parents_of_existing_decks() {
    let decks = vec![
        deck("root", Some("Root"), None),
        deck("mid", Some("Mid"), Some("root")),
        deck("leaf", Some("Leaf"), Some("mid")),
        deck("other", Some("Other"), Some("")),
    ];
    let scope = resolve_export_scope(&decks, Some(&strings(&["mid"]))).unwrap().unwrap();
    assert_eq!(sorted(scope), strings(&["leaf", "mid", "root"]));
    let ghost = resolve_export_scope(&decks, Some(&strings(&["ghost", "other"]))).unwrap().unwrap();
    assert_eq!(sorted(ghost), strings(&["other"]));
    assert_eq!(resolve_export_scope(&decks, Some(&vec![])), Ok(None));
    assert_eq!(resolve_export_scope(&decks, None), Ok(None));
}

#[test]
fn export_scope_stops_at_a_cycle_and_refuses_a_missing_parent() {
    let cycle = vec![deck("a", None, Some("b")), deck("b", None, Some("a")), deck("c", None, Some("a"))];
    let scope = resolve_export_scope(&cycle, Some(&strings(&["c"]))).unwrap().unwrap();
    assert_eq!(sorted(scope), strings(&["a", "b", "c"]));
    let dangling = vec![deck("x", None, Some("gone"))];
    assert_eq!(resolve_export_scope(&dangling, Some(&strings(&["x"]))), Err("Query returned no rows".to_string()));
}
