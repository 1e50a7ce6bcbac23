use samsmrti::backup::gzip_export;
use samsmrti::content_file::{preview_content_import, preview_content_import_checked};

const FILE: &str = r#"{"format": "samsmrti-content-v1",
  "decks": [
    {"id": "d2", "name": "Zoology", "parent_id": null},
    {"id": "d1", "name": "Biology", "parent_id": null},
    {"id": "d3", "name": "Cells", "parent_id": "d1"}
  ],
  "notes": [{"id": "n1", "deck_id": "d3"}, {"id": "n2", "deck_id": "d1"}, {"id": "n3", "deck_id": "d2"}]}"#;

#[test]
fn preview_lists_decks_by_name_with_subdeck_notes() {
    let list = preview_content_import(Some("json"), FILE.as_bytes().to_vec()).unwrap();
    let got: Vec<(String, String, Option<String>, usize)> =
        list.into_iter().map(|p| (p.id, p.name, p.parent_id, p.note_count)).collect();
    assert_eq!(
        got,
        vec![
            ("d1".to_string(), "Biology".to_string(), None, 2),
            ("d3".to_string(), "Cells".to_string(), Some("d1".to_string()), 1),
            ("d2".to_string(), "Zoology".to_string(), None, 1),
        ]
    );
}

#[test]
fn preview_reads_gzip_files() {
    let (gz, _) = gzip_export("x.json.gz", &FILE.as_bytes().to_vec(), 0, 0, 0, 0, 0);
    let plain = preview_content_import(None, FILE.as_bytes().to_vec()).unwrap();
    let packed = preview_content_import_checked(Some("gz"), gz).unwrap().unwrap();
    assert_eq!(packed.len(), plain.len());
    assert_eq!(packed[0].note_count, 2);
}

#[test]
fn preview_errors() {
    assert!(preview_content_import(Some("json"), b"not json".to_vec()).is_err());
    assert_eq!(
        preview_content_import(Some("json"), br#"{"decks": []}"#.to_vec()).err(),
        Some("Missing format field".to_string())
    );
    assert_eq!(
        preview_content_import(Some("json"), br#"{"format": "samsmrti-content-v1"}"#.to_vec()).err(),
        Some("Missing decks array".to_string())
    );
    assert_eq!(
        preview_content_import(Some("json"), br#"{"format": "samsmrti-content-v1", "decks": [{"name": "x"}]}"#.to_vec()).err(),
        Some("Deck missing id".to_string())
    );
}
