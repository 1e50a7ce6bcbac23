use samsmrti::content_data::{filter_payload, read_content_data, read_format_record, ContentData, DataEntry};
use serde_json::Value;

fn value_of(d: ContentData) -> Value {
    match d {
        ContentData::Object(es) => Value::Object(
            es.into_iter()
                .map(|(k, e)| {
                    let v = match e {
                        DataEntry::Rows(r) => Value::Array(r.into_iter().map(|x| x.raw).collect()),
                        DataEntry::Text(s) => Value::String(s),
                        DataEntry::Other(v) => v,
                    };
                    (k, v)
                })
                .collect(),
        ),
        ContentData::Other(v) => v,
    }
}

fn j(s: &str) -> Value {
    serde_json::from_str(s).unwrap()
}

const PAYLOAD: &str = r#"{"format":"f","exported_at":17,"excludes":["review_log"],
  "decks":[{"id":"d1"},{"id":"d2"}],
  "notes":[{"id":"n1","deck_id":"d1"},{"id":"n2","deck_id":"d2"}],
  "note_links":[{"source_note_id":"n1","target_note_id":"n2"},{"source_note_id":"n1","target_note_id":"n1"}]}"#;

#[test]
fn filtering_keeps_other_entries_and_the_rows_of_the_decks() {
    let data = read_content_data(Some("json"), PAYLOAD.as_bytes().to_vec()).unwrap();
    let r = value_of(filter_payload(data, &vec!["d1".to_string()]));
    assert_eq!(r["format"], j(r#""f""#));
    assert_eq!(r["exported_at"], j("17"));
    assert_eq!(r["excludes"], j(r#"["review_log"]"#));
    assert_eq!(r["decks"], j(r#"[{"id":"d1"}]"#));
    assert_eq!(r["notes"], j(r#"[{"id":"n1","deck_id":"d1"}]"#));
    assert_eq!(r["note_links"], j(r#"[{"source_note_id":"n1","target_note_id":"n1"}]"#));
    assert_eq!(r["cards"], j("[]"));
    assert_eq!(r["relation_type_tags"], j("[]"));
}

#[test]
fn filtering_twice_gives_what_filtering_once_gave() {
    let scope = vec!["d1".to_string()];
    let once = filter_payload(read_content_data(None, PAYLOAD.as_bytes().to_vec()).unwrap(), &scope);
    let once_v = value_of(once);
    let again = filter_payload(read_content_data(None, once_v.to_string().into_bytes()).unwrap(), &scope);
    assert_eq!(value_of(again), once_v);
}

#[test]
fn a_payload_that_is_not_an_object_is_left_as_it_is() {
    let data = read_content_data(None, b"[1, 2]".to_vec()).unwrap();
    assert_eq!(value_of(filter_payload(data, &vec![])), j("[1, 2]"));
    assert!(read_content_data(None, b"{oops".to_vec()).is_err());
}

#[test]
fn format_records_name_their_format() {
    assert_eq!(read_format_record(br#"{"format":"samsmrti-full-v1","x":1}"#), Ok(Some("samsmrti-full-v1".to_string())));
    assert_eq!(read_format_record(br#"{"format":3}"#), Ok(None));
    assert_eq!(read_format_record(b"[]"), Ok(None));
    assert!(read_format_record(b"not json").is_err());
}
