use samsmrti::search_query::{search_query, SqlParam, SEARCH_FTS_JOIN, SEARCH_SELECT};

fn s(x: &str) -> String {
    x.to_string()
}

#[test]
fn nothing_to_search_finds_nothing() {
    assert!(search_query("   ", None, None, None, None, None).is_none());
    assert!(search_query("", None, None, None, Some(5), Some(5)).is_none());
}

#[test]
fn text_scope_and_tag_are_numbered_in_order() {
    let scope = vec![s("a"), s("b")];
    let q = search_query(" cats ", Some(&scope), Some("geo"), None, None, Some(10)).unwrap();
    let want = format!(
        "{}{}WHERE notes_fts MATCH ?1 AND n.deck_id IN (?2, ?3) AND EXISTS (SELECT 1 FROM note_tags nt2 JOIN tags t ON t.id = nt2.tag_id WHERE nt2.note_id = n.id AND t.name = ?4) ORDER BY n.created_at DESC LIMIT ?5 OFFSET ?6",
        SEARCH_SELECT, SEARCH_FTS_JOIN
    );
    assert_eq!(q.sql, want);
    assert_eq!(
        q.params,
        vec![
            SqlParam::Text(s("\"cats\"")),
            SqlParam::Text(s("a")),
            SqlParam::Text(s("b")),
            SqlParam::Text(s("geo")),
            SqlParam::Int(50),
            SqlParam::Int(10),
        ]
    );
}

#[test]
fn quotes_in_the_text_are_doubled() {
    let q = search_query("say \"hi\"", None, None, None, Some(5), None).unwrap();
    assert_eq!(q.params, vec![SqlParam::Text(s("\"say \"\"hi\"\"\"")), SqlParam::Int(5), SqlParam::Int(0)]);
    assert!(q.sql.ends_with("WHERE notes_fts MATCH ?1 ORDER BY n.created_at DESC LIMIT ?2 OFFSET ?3"));
}

#[test]
fn a_deck_with_an_empty_scope_adds_no_condition() {
    let empty: Vec<String> = vec![];
    let q = search_query("", Some(&empty), None, Some("nt_basic"), None, None).unwrap();
    assert_eq!(
        q.sql,
        format!("{}WHERE n.note_type_id = ?1 ORDER BY n.created_at DESC LIMIT ?2 OFFSET ?3", SEARCH_SELECT)
    );
    assert_eq!(q.params, vec![SqlParam::Text(s("nt_basic")), SqlParam::Int(50), SqlParam::Int(0)]);
    let q = search_query("", Some(&empty), None, None, None, None).unwrap();
    assert_eq!(q.sql, format!("{} ORDER BY n.created_at DESC LIMIT ?1 OFFSET ?2", SEARCH_SELECT));
}
