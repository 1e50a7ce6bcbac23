use samsmrti::countries::{
    base_template_ordinal, card_links, country_links, country_relation_types, field_str, item_index,
    normalize_entity_type, parse_country_fields, split_csv,
};
use samsmrti::graph::{
    build_mindmap, card_status, entity_type_of, normalize_type, suggest_cards, IncomingTriple, OutgoingTriple, TripleRow,
};

fn s(x: &str) -> String {
    x.to_string()
}

#[test]
fn entity_types_are_capitalized() {
    assert_eq!(normalize_type("  country "), "Country");
    assert_eq!(normalize_type("RIVER"), "River");
    assert_eq!(normalize_type("   "), "");
    assert_eq!(normalize_type("éTAT"), "État");
    assert_eq!(entity_type_of(Some("city")), Some(s("City")));
    assert_eq!(entity_type_of(Some("  ")), None);
    assert_eq!(entity_type_of(None), None);
    assert_eq!(normalize_entity_type("language"), "Language");
}

#[test]
fn card_status_of_a_triple() {
    assert_eq!(card_status(Some((2, 1))), "due");
    assert_eq!(card_status(Some((2, 0))), "reviewed");
    assert_eq!(card_status(Some((0, 0))), "none");
    assert_eq!(card_status(None), "none");
}

fn out(rt: &str, rname: &str, obj: &str, oname: &str, status: &str) -> OutgoingTriple {
    OutgoingTriple {
        relation_type_id: s(rt),
        relation_name: s(rname),
        object_id: s(obj),
        object_name: s(oname),
        object_type: Some(s("City")),
        triple_id: format!("t_{obj}"),
        card_status: s(status),
    }
}

#[test]
fn mind_map_of_an_entity() {
    let outs = vec![
        out("rt_cap", "Capital", "e_delhi", "Delhi", "due"),
        out("rt_riv", "Has-River", "e_ganges", "Ganges", "none"),
        out("rt_riv", "Has-River", "e_yamuna", "Yamuna", "reviewed"),
    ];
    let ins = vec![IncomingTriple {
        relation_type_id: s("rt_bord"),
        relation_name: s("Borders"),
        inverse_name: None,
        subject_id: s("e_nepal"),
        subject_name: s("Nepal"),
        subject_type: None,
        triple_id: s("t_n"),
        card_status: s("none"),
    }];
    let m = build_mindmap(&s("e_india"), &s("India"), &Some(s("Country")), &outs, &ins);
    let ids: Vec<&str> = m.nodes.iter().map(|n| n.id.as_str()).collect();
    assert_eq!(
        ids,
        vec!["e_india", "rel_out_rt_cap", "e_delhi", "rel_out_rt_riv", "e_ganges", "e_yamuna", "rel_in_rt_bord", "e_nepal"]
    );
    assert_eq!(m.nodes[0].node_type, "root");
    assert_eq!(m.nodes[3].triple_count, 2);
    assert_eq!(m.nodes[2].card_status, "due");
    assert_eq!(m.nodes[6].label, "(inv) Borders");
    let edges: Vec<(&str, &str)> = m.edges.iter().map(|e| (e.source.as_str(), e.target.as_str())).collect();
    assert_eq!(
        edges,
        vec![
            ("e_india", "rel_out_rt_cap"),
            ("rel_out_rt_cap", "e_delhi"),
            ("e_india", "rel_out_rt_riv"),
            ("rel_out_rt_riv", "e_ganges"),
            ("rel_out_rt_riv", "e_yamuna"),
            ("e_india", "rel_in_rt_bord"),
            ("rel_in_rt_bord", "e_nepal"),
        ]
    );
}

fn trow(id: &str, subj: &str, rt: &str, obj: &str, sname: &str, rname: &str, inv: Option<&str>, oname: &str) -> TripleRow {
    TripleRow {
        triple_id: s(id),
        subject_id: s(subj),
        relation_type_id: s(rt),
        object_id: s(obj),
        subject_name: s(sname),
        relation_name: s(rname),
        inverse_name: inv.map(s),
        object_name: s(oname),
    }
}

#[test]
fn suggestions_group_rivers() {
    let rows = vec![
        trow("t1", "e1", "rt_riv", "e2", "India", "Has-River", Some("Flows-Through"), "Ganges"),
        trow("t2", "e1", "rt_riv", "e3", "India", "Has-River", Some("Flows-Through"), "Yamuna"),
        trow("t3", "e4", "rt_cap", "e5", "Japan", "Capital", None, "Tokyo"),
    ];
    let sug = suggest_cards(&rows);
    assert_eq!(sug.len(), 4);
    assert_eq!(sug[0].front, "What Has-River does India have?");
    assert_eq!(sug[0].back, "Ganges, Yamuna");
    assert_eq!(sug[0].triple_ids, vec![s("t1"), s("t2")]);
    assert_eq!(sug[0].suggestion_type, "forward");
    assert_eq!(sug[1].front, "What Capital does Japan have?");
    assert_eq!(sug[2].front, "Ganges Flows-Through which?");
    assert_eq!(sug[2].back, "India");
    assert_eq!(sug[2].suggestion_type, "reverse");
    assert_eq!(sug[3].front, "Yamuna Flows-Through which?");
}

fn fields(entries: &[(&str, &str)]) -> Vec<(String, Option<String>)> {
    entries.iter().map(|(k, v)| (s(k), Some(s(v)))).collect()
}

#[test]
fn country_note_triples_and_card_links() {
    let f = fields(&[
        ("Country", "France"),
        ("Capital", "Paris"),
        ("Rivers", "Seine, Loire"),
        ("Languages", "French"),
        ("Continent", "Europe"),
        ("Mountains", "Mont Blanc"),
        ("Cities", "Lyon"),
        ("Universities", "Sorbonne University"),
        ("Currency", "Euro (EUR)"),
        ("Flag", ""),
    ]);
    let c = parse_country_fields(&f).unwrap();
    assert_eq!(c.country, "France");
    assert_eq!(c.rivers, vec![s("Seine"), s("Loire")]);
    let links = country_links(&c);
    let summary: Vec<(&str, &str, &str)> =
        links.iter().map(|l| (l.object_name.as_str(), l.object_type.as_str(), l.relation_type_id.as_str())).collect();
    assert_eq!(
        summary,
        vec![
            ("Paris", "City", "rt_ctry_capital"),
            ("Seine", "River", "rt_ctry_river"),
            ("Loire", "River", "rt_ctry_river"),
            ("French", "Language", "rt_ctry_language"),
            ("Mont Blanc", "Mountain", "rt_ctry_mountain"),
            ("Lyon", "City", "rt_ctry_city"),
            ("Sorbonne University", "University", "rt_ctry_university"),
            ("Euro (EUR)", "Currency", "rt_ctry_currency"),
            ("Europe", "Continent", "rt_ctry_continent"),
        ]
    );
    assert_eq!(links[2].slots, vec![(1i64, 1usize)]);
    assert_eq!(links[8].slots, vec![(8i64, 0usize), (7, 0)]);
    // triples recorded per slot, then the note's cards linked
    let mut slots: Vec<((i64, usize), String)> = Vec::new();
    for (i, l) in links.iter().enumerate() {
        for slot in &l.slots {
            slots.push((*slot, format!("trp{i}")));
        }
    }
    let cards = vec![(s("c_cap"), 0i64), (s("c_riv1"), 1001), (s("c_flag"), 7), (s("c_none"), 9)];
    assert_eq!(
        card_links(&slots, &cards),
        vec![(s("c_cap"), s("trp0")), (s("c_riv1"), s("trp2")), (s("c_flag"), s("trp8"))]
    );
    assert_eq!(country_relation_types().len(), 8);
    assert!(parse_country_fields(&fields(&[("Country", "  ")])).is_none());
}

#[test]
fn card_ordinal_slots() {
    assert_eq!(base_template_ordinal(3), 3);
    assert_eq!(base_template_ordinal(2005), 2);
    assert_eq!(item_index(2005), 5);
    assert_eq!(item_index(7), 0);
    assert_eq!(split_csv(" a, ,b ,, c"), vec![s("a"), s("b"), s("c")]);
    assert!(split_csv("").is_empty());
    let f = vec![(s("Capital"), None), (s("Name"), Some(s("  x  ")))];
    assert_eq!(field_str(&f, "Capital"), "");
    assert_eq!(field_str(&f, "Name"), "x");
    assert_eq!(field_str(&f, "Missing"), "");
}
