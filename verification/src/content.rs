//! Content export and import: which rows of a content payload belong to a
//! chosen set of decks, the decks listed in a payload, and the order in
//! which decks are inserted.
//!
//! A payload row is seen through its entries, each with its text when the
//! value is a string; other values are not read by this logic.
use vstd::prelude::*;
use crate::deck_tree::{note_counts_view, parent_lookup, parents_view, rollup, rollup_note_counts, str_view, Counts};
use crate::json::{fields_view, json_text, json_text_exec, FieldsView, JsonFields};
use crate::text::{chars_of, owned, push_str, string_of, text_less, text_lt};

verus! {

/// A row of a payload table: a JSON object's entries (see `json`).
pub type Row = JsonFields;

pub type RowView = FieldsView;

pub open spec fn row_view(r: Row) -> RowView {
    fields_view(r@)
}

pub open spec fn rows_view(rows: Seq<Row>) -> Seq<RowView> {
    rows.map_values(|r: Row| row_view(r))
}

pub open spec fn strs(v: Seq<String>) -> Seq<Seq<char>> {
    v.map_values(|s: String| s@)
}

pub open spec fn idx_view(v: Seq<usize>) -> Seq<int> {
    v.map_values(|i: usize| i as int)
}

/// The string value of field `name` in a row (`row.get(name)?.as_str()`).
pub open spec fn field(row: RowView, name: Seq<char>) -> Option<Seq<char>> {
    json_text(row, name)
}

/// Whether field `name` of the row holds one of the `pool` values.
pub open spec fn field_in(row: RowView, name: Seq<char>, pool: Seq<Seq<char>>) -> bool {
    match field(row, name) {
        Some(v) => pool.contains(v),
        None => false,
    }
}

/// Positions of the rows whose field `name` holds one of the `pool` values.
pub open spec fn selected(rows: Seq<RowView>, name: Seq<char>, pool: Seq<Seq<char>>) -> Seq<int>
    decreases rows.len(),
{
    if rows.len() == 0 {
        Seq::empty()
    } else {
        let rest = selected(rows.drop_last(), name, pool);
        if field_in(rows.last(), name, pool) {
            rest.push(rows.len() - 1)
        } else {
            rest
        }
    }
}

/// The values of field `name` in the rows at positions `idx`, in order
/// (rows without that field add nothing).
pub open spec fn pool_of(rows: Seq<RowView>, idx: Seq<int>, name: Seq<char>) -> Seq<Seq<char>>
    decreases idx.len(),
{
    if idx.len() == 0 {
        Seq::empty()
    } else {
        let rest = pool_of(rows, idx.drop_last(), name);
        match field(rows[idx.last()], name) {
            Some(v) => rest.push(v),
            None => rest,
        }
    }
}

fn field_exec(row: &Row, name: &str) -> (r: Option<String>)
    ensures
        match r {
            Some(v) => field(row_view(*row), name@) == Some(v@),
            None => field(row_view(*row), name@) is None,
        },
{
    json_text_exec(row, name)
}

fn pool_contains(pool: &Vec<String>, v: &String) -> (b: bool)
    ensures
        b == strs(pool@).contains(v@),
{
    let mut k: usize = 0;
    while k < pool.len()
        invariant
            k <= pool.len(),
            forall|j: int| 0 <= j < k ==> strs(pool@)[j] != v@,
        decreases pool.len() - k,
    {
        if pool[k] == *v {
            assert(strs(pool@)[k as int] == v@);
            return true;
        }
        k += 1;
    }
    assert(!strs(pool@).contains(v@)) by {
        if strs(pool@).contains(v@) {
            let j = choose|j: int| 0 <= j < strs(pool@).len() && strs(pool@)[j] == v@;
            assert(strs(pool@)[j] != v@);
        }
    }
    false
}

fn field_in_exec(row: &Row, name: &str, pool: &Vec<String>) -> (b: bool)
    ensures
        b == field_in(row_view(*row), name@, strs(pool@)),
{
    match field_exec(row, name) {
        Some(v) => pool_contains(pool, &v),
        None => false,
    }
}

/// Positions of the rows whose field `name` holds one of the `pool` values.
pub fn select_rows(rows: &Vec<Row>, name: &str, pool: &Vec<String>) -> (r: Vec<usize>)
    ensures
        idx_view(r@) == selected(rows_view(rows@), name@, strs(pool@)),
        forall|k: int| 0 <= k < r@.len() ==> #[trigger] r@[k] < rows@.len(),
{
    let ghost rv = rows_view(rows@);
    let mut out: Vec<usize> = Vec::new();
    let mut i: usize = 0;
    while i < rows.len()
        invariant
            i <= rows.len(),
            rv == rows_view(rows@),
            idx_view(out@) == selected(rv.take(i as int), name@, strs(pool@)),
            forall|k: int| 0 <= k < out@.len() ==> #[trigger] out@[k] < i,
        decreases rows.len() - i,
    {
        proof {
            assert(rv.take(i + 1).drop_last() =~= rv.take(i as int));
            assert(rv.take(i + 1).last() == row_view(rows@[i as int]));
        }
        if field_in_exec(&rows[i], name, pool) {
            let ghost before = idx_view(out@);
            out.push(i);
            assert(idx_view(out@) =~= before.push(i as int));
        }
        i += 1;
    }
    assert(rv.take(rows.len() as int) =~= rv);
    out
}

/// The values of field `name` in the rows at positions `idx`.
pub fn pool_values(rows: &Vec<Row>, idx: &Vec<usize>, name: &str) -> (r: Vec<String>)
    requires
        forall|k: int| 0 <= k < idx@.len() ==> #[trigger] idx@[k] < rows@.len(),
    ensures
        strs(r@) == pool_of(rows_view(rows@), idx_view(idx@), name@),
{
    let ghost rv = rows_view(rows@);
    let ghost iv = idx_view(idx@);
    let mut out: Vec<String> = Vec::new();
    let mut k: usize = 0;
    while k < idx.len()
        invariant
            k <= idx.len(),
            rv == rows_view(rows@),
            iv == idx_view(idx@),
            forall|j: int| 0 <= j < idx@.len() ==> #[trigger] idx@[j] < rows@.len(),
            strs(out@) == pool_of(rv, iv.take(k as int), name@),
        decreases idx.len() - k,
    {
        proof {
            assert(iv.take(k + 1).drop_last() =~= iv.take(k as int));
            assert(iv.take(k + 1).last() == idx@[k as int] as int);
            assert(rv[idx@[k as int] as int] == row_view(rows@[idx@[k as int] as int]));
        }
        match field_exec(&rows[idx[k]], name) {
            Some(v) => {
                let ghost before = strs(out@);
                out.push(v);
                assert(strs(out@) =~= before.push(out@.last()@));
            },
            None => {},
        }
        k += 1;
    }
    assert(iv.take(idx.len() as int) =~= iv);
    out
}


/// Positions of the rows whose fields `n1` and `n2` both hold pool values.
pub open spec fn selected_both(rows: Seq<RowView>, n1: Seq<char>, n2: Seq<char>, pool: Seq<Seq<char>>) -> Seq<int>
    decreases rows.len(),
{
    if rows.len() == 0 {
        Seq::empty()
    } else {
        let rest = selected_both(rows.drop_last(), n1, n2, pool);
        if field_in(rows.last(), n1, pool) && field_in(rows.last(), n2, pool) {
            rest.push(rows.len() - 1)
        } else {
            rest
        }
    }
}

pub fn select_rows_both(rows: &Vec<Row>, n1: &str, n2: &str, pool: &Vec<String>) -> (r: Vec<usize>)
    ensures
        idx_view(r@) == selected_both(rows_view(rows@), n1@, n2@, strs(pool@)),
{
    let ghost rv = rows_view(rows@);
    let mut out: Vec<usize> = Vec::new();
    let mut i: usize = 0;
    while i < rows.len()
        invariant
            i <= rows.len(),
            rv == rows_view(rows@),
            idx_view(out@) == selected_both(rv.take(i as int), n1@, n2@, strs(pool@)),
        decreases rows.len() - i,
    {
        proof {
            assert(rv.take(i + 1).drop_last() =~= rv.take(i as int));
            assert(rv.take(i + 1).last() == row_view(rows@[i as int]));
        }
        if field_in_exec(&rows[i], n1, pool) && field_in_exec(&rows[i], n2, pool) {
            let ghost before = idx_view(out@);
            out.push(i);
            assert(idx_view(out@) =~= before.push(i as int));
        }
        i += 1;
    }
    assert(rv.take(rows.len() as int) =~= rv);
    out
}

/// The tables of a content payload that the deck filter reads (a table
/// the payload lacks is empty).
pub struct ContentTables {
    pub decks: Vec<Row>,
    pub note_types: Vec<Row>,
    pub fields: Vec<Row>,
    pub card_templates: Vec<Row>,
    pub notes: Vec<Row>,
    pub cards: Vec<Row>,
    pub tags: Vec<Row>,
    pub note_tags: Vec<Row>,
    pub note_links: Vec<Row>,
    pub entities: Vec<Row>,
    pub relation_types: Vec<Row>,
    pub triples: Vec<Row>,
    pub card_triples: Vec<Row>,
    pub entity_tags: Vec<Row>,
    pub relation_type_tags: Vec<Row>,
}

/// For each table, the positions of the rows that the filter keeps.
pub struct ContentSelection {
    pub decks: Vec<usize>,
    pub note_types: Vec<usize>,
    pub fields: Vec<usize>,
    pub card_templates: Vec<usize>,
    pub notes: Vec<usize>,
    pub cards: Vec<usize>,
    pub tags: Vec<usize>,
    pub note_tags: Vec<usize>,
    pub note_links: Vec<usize>,
    pub entities: Vec<usize>,
    pub relation_types: Vec<usize>,
    pub triples: Vec<usize>,
    pub card_triples: Vec<usize>,
    pub entity_tags: Vec<usize>,
    pub relation_type_tags: Vec<usize>,
}

// What the filter keeps, table by table. Notes are kept by deck; cards,
// note tags and links by kept note; tags by kept note tag; card-triple
// links by kept card; triples by kept link; entities and relation types by
// kept triple; their tags by kept entity or relation type; note types,
// fields and templates by the note types of kept notes.

/// The rows of each table, as the filter reads them.
pub struct TablesV {
    pub decks: Seq<RowView>,
    pub note_types: Seq<RowView>,
    pub fields: Seq<RowView>,
    pub card_templates: Seq<RowView>,
    pub notes: Seq<RowView>,
    pub cards: Seq<RowView>,
    pub tags: Seq<RowView>,
    pub note_tags: Seq<RowView>,
    pub note_links: Seq<RowView>,
    pub entities: Seq<RowView>,
    pub relation_types: Seq<RowView>,
    pub triples: Seq<RowView>,
    pub card_triples: Seq<RowView>,
    pub entity_tags: Seq<RowView>,
    pub relation_type_tags: Seq<RowView>,
}

pub open spec fn tables_v(t: ContentTables) -> TablesV {
    TablesV {
        decks: rows_view(t.decks@),
        note_types: rows_view(t.note_types@),
        fields: rows_view(t.fields@),
        card_templates: rows_view(t.card_templates@),
        notes: rows_view(t.notes@),
        cards: rows_view(t.cards@),
        tags: rows_view(t.tags@),
        note_tags: rows_view(t.note_tags@),
        note_links: rows_view(t.note_links@),
        entities: rows_view(t.entities@),
        relation_types: rows_view(t.relation_types@),
        triples: rows_view(t.triples@),
        card_triples: rows_view(t.card_triples@),
        entity_tags: rows_view(t.entity_tags@),
        relation_type_tags: rows_view(t.relation_type_tags@),
    }
}

pub open spec fn kept_decks(t: TablesV, scope: Seq<Seq<char>>) -> Seq<int> {
    selected(t.decks, "id"@, scope)
}

pub open spec fn kept_notes(t: TablesV, scope: Seq<Seq<char>>) -> Seq<int> {
    selected(t.notes, "deck_id"@, scope)
}

pub open spec fn note_ids(t: TablesV, scope: Seq<Seq<char>>) -> Seq<Seq<char>> {
    pool_of(t.notes, kept_notes(t, scope), "id"@)
}

pub open spec fn note_type_ids(t: TablesV, scope: Seq<Seq<char>>) -> Seq<Seq<char>> {
    pool_of(t.notes, kept_notes(t, scope), "note_type_id"@)
}

pub open spec fn kept_cards(t: TablesV, scope: Seq<Seq<char>>) -> Seq<int> {
    selected(t.cards, "note_id"@, note_ids(t, scope))
}

pub open spec fn card_ids(t: TablesV, scope: Seq<Seq<char>>) -> Seq<Seq<char>> {
    pool_of(t.cards, kept_cards(t, scope), "id"@)
}

pub open spec fn kept_note_tags(t: TablesV, scope: Seq<Seq<char>>) -> Seq<int> {
    selected(t.note_tags, "note_id"@, note_ids(t, scope))
}

pub open spec fn tag_ids(t: TablesV, scope: Seq<Seq<char>>) -> Seq<Seq<char>> {
    pool_of(t.note_tags, kept_note_tags(t, scope), "tag_id"@)
}

pub open spec fn kept_card_triples(t: TablesV, scope: Seq<Seq<char>>) -> Seq<int> {
    selected(t.card_triples, "card_id"@, card_ids(t, scope))
}

pub open spec fn triple_ids(t: TablesV, scope: Seq<Seq<char>>) -> Seq<Seq<char>> {
    pool_of(t.card_triples, kept_card_triples(t, scope), "triple_id"@)
}

pub open spec fn kept_triples(t: TablesV, scope: Seq<Seq<char>>) -> Seq<int> {
    selected(t.triples, "id"@, triple_ids(t, scope))
}

pub open spec fn entity_ids(t: TablesV, scope: Seq<Seq<char>>) -> Seq<Seq<char>> {
    pool_of(t.triples, kept_triples(t, scope), "subject_id"@) + pool_of(
        t.triples,
        kept_triples(t, scope),
        "object_id"@,
    )
}

pub open spec fn relation_type_ids(t: TablesV, scope: Seq<Seq<char>>) -> Seq<Seq<char>> {
    pool_of(t.triples, kept_triples(t, scope), "relation_type_id"@)
}

/// The rows of a payload that belong to the decks in `scope`.
pub open spec fn selection_matches(s: ContentSelection, t: ContentTables, scope: Seq<Seq<char>>) -> bool {
    matches_v(s, tables_v(t), scope)
}

/// The rows of tables `t` that belong to the decks in `scope`.
pub open spec fn matches_v(s: ContentSelection, t: TablesV, scope: Seq<Seq<char>>) -> bool {
    &&& idx_view(s.decks@) == kept_decks(t, scope)
    &&& idx_view(s.notes@) == kept_notes(t, scope)
    &&& idx_view(s.cards@) == kept_cards(t, scope)
    &&& idx_view(s.note_tags@) == kept_note_tags(t, scope)
    &&& idx_view(s.tags@) == selected(t.tags, "id"@, tag_ids(t, scope))
    &&& idx_view(s.note_links@) == selected_both(
        t.note_links,
        "source_note_id"@,
        "target_note_id"@,
        note_ids(t, scope),
    )
    &&& idx_view(s.card_triples@) == kept_card_triples(t, scope)
    &&& idx_view(s.triples@) == kept_triples(t, scope)
    &&& idx_view(s.entities@) == selected(t.entities, "id"@, entity_ids(t, scope))
    &&& idx_view(s.relation_types@) == selected(t.relation_types, "id"@, relation_type_ids(t, scope))
    &&& idx_view(s.entity_tags@) == selected(t.entity_tags, "entity_id"@, entity_ids(t, scope))
    &&& idx_view(s.relation_type_tags@) == selected(
        t.relation_type_tags,
        "relation_type_id"@,
        relation_type_ids(t, scope),
    )
    &&& idx_view(s.note_types@) == selected(t.note_types, "id"@, note_type_ids(t, scope))
    &&& idx_view(s.fields@) == selected(t.fields, "note_type_id"@, note_type_ids(t, scope))
    &&& idx_view(s.card_templates@) == selected(t.card_templates, "note_type_id"@, note_type_ids(t, scope))
}

/// Which rows of a content payload to keep for the decks in `scope`.
pub fn filter_content_payload(t: &ContentTables, scope: &Vec<String>) -> (s: ContentSelection)
    ensures
        selection_matches(s, *t, strs(scope@)),
{
    let decks = select_rows(&t.decks, "id", scope);
    let notes = select_rows(&t.notes, "deck_id", scope);
    let note_ids_v = pool_values(&t.notes, &notes, "id");
    let note_type_ids_v = pool_values(&t.notes, &notes, "note_type_id");
    let cards = select_rows(&t.cards, "note_id", &note_ids_v);
    let card_ids_v = pool_values(&t.cards, &cards, "id");
    let note_tags = select_rows(&t.note_tags, "note_id", &note_ids_v);
    let tag_ids_v = pool_values(&t.note_tags, &note_tags, "tag_id");
    let tags = select_rows(&t.tags, "id", &tag_ids_v);
    let note_links = select_rows_both(&t.note_links, "source_note_id", "target_note_id", &note_ids_v);
    let card_triples = select_rows(&t.card_triples, "card_id", &card_ids_v);
    let triple_ids_v = pool_values(&t.card_triples, &card_triples, "triple_id");
    let triples = select_rows(&t.triples, "id", &triple_ids_v);
    let mut entity_ids_v = pool_values(&t.triples, &triples, "subject_id");
    let objects = pool_values(&t.triples, &triples, "object_id");
    let ghost subjects = strs(entity_ids_v@);
    let mut k: usize = 0;
    while k < objects.len()
        invariant
            k <= objects.len(),
            strs(entity_ids_v@) == subjects + strs(objects@).take(k as int),
        decreases objects.len() - k,
    {
        let ghost before = strs(entity_ids_v@);
        let o = objects[k].clone();
        assert(o@ == objects@[k as int]@);
        entity_ids_v.push(o);
        assert(strs(entity_ids_v@) =~= before.push(o@));
        assert(strs(objects@).take(k + 1) =~= strs(objects@).take(k as int).push(objects@[k as int]@));
        assert(strs(entity_ids_v@) =~= subjects + strs(objects@).take(k + 1));
        k += 1;
    }
    assert(strs(objects@).take(objects.len() as int) =~= strs(objects@));
    let relation_type_ids_v = pool_values(&t.triples, &triples, "relation_type_id");
    let entities = select_rows(&t.entities, "id", &entity_ids_v);
    let relation_types = select_rows(&t.relation_types, "id", &relation_type_ids_v);
    let entity_tags = select_rows(&t.entity_tags, "entity_id", &entity_ids_v);
    let relation_type_tags = select_rows(&t.relation_type_tags, "relation_type_id", &relation_type_ids_v);
    let note_types = select_rows(&t.note_types, "id", &note_type_ids_v);
    let fields = select_rows(&t.fields, "note_type_id", &note_type_ids_v);
    let card_templates = select_rows(&t.card_templates, "note_type_id", &note_type_ids_v);
    ContentSelection {
        decks,
        note_types,
        fields,
        card_templates,
        notes,
        cards,
        tags,
        note_tags,
        note_links,
        entities,
        relation_types,
        triples,
        card_triples,
        entity_tags,
        relation_type_tags,
    }
}


/// Every row the filter keeps satisfies the test it was kept by.
pub proof fn lemma_selected(rows: Seq<RowView>, name: Seq<char>, pool: Seq<Seq<char>>, k: int)
    requires
        0 <= k < selected(rows, name, pool).len(),
    ensures
        0 <= selected(rows, name, pool)[k] < rows.len(),
        field_in(rows[selected(rows, name, pool)[k]], name, pool),
    decreases rows.len(),
{
    let init = rows.drop_last();
    let rest = selected(init, name, pool);
    if k < rest.len() {
        lemma_selected(init, name, pool, k);
    }
}

/// A row is kept exactly when it passes its test.
pub proof fn lemma_selected_complete(rows: Seq<RowView>, name: Seq<char>, pool: Seq<Seq<char>>, i: int)
    requires
        0 <= i < rows.len(),
        field_in(rows[i], name, pool),
    ensures
        selected(rows, name, pool).contains(i),
    decreases rows.len(),
{
    if i < rows.len() - 1 {
        lemma_selected_complete(rows.drop_last(), name, pool, i);
        let rest = selected(rows.drop_last(), name, pool);
        let j = choose|j: int| 0 <= j < rest.len() && rest[j] == i;
        if field_in(rows.last(), name, pool) {
            assert(selected(rows, name, pool)[j] == i);
        }
    } else {
        let sel = selected(rows, name, pool);
        assert(sel[sel.len() - 1] == i);
    }
}

/// A value taken from a kept row is in the pool made from those rows.
proof fn lemma_pool_of(rows: Seq<RowView>, idx: Seq<int>, name: Seq<char>, k: int, v: Seq<char>)
    requires
        0 <= k < idx.len(),
        field(rows[idx[k]], name) == Some(v),
    ensures
        pool_of(rows, idx, name).contains(v),
    decreases idx.len(),
{
    if k < idx.len() - 1 {
        lemma_pool_of(rows, idx.drop_last(), name, k, v);
        let rest = pool_of(rows, idx.drop_last(), name);
        let j = choose|j: int| 0 <= j < rest.len() && rest[j] == v;
        match field(rows[idx.last()], name) {
            Some(w) => assert(pool_of(rows, idx, name)[j] == v),
            None => {},
        }
    } else {
        let p = pool_of(rows, idx, name);
        assert(p[p.len() - 1] == v);
    }
}

/// The filtered payload holds together: each kept note is in a chosen
/// deck, each kept card belongs to a kept note, and every note whose deck
/// is chosen is kept, with all of its cards.
pub proof fn law_filter_closed(t: TablesV, scope: Seq<Seq<char>>, kn: int, kc: int, n: int, c: int)
    ensures
        0 <= kn < kept_notes(t, scope).len() ==> field_in(
            t.notes[kept_notes(t, scope)[kn]],
            "deck_id"@,
            scope,
        ),
        0 <= kc < kept_cards(t, scope).len() ==> field_in(
            t.cards[kept_cards(t, scope)[kc]],
            "note_id"@,
            note_ids(t, scope),
        ),
        0 <= n < t.notes.len() && field_in(t.notes[n], "deck_id"@, scope) ==> kept_notes(t, scope).contains(n),
        0 <= n < t.notes.len() && field_in(t.notes[n], "deck_id"@, scope)
            && field(t.notes[n], "id"@) is Some && 0 <= c < t.cards.len()
            && field(t.cards[c], "note_id"@) == field(t.notes[n], "id"@)
            ==> kept_cards(t, scope).contains(c),
{
    if 0 <= kn < kept_notes(t, scope).len() {
        lemma_selected(t.notes, "deck_id"@, scope, kn);
    }
    if 0 <= kc < kept_cards(t, scope).len() {
        lemma_selected(t.cards, "note_id"@, note_ids(t, scope), kc);
    }
    if 0 <= n < t.notes.len() && field_in(t.notes[n], "deck_id"@, scope) {
        lemma_selected_complete(t.notes, "deck_id"@, scope, n);
        let sel = kept_notes(t, scope);
        let j = choose|j: int| 0 <= j < sel.len() && sel[j] == n;
        if field(t.notes[n], "id"@) is Some && 0 <= c < t.cards.len()
            && field(t.cards[c], "note_id"@) == field(t.notes[n], "id"@) {
            let v = field(t.notes[n], "id"@)->0;
            lemma_pool_of(t.notes, sel, "id"@, j, v);
            lemma_selected_complete(t.cards, "note_id"@, note_ids(t, scope), c);
        }
    }
}


// ---------------------------------------------------------------------------
// Filtering twice
// ---------------------------------------------------------------------------

/// The rows at positions `idx`, in order.
pub open spec fn pick(rows: Seq<RowView>, idx: Seq<int>) -> Seq<RowView> {
    idx.map_values(|i: int| rows[i])
}

/// Every position of a table of `n` rows.
pub open spec fn every(n: nat) -> Seq<int> {
    Seq::new(n, |i: int| i)
}

/// `t2` holds, table by table, the rows of `t` that `s` keeps.
pub open spec fn is_filtered(t2: TablesV, t: TablesV, s: ContentSelection) -> bool {
    t2.decks == pick(t.decks, idx_view(s.decks@)) &&
    t2.note_types == pick(t.note_types, idx_view(s.note_types@)) &&
    t2.fields == pick(t.fields, idx_view(s.fields@)) &&
    t2.card_templates == pick(t.card_templates, idx_view(s.card_templates@)) &&
    t2.notes == pick(t.notes, idx_view(s.notes@)) &&
    t2.cards == pick(t.cards, idx_view(s.cards@)) &&
    t2.tags == pick(t.tags, idx_view(s.tags@)) &&
    t2.note_tags == pick(t.note_tags, idx_view(s.note_tags@)) &&
    t2.note_links == pick(t.note_links, idx_view(s.note_links@)) &&
    t2.entities == pick(t.entities, idx_view(s.entities@)) &&
    t2.relation_types == pick(t.relation_types, idx_view(s.relation_types@)) &&
    t2.triples == pick(t.triples, idx_view(s.triples@)) &&
    t2.card_triples == pick(t.card_triples, idx_view(s.card_triples@)) &&
    t2.entity_tags == pick(t.entity_tags, idx_view(s.entity_tags@)) &&
    t2.relation_type_tags == pick(t.relation_type_tags, idx_view(s.relation_type_tags@))
}

/// `s` keeps every row of every table of `t`.
pub open spec fn keeps_all(s: ContentSelection, t: TablesV) -> bool {
    idx_view(s.decks@) == every(t.decks.len()) &&
    idx_view(s.note_types@) == every(t.note_types.len()) &&
    idx_view(s.fields@) == every(t.fields.len()) &&
    idx_view(s.card_templates@) == every(t.card_templates.len()) &&
    idx_view(s.notes@) == every(t.notes.len()) &&
    idx_view(s.cards@) == every(t.cards.len()) &&
    idx_view(s.tags@) == every(t.tags.len()) &&
    idx_view(s.note_tags@) == every(t.note_tags.len()) &&
    idx_view(s.note_links@) == every(t.note_links.len()) &&
    idx_view(s.entities@) == every(t.entities.len()) &&
    idx_view(s.relation_types@) == every(t.relation_types.len()) &&
    idx_view(s.triples@) == every(t.triples.len()) &&
    idx_view(s.card_triples@) == every(t.card_triples.len()) &&
    idx_view(s.entity_tags@) == every(t.entity_tags.len()) &&
    idx_view(s.relation_type_tags@) == every(t.relation_type_tags.len())
}

proof fn lemma_selected_all(rows: Seq<RowView>, name: Seq<char>, pool: Seq<Seq<char>>)
    requires
        forall|i: int| 0 <= i < rows.len() ==> field_in(#[trigger] rows[i], name, pool),
    ensures
        selected(rows, name, pool) == every(rows.len()),
    decreases rows.len(),
{
    if rows.len() > 0 {
        let init = rows.drop_last();
        assert forall|i: int| 0 <= i < init.len() implies field_in(#[trigger] init[i], name, pool) by {
            assert(init[i] == rows[i]);
        }
        lemma_selected_all(init, name, pool);
        assert(every(rows.len()) =~= every(init.len()).push(rows.len() - 1));
    } else {
        assert(every(0) =~= Seq::<int>::empty());
    }
}

proof fn lemma_selected_both_all(rows: Seq<RowView>, n1: Seq<char>, n2: Seq<char>, pool: Seq<Seq<char>>)
    requires
        forall|i: int| 0 <= i < rows.len() ==> field_in(#[trigger] rows[i], n1, pool) && field_in(rows[i], n2, pool),
    ensures
        selected_both(rows, n1, n2, pool) == every(rows.len()),
    decreases rows.len(),
{
    if rows.len() > 0 {
        let init = rows.drop_last();
        assert forall|i: int| 0 <= i < init.len() implies field_in(#[trigger] init[i], n1, pool) && field_in(init[i], n2, pool) by {
            assert(init[i] == rows[i]);
        }
        lemma_selected_both_all(init, n1, n2, pool);
        assert(every(rows.len()) =~= every(init.len()).push(rows.len() - 1));
    } else {
        assert(every(0) =~= Seq::<int>::empty());
    }
}

proof fn lemma_selected_both_sat(rows: Seq<RowView>, n1: Seq<char>, n2: Seq<char>, pool: Seq<Seq<char>>, k: int)
    requires
        0 <= k < selected_both(rows, n1, n2, pool).len(),
    ensures
        0 <= selected_both(rows, n1, n2, pool)[k] < rows.len(),
        field_in(rows[selected_both(rows, n1, n2, pool)[k]], n1, pool),
        field_in(rows[selected_both(rows, n1, n2, pool)[k]], n2, pool),
    decreases rows.len(),
{
    let rest = selected_both(rows.drop_last(), n1, n2, pool);
    if k < rest.len() {
        lemma_selected_both_sat(rows.drop_last(), n1, n2, pool, k);
    }
}

/// The rows a selection keeps, filtered again by the same test, are all kept.
proof fn lemma_reselect(rows: Seq<RowView>, name: Seq<char>, pool: Seq<Seq<char>>)
    ensures
        selected(pick(rows, selected(rows, name, pool)), name, pool) == every(selected(rows, name, pool).len()),
{
    let sel = selected(rows, name, pool);
    let p = pick(rows, sel);
    assert forall|i: int| 0 <= i < p.len() implies field_in(#[trigger] p[i], name, pool) by {
        lemma_selected(rows, name, pool, i);
    }
    lemma_selected_all(p, name, pool);
}

proof fn lemma_reselect_both(rows: Seq<RowView>, n1: Seq<char>, n2: Seq<char>, pool: Seq<Seq<char>>)
    ensures
        selected_both(pick(rows, selected_both(rows, n1, n2, pool)), n1, n2, pool) == every(
            selected_both(rows, n1, n2, pool).len(),
        ),
{
    let sel = selected_both(rows, n1, n2, pool);
    let p = pick(rows, sel);
    assert forall|i: int| 0 <= i < p.len() implies field_in(#[trigger] p[i], n1, pool) && field_in(p[i], n2, pool) by {
        lemma_selected_both_sat(rows, n1, n2, pool, i);
    }
    lemma_selected_both_all(p, n1, n2, pool);
}

proof fn lemma_pool_same(r1: Seq<RowView>, i1: Seq<int>, r2: Seq<RowView>, i2: Seq<int>, name: Seq<char>)
    requires
        i1.len() == i2.len(),
        forall|j: int| 0 <= j < i1.len() ==> r1[#[trigger] i1[j]] == r2[i2[j]],
    ensures
        pool_of(r1, i1, name) == pool_of(r2, i2, name),
    decreases i1.len(),
{
    if i1.len() > 0 {
        let a = i1.drop_last();
        let b = i2.drop_last();
        assert forall|j: int| 0 <= j < a.len() implies r1[#[trigger] a[j]] == r2[b[j]] by {
            assert(a[j] == i1[j] && b[j] == i2[j]);
        }
        lemma_pool_same(r1, a, r2, b, name);
        assert(r1[i1[i1.len() - 1]] == r2[i2[i2.len() - 1]]);
    }
}

/// The values taken from all the picked rows are those taken from the rows
/// at the picked positions.
proof fn lemma_pool_pick(rows: Seq<RowView>, idx: Seq<int>, name: Seq<char>)
    ensures
        pool_of(pick(rows, idx), every(idx.len()), name) == pool_of(rows, idx, name),
{
    let p = pick(rows, idx);
    let e = every(idx.len());
    assert forall|j: int| 0 <= j < e.len() implies p[#[trigger] e[j]] == rows[idx[j]] by {}
    lemma_pool_same(p, e, rows, idx, name);
}

/// The names of the payload's tables, in the order of `TablesV`.
pub open spec fn table_names() -> Seq<Seq<char>> {
    seq!["decks"@, "note_types"@, "fields"@, "card_templates"@, "notes"@, "cards"@, "tags"@, "note_tags"@, "note_links"@, "entities"@, "relation_types"@, "triples"@, "card_triples"@, "entity_tags"@, "relation_type_tags"@]
}

/// Table `k` of `t`, in the order of `table_names`.
pub open spec fn table_at(t: TablesV, k: int) -> Seq<RowView> {
        if k == 0 {
            t.decks
        } else if k == 1 {
            t.note_types
        } else if k == 2 {
            t.fields
        } else if k == 3 {
            t.card_templates
        } else if k == 4 {
            t.notes
        } else if k == 5 {
            t.cards
        } else if k == 6 {
            t.tags
        } else if k == 7 {
            t.note_tags
        } else if k == 8 {
            t.note_links
        } else if k == 9 {
            t.entities
        } else if k == 10 {
            t.relation_types
        } else if k == 11 {
            t.triples
        } else if k == 12 {
            t.card_triples
        } else if k == 13 {
            t.entity_tags
        } else {
            t.relation_type_tags
        }
}

/// For each table, the positions of the rows that belong to the decks in
/// `scope`.
pub open spec fn kept_v(t: TablesV, scope: Seq<Seq<char>>) -> Seq<Seq<int>> {
    seq![
        kept_decks(t, scope),
        selected(t.note_types, "id"@, note_type_ids(t, scope)),
        selected(t.fields, "note_type_id"@, note_type_ids(t, scope)),
        selected(t.card_templates, "note_type_id"@, note_type_ids(t, scope)),
        kept_notes(t, scope),
        kept_cards(t, scope),
        selected(t.tags, "id"@, tag_ids(t, scope)),
        kept_note_tags(t, scope),
        selected_both(t.note_links, "source_note_id"@, "target_note_id"@, note_ids(t, scope)),
        selected(t.entities, "id"@, entity_ids(t, scope)),
        selected(t.relation_types, "id"@, relation_type_ids(t, scope)),
        kept_triples(t, scope),
        kept_card_triples(t, scope),
        selected(t.entity_tags, "entity_id"@, entity_ids(t, scope)),
        selected(t.relation_type_tags, "relation_type_id"@, relation_type_ids(t, scope)),
    ]
}

/// A selection's positions, table by table.
pub open spec fn sel_v(s: ContentSelection) -> Seq<Seq<int>> {
    seq![
        idx_view(s.decks@),
        idx_view(s.note_types@),
        idx_view(s.fields@),
        idx_view(s.card_templates@),
        idx_view(s.notes@),
        idx_view(s.cards@),
        idx_view(s.tags@),
        idx_view(s.note_tags@),
        idx_view(s.note_links@),
        idx_view(s.entities@),
        idx_view(s.relation_types@),
        idx_view(s.triples@),
        idx_view(s.card_triples@),
        idx_view(s.entity_tags@),
        idx_view(s.relation_type_tags@),
    ]
}

/// Positions that go up, each within a table of `n` rows.
pub open spec fn increasing_within(idx: Seq<int>, n: int) -> bool {
    &&& forall|a: int, b: int| 0 <= a < b < idx.len() ==> idx[a] < idx[b]
    &&& forall|a: int| 0 <= a < idx.len() ==> 0 <= #[trigger] idx[a] < n
}

proof fn lemma_selected_increasing(rows: Seq<RowView>, name: Seq<char>, pool: Seq<Seq<char>>)
    ensures
        increasing_within(selected(rows, name, pool), rows.len() as int),
    decreases rows.len(),
{
    if rows.len() > 0 {
        lemma_selected_increasing(rows.drop_last(), name, pool);
    }
}

proof fn lemma_selected_both_increasing(rows: Seq<RowView>, n1: Seq<char>, n2: Seq<char>, pool: Seq<Seq<char>>)
    ensures
        increasing_within(selected_both(rows, n1, n2, pool), rows.len() as int),
    decreases rows.len(),
{
    if rows.len() > 0 {
        lemma_selected_both_increasing(rows.drop_last(), n1, n2, pool);
    }
}

/// The filter keeps rows in their order, each once.
pub proof fn lemma_kept_increasing(t: TablesV, scope: Seq<Seq<char>>)
    ensures
        forall|k: int| 0 <= k < 15 ==> increasing_within(#[trigger] kept_v(t, scope)[k], table_at(t, k).len() as int),
{
    lemma_selected_increasing(t.decks, "id"@, scope);
    lemma_selected_increasing(t.note_types, "id"@, note_type_ids(t, scope));
    lemma_selected_increasing(t.fields, "note_type_id"@, note_type_ids(t, scope));
    lemma_selected_increasing(t.card_templates, "note_type_id"@, note_type_ids(t, scope));
    lemma_selected_increasing(t.notes, "deck_id"@, scope);
    lemma_selected_increasing(t.cards, "note_id"@, note_ids(t, scope));
    lemma_selected_increasing(t.tags, "id"@, tag_ids(t, scope));
    lemma_selected_increasing(t.note_tags, "note_id"@, note_ids(t, scope));
    lemma_selected_both_increasing(t.note_links, "source_note_id"@, "target_note_id"@, note_ids(t, scope));
    lemma_selected_increasing(t.entities, "id"@, entity_ids(t, scope));
    lemma_selected_increasing(t.relation_types, "id"@, relation_type_ids(t, scope));
    lemma_selected_increasing(t.triples, "id"@, triple_ids(t, scope));
    lemma_selected_increasing(t.card_triples, "card_id"@, card_ids(t, scope));
    lemma_selected_increasing(t.entity_tags, "entity_id"@, entity_ids(t, scope));
    lemma_selected_increasing(t.relation_type_tags, "relation_type_id"@, relation_type_ids(t, scope));
    assert forall|k: int| 0 <= k < 15 implies increasing_within(#[trigger] kept_v(t, scope)[k], table_at(t, k).len() as int) by {
        if k == 0 {
        } else if k == 1 {
        } else if k == 2 {
        } else if k == 3 {
        } else if k == 4 {
        } else if k == 5 {
        } else if k == 6 {
        } else if k == 7 {
        } else if k == 8 {
        } else if k == 9 {
        } else if k == 10 {
        } else if k == 11 {
        } else if k == 12 {
        } else if k == 13 {
        }
    }
}

pub proof fn lemma_matches_kept(s: ContentSelection, t: TablesV, scope: Seq<Seq<char>>)
    requires
        matches_v(s, t, scope),
    ensures
        sel_v(s) == kept_v(t, scope),
{
    assert(sel_v(s) =~= kept_v(t, scope));
}

/// Tables made of the rows that the filter keeps are kept whole when they
/// are filtered again.
pub proof fn lemma_refilter(t: TablesV, scope: Seq<Seq<char>>, t2: TablesV)
    requires
        forall|k: int| 0 <= k < 15 ==> table_at(t2, k) == pick(table_at(t, k), #[trigger] kept_v(t, scope)[k]),
    ensures
        forall|k: int| 0 <= k < 15 ==> #[trigger] kept_v(t2, scope)[k] == every(table_at(t2, k).len()),
{
    assert forall|k: int| 0 <= k < 15 implies table_at(t2, k) == pick(table_at(t, k), kept_v(t, scope)[k]) by {}
    assert(table_at(t2, 0) == pick(table_at(t, 0), kept_v(t, scope)[0]));
    assert(table_at(t2, 1) == pick(table_at(t, 1), kept_v(t, scope)[1]));
    assert(table_at(t2, 2) == pick(table_at(t, 2), kept_v(t, scope)[2]));
    assert(table_at(t2, 3) == pick(table_at(t, 3), kept_v(t, scope)[3]));
    assert(table_at(t2, 4) == pick(table_at(t, 4), kept_v(t, scope)[4]));
    assert(table_at(t2, 5) == pick(table_at(t, 5), kept_v(t, scope)[5]));
    assert(table_at(t2, 6) == pick(table_at(t, 6), kept_v(t, scope)[6]));
    assert(table_at(t2, 7) == pick(table_at(t, 7), kept_v(t, scope)[7]));
    assert(table_at(t2, 8) == pick(table_at(t, 8), kept_v(t, scope)[8]));
    assert(table_at(t2, 9) == pick(table_at(t, 9), kept_v(t, scope)[9]));
    assert(table_at(t2, 10) == pick(table_at(t, 10), kept_v(t, scope)[10]));
    assert(table_at(t2, 11) == pick(table_at(t, 11), kept_v(t, scope)[11]));
    assert(table_at(t2, 12) == pick(table_at(t, 12), kept_v(t, scope)[12]));
    assert(table_at(t2, 13) == pick(table_at(t, 13), kept_v(t, scope)[13]));
    assert(table_at(t2, 14) == pick(table_at(t, 14), kept_v(t, scope)[14]));
    lemma_refilter_parts(t, scope, t2);
}

proof fn lemma_refilter_parts(t: TablesV, scope: Seq<Seq<char>>, t2: TablesV)
    requires
        t2.decks == pick(t.decks, kept_v(t, scope)[0]),
        t2.note_types == pick(t.note_types, kept_v(t, scope)[1]),
        t2.fields == pick(t.fields, kept_v(t, scope)[2]),
        t2.card_templates == pick(t.card_templates, kept_v(t, scope)[3]),
        t2.notes == pick(t.notes, kept_v(t, scope)[4]),
        t2.cards == pick(t.cards, kept_v(t, scope)[5]),
        t2.tags == pick(t.tags, kept_v(t, scope)[6]),
        t2.note_tags == pick(t.note_tags, kept_v(t, scope)[7]),
        t2.note_links == pick(t.note_links, kept_v(t, scope)[8]),
        t2.entities == pick(t.entities, kept_v(t, scope)[9]),
        t2.relation_types == pick(t.relation_types, kept_v(t, scope)[10]),
        t2.triples == pick(t.triples, kept_v(t, scope)[11]),
        t2.card_triples == pick(t.card_triples, kept_v(t, scope)[12]),
        t2.entity_tags == pick(t.entity_tags, kept_v(t, scope)[13]),
        t2.relation_type_tags == pick(t.relation_type_tags, kept_v(t, scope)[14]),
    ensures
        forall|k: int| 0 <= k < 15 ==> #[trigger] kept_v(t2, scope)[k] == every(table_at(t2, k).len()),
{
    lemma_reselect(t.decks, "id"@, scope);
    lemma_reselect(t.notes, "deck_id"@, scope);
    let kn = kept_notes(t, scope);
    lemma_pool_pick(t.notes, kn, "id"@);
    lemma_pool_pick(t.notes, kn, "note_type_id"@);
    assert(note_ids(t2, scope) == note_ids(t, scope));
    assert(note_type_ids(t2, scope) == note_type_ids(t, scope));
    lemma_reselect(t.cards, "note_id"@, note_ids(t, scope));
    lemma_reselect(t.note_tags, "note_id"@, note_ids(t, scope));
    lemma_reselect_both(t.note_links, "source_note_id"@, "target_note_id"@, note_ids(t, scope));
    lemma_pool_pick(t.cards, kept_cards(t, scope), "id"@);
    lemma_pool_pick(t.note_tags, kept_note_tags(t, scope), "tag_id"@);
    assert(card_ids(t2, scope) == card_ids(t, scope));
    assert(tag_ids(t2, scope) == tag_ids(t, scope));
    lemma_reselect(t.tags, "id"@, tag_ids(t, scope));
    lemma_reselect(t.card_triples, "card_id"@, card_ids(t, scope));
    lemma_pool_pick(t.card_triples, kept_card_triples(t, scope), "triple_id"@);
    assert(triple_ids(t2, scope) == triple_ids(t, scope));
    lemma_reselect(t.triples, "id"@, triple_ids(t, scope));
    let kt = kept_triples(t, scope);
    lemma_pool_pick(t.triples, kt, "subject_id"@);
    lemma_pool_pick(t.triples, kt, "object_id"@);
    lemma_pool_pick(t.triples, kt, "relation_type_id"@);
    assert(entity_ids(t2, scope) == entity_ids(t, scope));
    assert(relation_type_ids(t2, scope) == relation_type_ids(t, scope));
    lemma_reselect(t.entities, "id"@, entity_ids(t, scope));
    lemma_reselect(t.relation_types, "id"@, relation_type_ids(t, scope));
    lemma_reselect(t.entity_tags, "entity_id"@, entity_ids(t, scope));
    lemma_reselect(t.relation_type_tags, "relation_type_id"@, relation_type_ids(t, scope));
    lemma_reselect(t.note_types, "id"@, note_type_ids(t, scope));
    lemma_reselect(t.fields, "note_type_id"@, note_type_ids(t, scope));
    lemma_reselect(t.card_templates, "note_type_id"@, note_type_ids(t, scope));

    assert forall|k: int| 0 <= k < 15 implies #[trigger] kept_v(t2, scope)[k] == every(table_at(t2, k).len()) by {
        if k == 0 {
        } else if k == 1 {
        } else if k == 2 {
        } else if k == 3 {
        } else if k == 4 {
        } else if k == 5 {
        } else if k == 6 {
        } else if k == 7 {
        } else if k == 8 {
        } else if k == 9 {
        } else if k == 10 {
        } else if k == 11 {
        } else if k == 12 {
        } else if k == 13 {
        }
    }
}

/// Filtering a payload that was already filtered for the same decks keeps
/// every one of its rows: filtering twice gives what filtering once gave.
pub proof fn law_filter_idempotent(
    t: TablesV,
    scope: Seq<Seq<char>>,
    s: ContentSelection,
    t2: TablesV,
    s2: ContentSelection,
)
    requires
        matches_v(s, t, scope),
        is_filtered(t2, t, s),
        matches_v(s2, t2, scope),
    ensures
        keeps_all(s2, t2),
{
    lemma_matches_kept(s, t, scope);
    lemma_matches_kept(s2, t2, scope);
    lemma_refilter(t, scope, t2);
    assert(kept_v(t2, scope)[0] == every(table_at(t2, 0).len()));
    assert(kept_v(t2, scope)[1] == every(table_at(t2, 1).len()));
    assert(kept_v(t2, scope)[2] == every(table_at(t2, 2).len()));
    assert(kept_v(t2, scope)[3] == every(table_at(t2, 3).len()));
    assert(kept_v(t2, scope)[4] == every(table_at(t2, 4).len()));
    assert(kept_v(t2, scope)[5] == every(table_at(t2, 5).len()));
    assert(kept_v(t2, scope)[6] == every(table_at(t2, 6).len()));
    assert(kept_v(t2, scope)[7] == every(table_at(t2, 7).len()));
    assert(kept_v(t2, scope)[8] == every(table_at(t2, 8).len()));
    assert(kept_v(t2, scope)[9] == every(table_at(t2, 9).len()));
    assert(kept_v(t2, scope)[10] == every(table_at(t2, 10).len()));
    assert(kept_v(t2, scope)[11] == every(table_at(t2, 11).len()));
    assert(kept_v(t2, scope)[12] == every(table_at(t2, 12).len()));
    assert(kept_v(t2, scope)[13] == every(table_at(t2, 13).len()));
    assert(kept_v(t2, scope)[14] == every(table_at(t2, 14).len()));
}

// ---------------------------------------------------------------------------
// Which decks a selection reaches in a payload
// ---------------------------------------------------------------------------

/// The parent that the payload gives deck `id`: from the last deck row with
/// that id (`None` when there is no such row).
pub open spec fn deck_parent(decks: Seq<RowView>, id: Seq<char>) -> Option<Option<Seq<char>>>
    decreases decks.len(),
{
    if decks.len() == 0 {
        None
    } else if field(decks.last(), "id"@) == Some(id) {
        Some(field(decks.last(), "parent_id"@))
    } else {
        deck_parent(decks.drop_last(), id)
    }
}

/// Deck row `j` is a child of `p` with id `x`.
pub open spec fn child_row(decks: Seq<RowView>, j: int, x: Seq<char>, p: Seq<char>) -> bool {
    0 <= j < decks.len() && field(decks[j], "id"@) == Some(x) && field(decks[j], "parent_id"@) == Some(p)
}

/// `x` is reached from `root` down child links without passing through a
/// deck already in `seen` (within `fuel` links): what a depth-first walk
/// that does not expand decks already in the scope adds.
pub open spec fn fresh_reach(decks: Seq<RowView>, seen: Set<Seq<char>>, root: Seq<char>, x: Seq<char>, fuel: nat) -> bool
    decreases fuel,
{
    !seen.contains(x) && (x == root || (fuel > 0 && exists|j: int, p: Seq<char>|
        #![trigger child_row(decks, j, x, p)]
        child_row(decks, j, x, p) && fresh_reach(decks, seen, root, p, (fuel - 1) as nat)))
}

/// The deck and its ancestors, following parents (at most `fuel` decks).
pub open spec fn ancestors(decks: Seq<RowView>, id: Seq<char>, fuel: nat) -> Seq<Seq<char>>
    decreases fuel,
{
    if fuel == 0 {
        Seq::empty()
    } else {
        seq![id] + match deck_parent(decks, id) {
            Some(Some(p)) => ancestors(decks, p, (fuel - 1) as nat),
            _ => Seq::empty(),
        }
    }
}

/// Following parents from `id` ends within `fuel` decks.
pub open spec fn chain_ends(decks: Seq<RowView>, id: Seq<char>, fuel: nat) -> bool
    decreases fuel,
{
    fuel > 0 && match deck_parent(decks, id) {
        Some(Some(p)) => chain_ends(decks, p, (fuel - 1) as nat),
        _ => true,
    }
}

/// The scope after taking the first `k` selected decks: each adds the
/// decks below it that were not yet in the scope (a deck already in the
/// scope is not walked below), then itself and its ancestors.
pub open spec fn scope_after(decks: Seq<RowView>, roots: Seq<Seq<char>>, k: nat) -> Set<Seq<char>>
    decreases k,
{
    if k == 0 || k > roots.len() {
        Set::empty()
    } else {
        let prev = scope_after(decks, roots, (k - 1) as nat);
        let root = roots[k - 1];
        prev.union(Set::new(|x: Seq<char>| fresh_reach(decks, prev, root, x, decks.len()))).union(
            ancestors(decks, root, (decks.len() + 1) as nat).to_set(),
        )
    }
}

/// The scope of a selection of decks in a payload's deck rows; `None`
/// (all decks) when nothing is selected or the payload has no deck list.
pub open spec fn spec_resolve_scope(decks: Option<Seq<RowView>>, selected: Option<Seq<Seq<char>>>) -> Option<Set<Seq<char>>> {
    match (decks, selected) {
        (Some(d), Some(ids)) => if ids.len() == 0 {
            None
        } else {
            Some(scope_after(d, ids, ids.len()))
        },
        _ => None,
    }
}


pub open spec fn pool_is(pool: Seq<Seq<char>>, set: Set<Seq<char>>) -> bool {
    forall|x: Seq<char>| #[trigger] pool.contains(x) <==> set.contains(x)
}

/// The decks below `root` not yet in `seen` (the pool `seen_pool` lists
/// `seen`), found level by level.
fn fresh_reach_exec(decks: &Vec<Row>, seen_pool: &Vec<String>, Ghost(seen): Ghost<Set<Seq<char>>>, root: &String) -> (r: Vec<String>)
    requires
        pool_is(strs(seen_pool@), seen),
    ensures
        forall|x: Seq<char>| #[trigger] strs(r@).contains(x) <==> fresh_reach(rows_view(decks@), seen, root@, x, decks@.len() as nat),
{
    let ghost dv = rows_view(decks@);
    let root_seen = pool_contains(seen_pool, root);
    let mut level: Vec<String> = Vec::new();
    if !root_seen {
        level.push(root.clone());
    }
    proof {
        assert forall|x: Seq<char>| #[trigger] strs(level@).contains(x) <==> fresh_reach(dv, seen, root@, x, 0) by {
            if strs(level@).contains(x) {
                let j = choose|j: int| 0 <= j < strs(level@).len() && strs(level@)[j] == x;
            }
            if fresh_reach(dv, seen, root@, x, 0) {
                assert(strs(level@)[0] == root@);
            }
        }
    }
    let mut k: usize = 0;
    while k < decks.len()
        invariant
            k <= decks.len(),
            dv == rows_view(decks@),
            pool_is(strs(seen_pool@), seen),
            root_seen == seen.contains(root@),
            forall|x: Seq<char>| #[trigger] strs(level@).contains(x) <==> fresh_reach(dv, seen, root@, x, k as nat),
        decreases decks.len() - k,
    {
        let mut next: Vec<String> = Vec::new();
        if !root_seen {
            next.push(root.clone());
        }
        proof {
            assert forall|x: Seq<char>| #[trigger] strs(next@).contains(x) <==> (!seen.contains(x) && (x == root@
                || exists|jj: int, p: Seq<char>| #![trigger child_row(dv, jj, x, p)] jj < 0 && child_row(dv, jj, x, p)
                    && fresh_reach(dv, seen, root@, p, k as nat))) by {
                if strs(next@).contains(x) {
                    let i = choose|i: int| 0 <= i < strs(next@).len() && strs(next@)[i] == x;
                }
                if !seen.contains(x) && x == root@ {
                    assert(strs(next@)[0] == root@);
                }
            }
        }
        let mut j: usize = 0;
        while j < decks.len()
            invariant
                j <= decks.len(),
                dv == rows_view(decks@),
                pool_is(strs(seen_pool@), seen),
                root_seen == seen.contains(root@),
                forall|x: Seq<char>| #[trigger] strs(level@).contains(x) <==> fresh_reach(dv, seen, root@, x, k as nat),
                forall|x: Seq<char>| #[trigger] strs(next@).contains(x) <==> (!seen.contains(x) && (x == root@
                    || exists|jj: int, p: Seq<char>| #![trigger child_row(dv, jj, x, p)] jj < j && child_row(dv, jj, x, p)
                        && fresh_reach(dv, seen, root@, p, k as nat))),
            decreases decks.len() - j,
        {
            let ghost before = strs(next@);
            let idf = field_exec(&decks[j], "id");
            let parf = field_exec(&decks[j], "parent_id");
            assert(dv[j as int] == row_view(decks@[j as int]));
            match (idf, parf) {
                (Some(x), Some(p)) => {
                    let in_level = pool_contains(&level, &p);
                    let x_seen = pool_contains(seen_pool, &x);
                    if in_level && !x_seen {
                        next.push(x);
                        proof {
                            assert(strs(next@) =~= before.push(x@));
                            assert(child_row(dv, j as int, x@, p@));
                            assert forall|y: Seq<char>| #[trigger] strs(next@).contains(y) <==> (!seen.contains(y) && (y == root@
                                || exists|jj: int, q: Seq<char>| #![trigger child_row(dv, jj, y, q)] jj < j + 1 && child_row(dv, jj, y, q)
                                    && fresh_reach(dv, seen, root@, q, k as nat))) by {
                                if strs(next@).contains(y) {
                                    let i = choose|i: int| 0 <= i < strs(next@).len() && strs(next@)[i] == y;
                                    if i < before.len() {
                                        assert(before.contains(y));
                                    }
                                }
                                if !seen.contains(y) && y != root@ && (exists|jj: int, q: Seq<char>| #![trigger child_row(dv, jj, y, q)] jj < j + 1 && child_row(dv, jj, y, q)
                                    && fresh_reach(dv, seen, root@, q, k as nat)) {
                                    let (jj, q) = choose|jj: int, q: Seq<char>| #![trigger child_row(dv, jj, y, q)] jj < j + 1 && child_row(dv, jj, y, q)
                                        && fresh_reach(dv, seen, root@, q, k as nat);
                                    if jj < j {
                                        assert(before.contains(y));
                                        let i = choose|i: int| 0 <= i < before.len() && before[i] == y;
                                        assert(strs(next@)[i] == y);
                                    } else {
                                        assert(strs(next@)[before.len() as int] == y);
                                    }
                                }
                                if y == root@ && !seen.contains(y) {
                                    assert(before.contains(y));
                                    let i = choose|i: int| 0 <= i < before.len() && before[i] == y;
                                    assert(strs(next@)[i] == y);
                                }
                            }
                        }
                    } else {
                        proof {
                            assert forall|y: Seq<char>| #[trigger] strs(next@).contains(y) <==> (!seen.contains(y) && (y == root@
                                || exists|jj: int, q: Seq<char>| #![trigger child_row(dv, jj, y, q)] jj < j + 1 && child_row(dv, jj, y, q)
                                    && fresh_reach(dv, seen, root@, q, k as nat))) by {
                                if !seen.contains(y) && y != root@ && (exists|jj: int, q: Seq<char>| #![trigger child_row(dv, jj, y, q)] jj < j + 1 && child_row(dv, jj, y, q)
                                    && fresh_reach(dv, seen, root@, q, k as nat)) {
                                    let (jj, q) = choose|jj: int, q: Seq<char>| #![trigger child_row(dv, jj, y, q)] jj < j + 1 && child_row(dv, jj, y, q)
                                        && fresh_reach(dv, seen, root@, q, k as nat);
                                    if jj == j {
                                        assert(q == p@ && y == x@);
                                        assert(strs(level@).contains(q));
                                        assert(false);
                                    }
                                }
                            }
                        }
                    }
                },
                _ => {
                    proof {
                        assert forall|y: Seq<char>| #[trigger] strs(next@).contains(y) <==> (!seen.contains(y) && (y == root@
                            || exists|jj: int, q: Seq<char>| #![trigger child_row(dv, jj, y, q)] jj < j + 1 && child_row(dv, jj, y, q)
                                && fresh_reach(dv, seen, root@, q, k as nat))) by {
                            if !seen.contains(y) && y != root@ && (exists|jj: int, q: Seq<char>| #![trigger child_row(dv, jj, y, q)] jj < j + 1 && child_row(dv, jj, y, q)
                                && fresh_reach(dv, seen, root@, q, k as nat)) {
                                let (jj, q) = choose|jj: int, q: Seq<char>| #![trigger child_row(dv, jj, y, q)] jj < j + 1 && child_row(dv, jj, y, q)
                                    && fresh_reach(dv, seen, root@, q, k as nat);
                                if jj == j {
                                    assert(false);
                                }
                            }
                        }
                    }
                },
            }
            j += 1;
        }
        proof {
            assert forall|x: Seq<char>| #[trigger] strs(next@).contains(x) <==> fresh_reach(dv, seen, root@, x, (k + 1) as nat) by {
                if fresh_reach(dv, seen, root@, x, (k + 1) as nat) && x != root@ {
                    let (jj, q) = choose|jj: int, q: Seq<char>| #![trigger child_row(dv, jj, x, q)] child_row(dv, jj, x, q)
                        && fresh_reach(dv, seen, root@, q, k as nat);
                    assert(jj < decks.len());
                }
            }
        }
        level = next;
        k += 1;
    }
    level
}

/// The parent that the payload gives deck `id` (the last row with that id wins).
fn deck_parent_exec(decks: &Vec<Row>, id: &String) -> (r: Option<Option<String>>)
    ensures
        match r {
            None => deck_parent(rows_view(decks@), id@) is None,
            Some(None) => deck_parent(rows_view(decks@), id@) == Some(None::<Seq<char>>),
            Some(Some(p)) => deck_parent(rows_view(decks@), id@) == Some(Some(p@)),
        },
{
    let ghost dv = rows_view(decks@);
    let mut out: Option<Option<String>> = None;
    let mut j: usize = 0;
    while j < decks.len()
        invariant
            j <= decks.len(),
            dv == rows_view(decks@),
            match out {
                None => deck_parent(dv.take(j as int), id@) is None,
                Some(None) => deck_parent(dv.take(j as int), id@) == Some(None::<Seq<char>>),
                Some(Some(p)) => deck_parent(dv.take(j as int), id@) == Some(Some(p@)),
            },
        decreases decks.len() - j,
    {
        proof {
            assert(dv.take(j + 1).drop_last() =~= dv.take(j as int));
            assert(dv.take(j + 1).last() == dv[j as int]);
            assert(dv[j as int] == row_view(decks@[j as int]));
        }
        match field_exec(&decks[j], "id") {
            Some(x) => {
                if x == *id {
                    out = Some(field_exec(&decks[j], "parent_id"));
                }
            },
            None => {},
        }
        j += 1;
    }
    assert(dv.take(decks.len() as int) =~= dv);
    out
}

/// The deck `root` and its ancestors, nearest first.
fn ancestors_exec(decks: &Vec<Row>, root: &String) -> (r: Vec<String>)
    requires
        chain_ends(rows_view(decks@), root@, (decks@.len() + 1) as nat),
    ensures
        strs(r@) == ancestors(rows_view(decks@), root@, (decks@.len() + 1) as nat),
{
    let ghost dv = rows_view(decks@);
    let ghost total: nat = (decks@.len() + 1) as nat;
    let ghost mut fuel: nat = total;
    let mut out: Vec<String> = Vec::new();
    let mut cur: String = root.clone();
    assert(strs(out@) + ancestors(dv, cur@, fuel) =~= ancestors(dv, root@, total));
    loop
        invariant_except_break
            chain_ends(dv, cur@, fuel),
            strs(out@) + ancestors(dv, cur@, fuel) == ancestors(dv, root@, total),
        invariant
            dv == rows_view(decks@),
            total == (decks@.len() + 1) as nat,
        ensures
            strs(out@) == ancestors(dv, root@, total),
        decreases fuel,
    {
        let ghost before = strs(out@);
        out.push(cur.clone());
        assert(strs(out@) =~= before.push(cur@));
        match deck_parent_exec(decks, &cur) {
            Some(Some(p)) => {
                proof {
                    assert(strs(out@) + ancestors(dv, p@, (fuel - 1) as nat) =~= before + ancestors(dv, cur@, fuel));
                    fuel = (fuel - 1) as nat;
                }
                cur = p;
            },
            _ => {
                assert(strs(out@) =~= before + ancestors(dv, cur@, fuel));
                break;
            },
        }
    }
    out
}

/// The decks that a selection reaches in a payload's deck rows: each
/// selected deck with what lies below it and its ancestors. `None` (all
/// decks) when nothing is selected or the payload has no deck list.
pub fn resolve_deck_scope_from_payload(decks: Option<&Vec<Row>>, selected_ids: Option<&Vec<String>>) -> (r: Option<Vec<String>>)
    requires
        match (decks, selected_ids) {
            (Some(d), Some(ids)) => forall|i: int| 0 <= i < ids@.len() ==>
                chain_ends(rows_view(d@), #[trigger] ids@[i]@, (d@.len() + 1) as nat),
            _ => true,
        },
    ensures
        match spec_resolve_scope(
            match decks { Some(d) => Some(rows_view(d@)), None => None },
            match selected_ids { Some(ids) => Some(strs(ids@)), None => None },
        ) {
            None => r is None,
            Some(s) => r is Some && pool_is(strs(r->0@), s),
        },
{
    let ids = match selected_ids {
        Some(ids) => ids,
        None => return None,
    };
    if ids.len() == 0 {
        return None;
    }
    let d = match decks {
        Some(d) => d,
        None => return None,
    };
    let ghost dv = rows_view(d@);
    let ghost roots = strs(ids@);
    let mut scope: Vec<String> = Vec::new();
    assert(pool_is(strs(scope@), scope_after(dv, roots, 0)));
    let mut k: usize = 0;
    while k < ids.len()
        invariant
            k <= ids.len(),
            dv == rows_view(d@),
            roots == strs(ids@),
            forall|i: int| 0 <= i < ids@.len() ==> chain_ends(dv, #[trigger] ids@[i]@, (d@.len() + 1) as nat),
            pool_is(strs(scope@), scope_after(dv, roots, k as nat)),
        decreases ids.len() - k,
    {
        let ghost prev = scope_after(dv, roots, k as nat);
        let fresh = fresh_reach_exec(d, &scope, Ghost(prev), &ids[k]);
        let anc = ancestors_exec(d, &ids[k]);
        let ghost s0 = strs(scope@);
        let mut fr = fresh;
        let mut an = anc;
        scope.append(&mut fr);
        scope.append(&mut an);
        proof {
            assert(roots[k as int] == ids@[k as int]@);
            assert(strs(scope@) =~= s0 + strs(fresh@) + strs(anc@));
            let next = scope_after(dv, roots, (k + 1) as nat);
            assert forall|x: Seq<char>| #[trigger] strs(scope@).contains(x) <==> next.contains(x) by {
                if strs(scope@).contains(x) {
                    let i = choose|i: int| 0 <= i < strs(scope@).len() && strs(scope@)[i] == x;
                    if i < s0.len() {
                        assert(s0.contains(x));
                    } else if i < s0.len() + strs(fresh@).len() {
                        assert(strs(fresh@).contains(x));
                    } else {
                        assert(strs(anc@).contains(x));
                    }
                }
                if next.contains(x) {
                    if prev.contains(x) {
                        assert(s0.contains(x));
                        let i = choose|i: int| 0 <= i < s0.len() && s0[i] == x;
                        assert(strs(scope@)[i] == x);
                    } else if fresh_reach(dv, prev, roots[k as int], x, dv.len() as nat) {
                        assert(strs(fresh@).contains(x));
                        let i = choose|i: int| 0 <= i < strs(fresh@).len() && strs(fresh@)[i] == x;
                        assert(strs(scope@)[s0.len() + i] == x);
                    } else {
                        assert(strs(anc@).contains(x));
                        let i = choose|i: int| 0 <= i < strs(anc@).len() && strs(anc@)[i] == x;
                        assert(strs(scope@)[s0.len() + strs(fresh@).len() + i] == x);
                    }
                }
            }
        }
        k += 1;
    }
    Some(scope)
}

/// The export's walk up from `id`: each deck met joins `seen`, until a deck
/// already met comes again or a deck has no parent (an empty parent is
/// none); at most `fuel` decks.
pub open spec fn walk_up(decks: Seq<RowView>, id: Seq<char>, seen: Seq<Seq<char>>, fuel: nat) -> Seq<Seq<char>>
    decreases fuel,
{
    if fuel == 0 || seen.contains(id) {
        seen
    } else {
        match deck_parent(decks, id) {
            Some(Some(p)) => if p.len() == 0 {
                seen.push(id)
            } else {
                walk_up(decks, p, seen.push(id), (fuel - 1) as nat)
            },
            _ => seen.push(id),
        }
    }
}

/// The export's walk up from `id` meets a parent that is no deck.
pub open spec fn walk_meets_missing(decks: Seq<RowView>, id: Seq<char>, seen: Seq<Seq<char>>, fuel: nat) -> bool
    decreases fuel,
{
    if fuel == 0 || seen.contains(id) {
        false
    } else {
        match deck_parent(decks, id) {
            None => true,
            Some(Some(p)) => p.len() > 0 && walk_meets_missing(decks, p, seen.push(id), (fuel - 1) as nat),
            Some(None) => false,
        }
    }
}

/// The export's scope after the first `k` selected decks: a selected deck
/// that is there adds every deck below it and the decks met walking up from
/// it; one that is not there adds nothing.
pub open spec fn export_scope_after(decks: Seq<RowView>, roots: Seq<Seq<char>>, k: nat) -> Set<Seq<char>>
    decreases k,
{
    if k == 0 || k > roots.len() {
        Set::empty()
    } else {
        let prev = export_scope_after(decks, roots, (k - 1) as nat);
        let root = roots[k - 1];
        if deck_parent(decks, root) is None {
            prev
        } else {
            prev.union(Set::new(|x: Seq<char>| fresh_reach(decks, Set::empty(), root, x, decks.len()))).union(
                walk_up(decks, root, Seq::empty(), (decks.len() + 1) as nat).to_set(),
            )
        }
    }
}

/// Some selected deck that is there has, walking up, a parent that is no
/// deck.
pub open spec fn export_meets_missing(decks: Seq<RowView>, roots: Seq<Seq<char>>) -> bool {
    exists|i: int|
        0 <= i < roots.len() && deck_parent(decks, #[trigger] roots[i]) is Some && walk_meets_missing(
            decks,
            roots[i],
            Seq::empty(),
            (decks.len() + 1) as nat,
        )
}

fn walk_up_exec(decks: &Vec<Row>, root: &String) -> (r: Option<Vec<String>>)
    ensures
        match r {
            Some(v) => !walk_meets_missing(rows_view(decks@), root@, Seq::empty(), (decks@.len() + 1) as nat)
                && strs(v@) == walk_up(rows_view(decks@), root@, Seq::empty(), (decks@.len() + 1) as nat),
            None => walk_meets_missing(rows_view(decks@), root@, Seq::empty(), (decks@.len() + 1) as nat),
        },
{
    let ghost dv = rows_view(decks@);
    let ghost total: nat = (decks@.len() + 1) as nat;
    let mut seen: Vec<String> = Vec::new();
    let mut cur: String = root.clone();
    let mut fuel: usize = decks.len();
    assert(strs(seen@) =~= Seq::<Seq<char>>::empty());
    loop
        invariant
            dv == rows_view(decks@),
            total == (decks@.len() + 1) as nat,
            fuel <= decks@.len(),
            walk_up(dv, root@, Seq::empty(), total) == walk_up(dv, cur@, strs(seen@), (fuel + 1) as nat),
            walk_meets_missing(dv, root@, Seq::empty(), total) == walk_meets_missing(dv, cur@, strs(seen@), (fuel + 1) as nat),
        decreases fuel,
    {
        if pool_contains(&seen, &cur) {
            return Some(seen);
        }
        let ghost before = strs(seen@);
        match deck_parent_exec(decks, &cur) {
            None => {
                return None;
            },
            Some(None) => {
                seen.push(cur);
                assert(strs(seen@) =~= before.push(cur@));
                return Some(seen);
            },
            Some(Some(p)) => {
                if crate::text::chars_of(p.as_str()).len() == 0 || fuel == 0 {
                    proof {
                        if p@.len() > 0 {
                            assert(walk_up(dv, p@, before.push(cur@), 0) == before.push(cur@));
                            assert(!walk_meets_missing(dv, p@, before.push(cur@), 0));
                        }
                    }
                    seen.push(cur);
                    assert(strs(seen@) =~= before.push(cur@));
                    return Some(seen);
                }
                seen.push(cur);
                assert(strs(seen@) =~= before.push(cur@));
                cur = p;
                fuel -= 1;
            },
        }
    }
}

/// The decks that an export of the selected decks takes: each selected
/// deck that is there, every deck below it, and the decks met walking up
/// from it. `Ok(None)` (all decks) when nothing is selected; an error where
/// a walk up meets a parent that is no deck.
pub fn resolve_export_scope(decks: &Vec<Row>, selected_ids: Option<&Vec<String>>) -> (r: Result<Option<Vec<String>>, String>)
    ensures
        match selected_ids {
            None => r == Ok::<Option<Vec<String>>, String>(None),
            Some(ids) => if ids@.len() == 0 {
                r == Ok::<Option<Vec<String>>, String>(None)
            } else if export_meets_missing(rows_view(decks@), strs(ids@)) {
                r matches Err(e) && e@ == "Query returned no rows"@
            } else {
                r matches Ok(Some(v)) && pool_is(strs(v@), export_scope_after(rows_view(decks@), strs(ids@), ids@.len() as nat))
            },
        },
{
    let ids = match selected_ids {
        Some(ids) => ids,
        None => return Ok(None),
    };
    if ids.len() == 0 {
        return Ok(None);
    }
    let ghost dv = rows_view(decks@);
    let ghost roots = strs(ids@);
    let none: Vec<String> = Vec::new();
    let mut scope: Vec<String> = Vec::new();
    assert(pool_is(strs(scope@), export_scope_after(dv, roots, 0)));
    let mut k: usize = 0;
    while k < ids.len()
        invariant
            k <= ids.len(),
            selected_ids == Some(ids),
            ids@.len() > 0,
            dv == rows_view(decks@),
            roots == strs(ids@),
            none@.len() == 0,
            pool_is(strs(scope@), export_scope_after(dv, roots, k as nat)),
            forall|i: int| 0 <= i < k ==> !(deck_parent(dv, #[trigger] roots[i]) is Some && walk_meets_missing(
                dv, roots[i], Seq::empty(), (dv.len() + 1) as nat)),
        decreases ids.len() - k,
    {
        assert(roots[k as int] == ids@[k as int]@);
        let ghost prev = export_scope_after(dv, roots, k as nat);
        if deck_parent_exec(decks, &ids[k]).is_some() {
            assert(strs(none@) =~= Seq::<Seq<char>>::empty());
            assert(pool_is(strs(none@), Set::<Seq<char>>::empty()));
            let fresh = fresh_reach_exec(decks, &none, Ghost(Set::empty()), &ids[k]);
            let walked = match walk_up_exec(decks, &ids[k]) {
                Some(w) => w,
                None => {
                    proof {
                        assert(dv.len() == decks@.len());
                        assert(deck_parent(dv, roots[k as int]) is Some);
                        assert(walk_meets_missing(dv, roots[k as int], Seq::empty(), (dv.len() + 1) as nat));
                        assert(export_meets_missing(dv, roots));
                    }
                    return Err(crate::text::owned("Query returned no rows"));
                },
            };
            let ghost s0 = strs(scope@);
            let mut fr = fresh;
            let mut an = walked;
            scope.append(&mut fr);
            scope.append(&mut an);
            proof {
                assert(strs(scope@) =~= s0 + strs(fresh@) + strs(walked@));
                let next = export_scope_after(dv, roots, (k + 1) as nat);
                assert forall|x: Seq<char>| #[trigger] strs(scope@).contains(x) <==> next.contains(x) by {
                    if strs(scope@).contains(x) {
                        let i = choose|i: int| 0 <= i < strs(scope@).len() && strs(scope@)[i] == x;
                        if i < s0.len() {
                            assert(s0.contains(x));
                        } else if i < s0.len() + strs(fresh@).len() {
                            assert(strs(fresh@).contains(x));
                        } else {
                            assert(strs(walked@).contains(x));
                        }
                    }
                    if next.contains(x) {
                        if prev.contains(x) {
                            assert(s0.contains(x));
                            let i = choose|i: int| 0 <= i < s0.len() && s0[i] == x;
                            assert(strs(scope@)[i] == x);
                        } else if fresh_reach(dv, Set::empty(), roots[k as int], x, dv.len() as nat) {
                            assert(strs(fresh@).contains(x));
                            let i = choose|i: int| 0 <= i < strs(fresh@).len() && strs(fresh@)[i] == x;
                            assert(strs(scope@)[s0.len() + i] == x);
                        } else {
                            assert(strs(walked@).contains(x));
                            let i = choose|i: int| 0 <= i < strs(walked@).len() && strs(walked@)[i] == x;
                            assert(strs(scope@)[s0.len() + strs(fresh@).len() + i] == x);
                        }
                    }
                }
            }
        } else {
            assert(export_scope_after(dv, roots, (k + 1) as nat) == prev);
        }
        k += 1;
    }
    proof {
        assert(!export_meets_missing(dv, roots));
    }
    Ok(Some(scope))
}

fn chain_ends_exec(decks: &Vec<Row>, id: &String) -> (b: bool)
    ensures
        b == chain_ends(rows_view(decks@), id@, (decks@.len() + 1) as nat),
{
    let ghost dv = rows_view(decks@);
    let mut cur = id.clone();
    let mut fuel: usize = decks.len();
    loop
        invariant
            dv == rows_view(decks@),
            chain_ends(dv, id@, (decks@.len() + 1) as nat) == chain_ends(dv, cur@, (fuel + 1) as nat),
        decreases fuel,
    {
        match deck_parent_exec(decks, &cur) {
            Some(Some(p)) => {
                if fuel == 0 {
                    assert(!chain_ends(dv, p@, 0));
                    return false;
                }
                cur = p;
                fuel -= 1;
            },
            _ => {
                return true;
            },
        }
    }
}

/// Whether following parents up from each selected deck comes to an end
/// (the walk up from a deck on a cycle of parents never does).
pub fn selection_chains_end(decks: &Vec<Row>, ids: &Vec<String>) -> (b: bool)
    ensures
        b == forall|i: int| 0 <= i < ids@.len() ==> chain_ends(rows_view(decks@), #[trigger] ids@[i]@, (decks@.len() + 1) as nat),
{
    let mut i: usize = 0;
    while i < ids.len()
        invariant
            i <= ids.len(),
            forall|j: int| 0 <= j < i ==> chain_ends(rows_view(decks@), #[trigger] ids@[j]@, (decks@.len() + 1) as nat),
        decreases ids.len() - i,
    {
        if !chain_ends_exec(decks, &ids[i]) {
            return false;
        }
        i += 1;
    }
    true
}

// ---------------------------------------------------------------------------
// Payload format and the decks a payload lists
// ---------------------------------------------------------------------------

pub const FORMAT_CONTENT_V1: &'static str = "samsmrti-content-v1";

pub const FORMAT_LEGACY_BACKUP_V1: &'static str = "samsmrti-backup-v1";

pub const FORMAT_DECK_UNDO_V1: &'static str = "samsmrti-deck-undo-v1";

/// The message for a payload of a format that is not read.
pub open spec fn unsupported_format_message(f: Seq<char>) -> Seq<char> {
    "Unsupported export format: "@ + f
}

/// Whether a payload's `format` field allows reading it as content.
pub open spec fn spec_check_format(format: Option<Seq<char>>) -> Result<(), Seq<char>> {
    match format {
        None => Err("Missing format field"@),
        Some(f) => if f == FORMAT_CONTENT_V1@ || f == FORMAT_LEGACY_BACKUP_V1@ {
            Ok(())
        } else {
            Err(unsupported_format_message(f))
        },
    }
}

/// Accepts the content format and the older full-backup format.
pub fn check_format(format: Option<&str>) -> (r: Result<(), String>)
    ensures
        match (r, spec_check_format(match format { Some(f) => Some(f@), None => None })) {
            (Ok(()), Ok(())) => true,
            (Err(m), Err(e)) => m@ == e,
            _ => false,
        },
{
    match format {
        None => Err(owned("Missing format field")),
        Some(f) => {
            if crate::text::same_text(f, FORMAT_CONTENT_V1) || crate::text::same_text(f, FORMAT_LEGACY_BACKUP_V1) {
                Ok(())
            } else {
                let mut m: Vec<char> = Vec::new();
                push_str(&mut m, "Unsupported export format: ");
                push_str(&mut m, f);
                Err(string_of(&m))
            }
        },
    }
}

/// A deck as a payload lists it, with the notes in it and its subdecks.
pub struct ContentDeckPreview {
    pub id: String,
    pub name: String,
    pub parent_id: Option<String>,
    pub note_count: usize,
}

/// (id, name, parent id, note count)
pub type PreviewView = (Seq<char>, Seq<char>, Option<Seq<char>>, int);

pub open spec fn opt_view(o: Option<String>) -> Option<Seq<char>> {
    match o {
        Some(s) => Some(s@),
        None => None,
    }
}

impl View for ContentDeckPreview {
    type V = PreviewView;

    open spec fn view(&self) -> PreviewView {
        (self.id@, self.name@, opt_view(self.parent_id), self.note_count as int)
    }
}

pub open spec fn previews_view(v: Seq<ContentDeckPreview>) -> Seq<PreviewView> {
    v.map_values(|p: ContentDeckPreview| p@)
}

/// Every row has a string field `name`.
pub open spec fn all_have(rows: Seq<RowView>, name: Seq<char>) -> bool {
    forall|i: int| 0 <= i < rows.len() ==> (#[trigger] field(rows[i], name)) is Some
}

pub open spec fn field_or_empty(row: RowView, name: Seq<char>) -> Seq<char> {
    match field(row, name) {
        Some(v) => v,
        None => Seq::empty(),
    }
}

/// The ids of the deck rows, in order.
pub open spec fn row_ids(decks: Seq<RowView>) -> Seq<Seq<char>> {
    decks.map_values(|r: RowView| field_or_empty(r, "id"@))
}

/// Each deck row's id with its parent field.
pub open spec fn row_parents(decks: Seq<RowView>) -> Seq<(Seq<char>, Option<Seq<char>>)> {
    decks.map_values(|r: RowView| (field_or_empty(r, "id"@), field(r, "parent_id"@)))
}

/// How many rows hold `v` in field `name`.
pub open spec fn count_with(rows: Seq<RowView>, name: Seq<char>, v: Seq<char>) -> nat
    decreases rows.len(),
{
    if rows.len() == 0 {
        0
    } else {
        count_with(rows.drop_last(), name, v) + if field(rows.last(), name) == Some(v) { 1nat } else { 0nat }
    }
}

/// Each listed deck with the number of notes filed directly in it.
pub open spec fn direct_notes(notes: Option<Seq<RowView>>, ids: Seq<Seq<char>>) -> Seq<(Seq<char>, Counts)> {
    ids.map_values(|id: Seq<char>| (id, (match notes {
        Some(n) => count_with(n, "deck_id"@, id) as int,
        None => 0int,
    }, 0int, 0int)))
}

/// The notes of a listed deck and of all decks below it.
pub open spec fn rolled_notes(decks: Seq<RowView>, notes: Option<Seq<RowView>>, id: Seq<char>) -> int {
    rollup(row_ids(decks), row_parents(decks), direct_notes(notes, row_ids(decks)), id, decks.len()).0
}

/// The preview of deck row `i`; a deck's parent is the one that the last
/// row with its id gives.
pub open spec fn preview_at(decks: Seq<RowView>, notes: Option<Seq<RowView>>, i: int) -> PreviewView {
    let id = field_or_empty(decks[i], "id"@);
    (
        id,
        match field(decks[i], "name"@) {
            Some(n) => n,
            None => "(unnamed)"@,
        },
        match parent_lookup(row_parents(decks), id) {
            Some(p) => p,
            None => None,
        },
        rolled_notes(decks, notes, id),
    )
}

/// Where a stable insertion puts an item named `x`: after every item whose
/// name is not greater.
pub open spec fn first_after(r: Seq<PreviewView>, x: Seq<char>) -> int
    decreases r.len(),
{
    if r.len() == 0 {
        0
    } else if text_lt(x, r[0].1) {
        0
    } else {
        1 + first_after(r.drop_first(), x)
    }
}

/// Sorted by name; items with equal names keep their order.
pub open spec fn sort_by_name(s: Seq<PreviewView>) -> Seq<PreviewView>
    decreases s.len(),
{
    if s.len() == 0 {
        Seq::empty()
    } else {
        let r = sort_by_name(s.drop_last());
        r.insert(first_after(r, s.last().1), s.last())
    }
}

/// The deck list of a payload, or the error it gives.
pub open spec fn spec_list_decks(
    format: Option<Seq<char>>,
    decks: Option<Seq<RowView>>,
    notes: Option<Seq<RowView>>,
) -> Result<Seq<PreviewView>, Seq<char>> {
    match spec_check_format(format) {
        Err(e) => Err(e),
        Ok(()) => match decks {
            None => Err("Missing decks array"@),
            Some(d) => if !all_have(d, "id"@) {
                Err("Deck missing id"@)
            } else {
                Ok(sort_by_name(Seq::new(d.len(), |i: int| preview_at(d, notes, i))))
            },
        },
    }
}

pub open spec fn opt_rows(r: Option<&Vec<Row>>) -> Option<Seq<RowView>> {
    match r {
        Some(v) => Some(rows_view(v@)),
        None => None,
    }
}

fn count_notes_in(notes: &Vec<Row>, id: &String) -> (n: usize)
    ensures
        n as nat == count_with(rows_view(notes@), "deck_id"@, id@),
        n <= notes@.len(),
{
    let ghost nv = rows_view(notes@);
    let mut n: usize = 0;
    let mut j: usize = 0;
    while j < notes.len()
        invariant
            j <= notes.len(),
            nv == rows_view(notes@),
            n <= j,
            n as nat == count_with(nv.take(j as int), "deck_id"@, id@),
        decreases notes.len() - j,
    {
        proof {
            assert(nv.take(j + 1).drop_last() =~= nv.take(j as int));
            assert(nv[j as int] == row_view(notes@[j as int]));
        }
        match field_exec(&notes[j], "deck_id") {
            Some(v) => {
                if v == *id {
                    n += 1;
                }
            },
            None => {},
        }
        j += 1;
    }
    assert(nv.take(notes.len() as int) =~= nv);
    n
}

/// Inserts `p` after every preview whose name is not greater than its name.
fn insert_by_name(out: &mut Vec<ContentDeckPreview>, p: ContentDeckPreview)
    ensures
        previews_view(final(out)@) == previews_view(old(out)@).insert(first_after(previews_view(old(out)@), p.name@), p@),
{
    let ghost ov = previews_view(out@);
    let mut j: usize = 0;
    assert(ov.skip(0) =~= ov);
    while j < out.len() && !text_less(p.name.as_str(), out[j].name.as_str())
        invariant
            j <= out.len(),
            out@ == old(out)@,
            ov == previews_view(out@),
            first_after(ov, p.name@) == j + first_after(ov.skip(j as int), p.name@),
        decreases out.len() - j,
    {
        proof {
            assert(ov.skip(j as int)[0] == out@[j as int]@);
            assert(ov.skip(j as int).drop_first() =~= ov.skip(j + 1));
        }
        j += 1;
    }
    proof {
        if j < out.len() {
            assert(ov.skip(j as int)[0] == out@[j as int]@);
        }
    }
    let ghost pv = p@;
    out.insert(j, p);
    assert(previews_view(out@) =~= ov.insert(j as int, pv));
}

/// The decks of a content payload (its `format`, `decks` and `notes`),
/// sorted by name, each with the notes in it and in its subdecks.
pub fn list_decks_from_payload(
    format: Option<&str>,
    decks: Option<&Vec<Row>>,
    notes: Option<&Vec<Row>>,
) -> (r: Result<Vec<ContentDeckPreview>, String>)
    requires
        match notes {
            Some(n) => n@.len() <= i64::MAX,
            None => true,
        },
        match decks {
            Some(d) => all_have(rows_view(d@), "id"@) ==> forall|i: int| 0 <= i < d@.len() ==> {
                let v = #[trigger] rolled_notes(rows_view(d@), opt_rows(notes), row_ids(rows_view(d@))[i]);
                v <= i64::MAX && v <= usize::MAX
            },
            None => true,
        },
    ensures
        match (r, spec_list_decks(match format { Some(f) => Some(f@), None => None }, opt_rows(decks), opt_rows(notes))) {
            (Ok(v), Ok(s)) => previews_view(v@) == s,
            (Err(m), Err(e)) => m@ == e,
            _ => false,
        },
{
    match check_format(format) {
        Err(e) => return Err(e),
        Ok(()) => {},
    }
    let d = match decks {
        Some(d) => d,
        None => return Err(owned("Missing decks array")),
    };
    let ghost dv = rows_view(d@);
    let ghost nv = opt_rows(notes);
    let ghost fmt = match format { Some(f) => Some(f@), None => None };
    assert(opt_rows(decks) == Some(dv));
    // deck ids and parents, failing on a deck without an id
    let mut ids: Vec<String> = Vec::new();
    let mut parents: Vec<(String, Option<String>)> = Vec::new();
    let mut i: usize = 0;
    while i < d.len()
        invariant
            i <= d.len(),
            dv == rows_view(d@),
            opt_rows(decks) == Some(dv),
            nv == opt_rows(notes),
            fmt == (match format { Some(f) => Some(f@), None => None::<Seq<char>> }),
            spec_check_format(fmt) is Ok,
            ids@.len() == i,
            parents@.len() == i,
            forall|k: int| 0 <= k < i ==> (#[trigger] field(dv[k], "id"@)) is Some,
            str_view(ids@) == row_ids(dv).take(i as int),
            parents_view(parents@) == row_parents(dv).take(i as int),
        decreases d.len() - i,
    {
        assert(dv[i as int] == row_view(d@[i as int]));
        let id = match field_exec(&d[i], "id") {
            Some(id) => id,
            None => {
                assert(field(dv[i as int], "id"@) is None);
                assert(!all_have(dv, "id"@));
                return Err(owned("Deck missing id"));
            },
        };
        let par = field_exec(&d[i], "parent_id");
        let ghost pv = opt_view(par);
        ids.push(id.clone());
        parents.push((id, par));
        proof {
            assert(str_view(ids@) =~= row_ids(dv).take(i + 1));
            assert(parents_view(parents@)[i as int] == row_parents(dv)[i as int]);
            assert(parents_view(parents@) =~= row_parents(dv).take(i + 1));
        }
        i += 1;
    }
    proof {
        assert(str_view(ids@) =~= row_ids(dv));
        assert(parents_view(parents@) =~= row_parents(dv));
        assert(all_have(dv, "id"@));
    }
    // notes filed directly in each listed deck
    let mut direct: Vec<(String, usize)> = Vec::new();
    let mut k: usize = 0;
    while k < ids.len()
        invariant
            k <= ids.len(),
            ids@.len() == d@.len(),
            str_view(ids@) == row_ids(dv),
            nv == opt_rows(notes),
            match notes {
                Some(n) => n@.len() <= i64::MAX,
                None => true,
            },
            direct@.len() == k,
            forall|j: int| 0 <= j < k ==> (#[trigger] direct@[j]).1 <= i64::MAX,
            note_counts_view(direct@) == direct_notes(nv, str_view(ids@)).take(k as int),
        decreases ids.len() - k,
    {
        let c: usize = match notes {
            Some(n) => count_notes_in(n, &ids[k]),
            None => 0,
        };
        direct.push((ids[k].clone(), c));
        assert(note_counts_view(direct@) =~= direct_notes(nv, str_view(ids@)).take(k + 1));
        k += 1;
    }
    assert(note_counts_view(direct@) =~= direct_notes(nv, str_view(ids@)));
    proof {
        assert forall|j: int| 0 <= j < ids@.len() implies #[trigger] rollup(
            str_view(ids@), parents_view(parents@), note_counts_view(direct@), ids@[j]@, ids@.len() as nat,
        ).0 <= i64::MAX && rollup(
            str_view(ids@), parents_view(parents@), note_counts_view(direct@), ids@[j]@, ids@.len() as nat,
        ).0 <= usize::MAX by {
            assert(ids@[j]@ == row_ids(dv)[j]);
            let v = rolled_notes(dv, nv, row_ids(dv)[j]);
        }
    }
    let rolled = rollup_note_counts(&ids, &parents, &direct);
    // one preview per deck row, inserted in name order
    let mut out: Vec<ContentDeckPreview> = Vec::new();
    let mut m: usize = 0;
    while m < d.len()
        invariant
            m <= d.len(),
            dv == rows_view(d@),
            nv == opt_rows(notes),
            all_have(dv, "id"@),
            ids@.len() == d@.len(),
            str_view(ids@) == row_ids(dv),
            parents_view(parents@) == row_parents(dv),
            note_counts_view(direct@) == direct_notes(nv, row_ids(dv)),
            rolled@.len() == ids@.len(),
            forall|j: int| 0 <= j < rolled@.len() ==> (#[trigger] rolled@[j]).0@ == ids@[j]@ && rolled@[j].1 as int
                == rollup(str_view(ids@), parents_view(parents@), note_counts_view(direct@), ids@[j]@, ids@.len() as nat).0,
            previews_view(out@) == sort_by_name(Seq::new(d@.len() as nat, |i: int| preview_at(dv, nv, i)).take(m as int)),
        decreases d.len() - m,
    {
        assert(dv[m as int] == row_view(d@[m as int]));
        assert(ids@[m as int]@ == row_ids(dv)[m as int]);
        let name = match field_exec(&d[m], "name") {
            Some(n) => n,
            None => owned("(unnamed)"),
        };
        let parent_id = match lookup_parent(&parents, &ids[m]) {
            Some(p) => p,
            None => None,
        };
        let p = ContentDeckPreview { id: ids[m].clone(), name, parent_id, note_count: rolled[m].1 };
        proof {
            let all = Seq::new(d@.len() as nat, |i: int| preview_at(dv, nv, i));
            assert(all.take(m + 1).drop_last() =~= all.take(m as int));
            assert(all.take(m + 1).last() == all[m as int]);
            assert(p@ == preview_at(dv, nv, m as int));
        }
        insert_by_name(&mut out, p);
        m += 1;
    }
    proof {
        let all = Seq::new(d@.len() as nat, |i: int| preview_at(dv, nv, i));
        assert(all.take(d@.len() as int) =~= all);
    }
    Ok(out)
}

/// The parent recorded for `id` by the last entry with that id.
fn lookup_parent(parents: &Vec<(String, Option<String>)>, id: &String) -> (r: Option<Option<String>>)
    ensures
        match r {
            None => parent_lookup(parents_view(parents@), id@) is None,
            Some(p) => parent_lookup(parents_view(parents@), id@) == Some(opt_view(p)),
        },
{
    let ghost pv = parents_view(parents@);
    let mut out: Option<Option<String>> = None;
    let mut j: usize = 0;
    while j < parents.len()
        invariant
            j <= parents.len(),
            pv == parents_view(parents@),
            match out {
                None => parent_lookup(pv.take(j as int), id@) is None,
                Some(p) => parent_lookup(pv.take(j as int), id@) == Some(opt_view(p)),
            },
        decreases parents.len() - j,
    {
        proof {
            assert(pv.take(j + 1).drop_last() =~= pv.take(j as int));
            assert(pv.take(j + 1).last() == pv[j as int]);
        }
        if parents[j].0 == *id {
            out = Some(parents[j].1.clone());
            assert(opt_view(parents@[j as int].1) == pv[j as int].1);
        }
        j += 1;
    }
    assert(pv.take(parents.len() as int) =~= pv);
    out
}

// ---------------------------------------------------------------------------
// The order in which decks are inserted
// ---------------------------------------------------------------------------

/// The parent that a deck row names (an empty parent id names none).
pub open spec fn parent_ref(row: RowView) -> Option<Seq<char>> {
    match field(row, "parent_id"@) {
        Some(p) => if p.len() == 0 {
            None
        } else {
            Some(p)
        },
        None => None,
    }
}

/// One pass over the decks still waiting (positions `rem`, in order): a
/// deck whose parent is none or already inserted is inserted (and its id
/// recorded at once), the others wait for the next pass. Gives the decks
/// inserted, the ids inserted so far, and the decks left.
pub open spec fn place_pass(decks: Seq<RowView>, inserted: Seq<Seq<char>>, rem: Seq<int>) -> (Seq<int>, Seq<Seq<char>>, Seq<int>)
    decreases rem.len(),
{
    if rem.len() == 0 {
        (Seq::empty(), inserted, Seq::empty())
    } else {
        let d = decks[rem[0]];
        let can = match parent_ref(d) {
            None => true,
            Some(p) => inserted.contains(p),
        };
        if can {
            let ins = match field(d, "id"@) {
                Some(id) => inserted.push(id),
                None => inserted,
            };
            let r = place_pass(decks, ins, rem.drop_first());
            (seq![rem[0]] + r.0, r.1, r.2)
        } else {
            let r = place_pass(decks, inserted, rem.drop_first());
            (r.0, r.1, seq![rem[0]] + r.2)
        }
    }
}

/// At most `n` more passes; whatever still waits then goes last.
pub open spec fn place_rounds(decks: Seq<RowView>, sorted: Seq<int>, inserted: Seq<Seq<char>>, rem: Seq<int>, n: nat) -> Seq<int>
    decreases n,
{
    if n == 0 || rem.len() == 0 {
        sorted + rem
    } else {
        let r = place_pass(decks, inserted, rem);
        place_rounds(decks, sorted + r.0, r.1, r.2, (n - 1) as nat)
    }
}

pub open spec fn all_positions(n: nat) -> Seq<int> {
    Seq::new(n, |i: int| i)
}

/// The insertion order of the deck rows: one more pass than there are decks.
pub open spec fn parent_first_order(decks: Seq<RowView>) -> Seq<int> {
    place_rounds(decks, Seq::empty(), Seq::empty(), all_positions(decks.len()), (decks.len() + 1) as nat)
}

fn place_pass_exec(decks: &Vec<Row>, inserted: &mut Vec<String>, rem: &Vec<usize>) -> (r: (Vec<usize>, Vec<usize>))
    requires
        forall|k: int| 0 <= k < rem@.len() ==> #[trigger] rem@[k] < decks@.len(),
    ensures
        (idx_view(r.0@), strs(final(inserted)@), idx_view(r.1@)) == place_pass(rows_view(decks@), strs(old(inserted)@), idx_view(rem@)),
        forall|k: int| 0 <= k < r.1@.len() ==> #[trigger] r.1@[k] < decks@.len(),
{
    let ghost dv = rows_view(decks@);
    let ghost rv = idx_view(rem@);
    let ghost whole = place_pass(dv, strs(inserted@), rv);
    let mut placed: Vec<usize> = Vec::new();
    let mut left: Vec<usize> = Vec::new();
    let mut j: usize = 0;
    assert(rv.skip(0) =~= rv);
    assert(idx_view(placed@) + place_pass(dv, strs(inserted@), rv.skip(0)).0 =~= whole.0);
    assert(idx_view(left@) + place_pass(dv, strs(inserted@), rv.skip(0)).2 =~= whole.2);
    while j < rem.len()
        invariant
            j <= rem.len(),
            dv == rows_view(decks@),
            rv == idx_view(rem@),
            forall|k: int| 0 <= k < rem@.len() ==> #[trigger] rem@[k] < decks@.len(),
            forall|k: int| 0 <= k < left@.len() ==> #[trigger] left@[k] < decks@.len(),
            whole.0 == idx_view(placed@) + place_pass(dv, strs(inserted@), rv.skip(j as int)).0,
            whole.1 == place_pass(dv, strs(inserted@), rv.skip(j as int)).1,
            whole.2 == idx_view(left@) + place_pass(dv, strs(inserted@), rv.skip(j as int)).2,
        decreases rem.len() - j,
    {
        let ghost ins0 = strs(inserted@);
        let ghost tail = rv.skip(j as int);
        let ghost pl0 = idx_view(placed@);
        let ghost lf0 = idx_view(left@);
        let pos = rem[j];
        proof {
            assert(tail[0] == pos as int);
            assert(tail.drop_first() =~= rv.skip(j + 1));
            assert(dv[pos as int] == row_view(decks@[pos as int]));
        }
        let pf = field_exec(&decks[pos], "parent_id");
        let can = match pf {
            Some(p) => {
                let pc = chars_of(p.as_str());
                let empty = pc.len() == 0;
                if empty {
                    true
                } else {
                    pool_contains(inserted, &p)
                }
            },
            None => true,
        };
        assert(can == match parent_ref(dv[pos as int]) {
            None => true,
            Some(p) => ins0.contains(p),
        });
        if can {
            match field_exec(&decks[pos], "id") {
                Some(id) => {
                    inserted.push(id);
                    assert(strs(inserted@) =~= ins0.push(strs(inserted@).last()));
                },
                None => {},
            }
            placed.push(pos);
            assert(idx_view(placed@) =~= pl0.push(pos as int));
            assert(idx_view(placed@) + place_pass(dv, strs(inserted@), rv.skip(j + 1)).0 =~= pl0 + place_pass(dv, ins0, tail).0);
            assert(idx_view(left@) + place_pass(dv, strs(inserted@), rv.skip(j + 1)).2 =~= lf0 + place_pass(dv, ins0, tail).2);
        } else {
            left.push(pos);
            assert(idx_view(left@) =~= lf0.push(pos as int));
            assert(idx_view(left@) + place_pass(dv, strs(inserted@), rv.skip(j + 1)).2 =~= lf0 + place_pass(dv, ins0, tail).2);
            assert(idx_view(placed@) + place_pass(dv, strs(inserted@), rv.skip(j + 1)).0 =~= pl0 + place_pass(dv, ins0, tail).0);
        }
        j += 1;
    }
    proof {
        assert(rv.skip(rem.len() as int) =~= Seq::<int>::empty());
        assert(idx_view(placed@) =~= whole.0);
        assert(idx_view(left@) =~= whole.2);
    }
    (placed, left)
}

/// The positions of the deck rows in the order they are inserted: a deck
/// goes in once its parent has gone in, pass after pass; decks whose
/// parent never goes in come last, in their order.
pub fn sort_decks_parent_first(decks: &Vec<Row>) -> (r: Vec<usize>)
    requires
        decks@.len() < usize::MAX,
    ensures
        idx_view(r@) == parent_first_order(rows_view(decks@)),
{
    let ghost dv = rows_view(decks@);
    let ghost total = parent_first_order(dv);
    let mut remaining: Vec<usize> = Vec::new();
    let mut i: usize = 0;
    while i < decks.len()
        invariant
            i <= decks.len(),
            remaining@.len() == i,
            forall|k: int| 0 <= k < i ==> #[trigger] remaining@[k] == k,
        decreases decks.len() - i,
    {
        remaining.push(i);
        i += 1;
    }
    assert(idx_view(remaining@) =~= all_positions(dv.len()));
    let mut sorted: Vec<usize> = Vec::new();
    let mut inserted: Vec<String> = Vec::new();
    let passes: usize = decks.len() + 1;
    let mut round: usize = 0;
    assert(idx_view(sorted@) =~= Seq::<int>::empty());
    assert(strs(inserted@) =~= Seq::<Seq<char>>::empty());
    while round < passes && remaining.len() > 0
        invariant
            round <= passes,
            passes == decks@.len() + 1,
            dv == rows_view(decks@),
            forall|k: int| 0 <= k < remaining@.len() ==> #[trigger] remaining@[k] < decks@.len(),
            total == place_rounds(dv, idx_view(sorted@), strs(inserted@), idx_view(remaining@), (passes - round) as nat),
        decreases passes - round,
    {
        let (mut placed, left) = place_pass_exec(decks, &mut inserted, &remaining);
        let ghost s0 = idx_view(sorted@);
        let ghost p0 = idx_view(placed@);
        sorted.append(&mut placed);
        assert(idx_view(sorted@) =~= s0 + p0);
        remaining = left;
        round += 1;
    }
    let ghost s0 = idx_view(sorted@);
    let ghost r0 = idx_view(remaining@);
    let mut rest = remaining;
    sorted.append(&mut rest);
    assert(idx_view(sorted@) =~= s0 + r0);
    sorted
}

// ---------------------------------------------------------------------------
// Import and export summaries
// ---------------------------------------------------------------------------

pub struct ContentExportSummary {
    pub path: String,
    pub decks: usize,
    pub notes: usize,
    pub cards: usize,
    pub entities: usize,
    pub triples: usize,
}

pub struct ContentImportSummary {
    pub decks_added: usize,
    pub notes_added: usize,
    pub cards_added: usize,
    pub entities_added: usize,
    pub triples_added: usize,
    pub rows_skipped: usize,
    pub warnings: Vec<String>,
}

impl ContentImportSummary {
    /// Nothing added or skipped yet.
    pub fn new() -> (s: ContentImportSummary)
        ensures
            s.decks_added == 0,
            s.notes_added == 0,
            s.cards_added == 0,
            s.entities_added == 0,
            s.triples_added == 0,
            s.rows_skipped == 0,
            s.warnings@.len() == 0,
    {
        ContentImportSummary {
            decks_added: 0,
            notes_added: 0,
            cards_added: 0,
            entities_added: 0,
            triples_added: 0,
            rows_skipped: 0,
            warnings: Vec::new(),
        }
    }
}

/// What inserting one row gave: how many rows the store changed, or the
/// store's error message.
pub open spec fn insert_outcome_added(outcome: Result<usize, String>) -> bool {
    match outcome {
        Ok(n) => n > 0,
        Err(_) => false,
    }
}

/// Books one row's insert (`INSERT OR IGNORE`): an inserted row counts as
/// added (the returned flag), an ignored one as skipped, and a failure
/// becomes the warning "<table>: <error>". Only the skipped count and the
/// warnings of the summary change.
pub fn record_insert(summary: &mut ContentImportSummary, table: &str, outcome: Result<usize, String>) -> (added: bool)
    requires
        old(summary).rows_skipped < usize::MAX,
    ensures
        added == insert_outcome_added(outcome),
        final(summary).rows_skipped == old(summary).rows_skipped + (match outcome {
            Ok(n) => if n == 0 { 1int } else { 0int },
            Err(_) => 0int,
        }),
        strs(final(summary).warnings@) == match outcome {
            Err(e) => strs(old(summary).warnings@).push(table@ + ": "@ + e@),
            Ok(_) => strs(old(summary).warnings@),
        },
        final(summary).decks_added == old(summary).decks_added,
        final(summary).notes_added == old(summary).notes_added,
        final(summary).cards_added == old(summary).cards_added,
        final(summary).entities_added == old(summary).entities_added,
        final(summary).triples_added == old(summary).triples_added,
{
    match outcome {
        Ok(n) => {
            if n > 0 {
                true
            } else {
                summary.rows_skipped = summary.rows_skipped + 1;
                false
            }
        },
        Err(e) => {
            let mut m: Vec<char> = Vec::new();
            push_str(&mut m, table);
            push_str(&mut m, ": ");
            push_str(&mut m, e.as_str());
            let ghost before = strs(summary.warnings@);
            let w = string_of(&m);
            let ghost wv = w@;
            summary.warnings.push(w);
            assert(strs(summary.warnings@) =~= before.push(wv));
            false
        },
    }
}

/// Whether a deck undo snapshot can be restored: its format must be the
/// deck undo format and it must hold the content.
pub open spec fn spec_check_undo_snapshot(format: Option<Seq<char>>, has_content: bool) -> Result<(), Seq<char>> {
    match format {
        None => Err("Missing format field"@),
        Some(f) => if f != FORMAT_DECK_UNDO_V1@ {
            Err("Unsupported deck undo format: "@ + f)
        } else if !has_content {
            Err("Missing content in deck undo snapshot"@)
        } else {
            Ok(())
        },
    }
}

pub fn check_undo_snapshot(format: Option<&str>, has_content: bool) -> (r: Result<(), String>)
    ensures
        match (r, spec_check_undo_snapshot(match format { Some(f) => Some(f@), None => None }, has_content)) {
            (Ok(()), Ok(())) => true,
            (Err(e), Err(m)) => e@ == m,
            _ => false,
        },
{
    match format {
        None => Err(owned("Missing format field")),
        Some(f) => {
            if !crate::text::same_text(f, FORMAT_DECK_UNDO_V1) {
                let mut m: Vec<char> = Vec::new();
                push_str(&mut m, "Unsupported deck undo format: ");
                push_str(&mut m, f);
                Err(string_of(&m))
            } else if !has_content {
                Err(owned("Missing content in deck undo snapshot"))
            } else {
                Ok(())
            }
        },
    }
}

/// The ids of the cards of a content payload, in order (cards without a
/// string id are left out).
pub fn scoped_card_ids_from_content(cards: Option<&Vec<Row>>) -> (r: Vec<String>)
    ensures
        strs(r@) == match cards {
            Some(c) => pool_of(rows_view(c@), all_positions(c@.len()), "id"@),
            None => Seq::empty(),
        },
{
    let mut out: Vec<String> = Vec::new();
    match cards {
        None => {
            assert(strs(out@) =~= Seq::<Seq<char>>::empty());
            out
        },
        Some(c) => {
            let ghost cv = rows_view(c@);
            let ghost all = all_positions(c@.len());
            let mut i: usize = 0;
            while i < c.len()
                invariant
                    i <= c.len(),
                    cv == rows_view(c@),
                    all == all_positions(c@.len()),
                    strs(out@) == pool_of(cv, all.take(i as int), "id"@),
                decreases c.len() - i,
            {
                assert(all.take(i + 1).drop_last() =~= all.take(i as int));
                assert(all.take(i + 1).last() == i as int);
                assert(cv[i as int] == row_view(c@[i as int]));
                match field_exec(&c[i], "id") {
                    Some(id) => {
                        let ghost before = strs(out@);
                        let ghost iv = id@;
                        out.push(id);
                        assert(strs(out@) =~= before.push(iv));
                    },
                    None => {},
                }
                i += 1;
            }
            assert(all.take(c.len() as int) =~= all);
            out
        },
    }
}

// ---------------------------------------------------------------------------
// Laws of the orders
// ---------------------------------------------------------------------------

/// No preview comes after one whose name is greater.
pub open spec fn name_sorted(s: Seq<PreviewView>) -> bool {
    forall|i: int, j: int| 0 <= i < j < s.len() ==> !text_lt(#[trigger] s[j].1, #[trigger] s[i].1)
}

proof fn lemma_first_after(r: Seq<PreviewView>, x: Seq<char>)
    ensures
        0 <= first_after(r, x) <= r.len(),
        forall|k: int| 0 <= k < first_after(r, x) ==> !text_lt(x, #[trigger] r[k].1),
        first_after(r, x) < r.len() ==> text_lt(x, r[first_after(r, x)].1),
    decreases r.len(),
{
    if r.len() > 0 && !text_lt(x, r[0].1) {
        let t = r.drop_first();
        lemma_first_after(t, x);
        assert forall|k: int| 0 <= k < first_after(r, x) implies !text_lt(x, #[trigger] r[k].1) by {
            if k > 0 {
                assert(r[k] == t[k - 1]);
            }
        }
        if first_after(r, x) < r.len() {
            assert(r[first_after(r, x)] == t[first_after(t, x)]);
        }
    }
}

/// The decks a payload lists come sorted by name.
pub proof fn law_previews_sorted_by_name(s: Seq<PreviewView>)
    ensures
        name_sorted(sort_by_name(s)),
    decreases s.len(),
{
    if s.len() > 0 {
        law_previews_sorted_by_name(s.drop_last());
        let r = sort_by_name(s.drop_last());
        let x = s.last();
        let p = first_after(r, x.1);
        lemma_first_after(r, x.1);
        let out = r.insert(p, x);
        assert forall|i: int, j: int| 0 <= i < j < out.len() implies !text_lt(#[trigger] out[j].1, #[trigger] out[i].1) by {
            if j < p {
                assert(out[i] == r[i] && out[j] == r[j]);
            } else if j == p {
                assert(out[j] == x && out[i] == r[i]);
            } else if i < p {
                assert(out[i] == r[i] && out[j] == r[j - 1]);
            } else if i == p {
                assert(out[i] == x && out[j] == r[j - 1]);
                if text_lt(r[j - 1].1, x.1) {
                    crate::text::lemma_text_lt_transitive(r[j - 1].1, x.1, r[p].1);
                    if p == j - 1 {
                        crate::text::lemma_text_lt_irreflexive(r[p].1);
                    }
                }
            } else {
                assert(out[i] == r[i - 1] && out[j] == r[j - 1]);
            }
        }
        assert(out == sort_by_name(s));
    }
}

/// Sorting by name keeps every deck, once.
pub proof fn law_previews_kept(s: Seq<PreviewView>)
    ensures
        sort_by_name(s).to_multiset() == s.to_multiset(),
    decreases s.len(),
{
    if s.len() > 0 {
        law_previews_kept(s.drop_last());
        let r = sort_by_name(s.drop_last());
        let x = s.last();
        let p = first_after(r, x.1);
        lemma_first_after(r, x.1);
        vstd::seq_lib::to_multiset_insert(r, p, x);
        s.drop_last().to_multiset_ensures();
        assert(s =~= s.drop_last().push(x));
        assert(sort_by_name(s) == r.insert(p, x));
        assert(s.drop_last().push(x).to_multiset() =~= s.drop_last().to_multiset().insert(x));
        assert(sort_by_name(s).to_multiset() =~= s.to_multiset());
    } else {
        assert(sort_by_name(s) =~= s);
    }
}

proof fn lemma_place_pass_keeps(decks: Seq<RowView>, inserted: Seq<Seq<char>>, rem: Seq<int>)
    ensures
        place_pass(decks, inserted, rem).0.to_multiset().add(place_pass(decks, inserted, rem).2.to_multiset()) == rem.to_multiset(),
    decreases rem.len(),
{
    broadcast use vstd::multiset::group_multiset_axioms;
    if rem.len() == 0 {
        assert(place_pass(decks, inserted, rem).0 =~= Seq::<int>::empty());
        assert(place_pass(decks, inserted, rem).2 =~= Seq::<int>::empty());
        assert(rem =~= Seq::<int>::empty());
        Seq::<int>::empty().to_multiset_ensures();
        vstd::multiset::lemma_multiset_empty_len(Seq::<int>::empty().to_multiset());
    } else {
        let d = decks[rem[0]];
        let can = match parent_ref(d) {
            None => true,
            Some(p) => inserted.contains(p),
        };
        let ins = match field(d, "id"@) {
            Some(id) => inserted.push(id),
            None => inserted,
        };
        let tail = rem.drop_first();
        lemma_place_pass_keeps(decks, ins, tail);
        lemma_place_pass_keeps(decks, inserted, tail);
        vstd::seq_lib::lemma_multiset_commutative(seq![rem[0]], tail);
        assert(rem =~= seq![rem[0]] + tail);
        let r1 = place_pass(decks, ins, tail);
        let r2 = place_pass(decks, inserted, tail);
        if can {
            vstd::seq_lib::lemma_multiset_commutative(seq![rem[0]], r1.0);
            assert(place_pass(decks, inserted, rem).0 == seq![rem[0]] + r1.0);
            assert(place_pass(decks, inserted, rem).2 == r1.2);
        } else {
            vstd::seq_lib::lemma_multiset_commutative(seq![rem[0]], r2.2);
            assert(place_pass(decks, inserted, rem).0 == r2.0);
            assert(place_pass(decks, inserted, rem).2 == seq![rem[0]] + r2.2);
        }
        assert(place_pass(decks, inserted, rem).0.to_multiset().add(place_pass(decks, inserted, rem).2.to_multiset())
            =~= rem.to_multiset());
    }
}

proof fn lemma_place_rounds_keeps(decks: Seq<RowView>, sorted: Seq<int>, inserted: Seq<Seq<char>>, rem: Seq<int>, n: nat)
    ensures
        place_rounds(decks, sorted, inserted, rem, n).to_multiset() == sorted.to_multiset().add(rem.to_multiset()),
    decreases n,
{
    broadcast use vstd::multiset::group_multiset_axioms;
    if n == 0 || rem.len() == 0 {
        vstd::seq_lib::lemma_multiset_commutative(sorted, rem);
    } else {
        let r = place_pass(decks, inserted, rem);
        lemma_place_pass_keeps(decks, inserted, rem);
        lemma_place_rounds_keeps(decks, sorted + r.0, r.1, r.2, (n - 1) as nat);
        vstd::seq_lib::lemma_multiset_commutative(sorted, r.0);
        assert(place_rounds(decks, sorted, inserted, rem, n).to_multiset() =~= sorted.to_multiset().add(rem.to_multiset()));
    }
}

/// Importing the decks parent first inserts every deck row exactly once.
pub proof fn law_parent_first_keeps_decks(decks: Seq<RowView>)
    ensures
        parent_first_order(decks).to_multiset() == all_positions(decks.len()).to_multiset(),
{
    broadcast use vstd::multiset::group_multiset_axioms;
    lemma_place_rounds_keeps(decks, Seq::empty(), Seq::empty(), all_positions(decks.len()), (decks.len() + 1) as nat);
    Seq::<int>::empty().to_multiset_ensures();
    vstd::multiset::lemma_multiset_empty_len(Seq::<int>::empty().to_multiset());
    assert(parent_first_order(decks).to_multiset() =~= all_positions(decks.len()).to_multiset());
}

/// Following parents through the deck rows from row `x` reaches a deck
/// without a parent within `k` steps (some row carries each parent's id).
pub open spec fn roots_within(decks: Seq<RowView>, x: int, k: nat) -> bool
    decreases k,
{
    match parent_ref(decks[x]) {
        None => true,
        Some(p) => k > 0 && exists|y: int|
            0 <= y < decks.len() && #[trigger] field(decks[y], "id"@) == Some(p) && roots_within(decks, y, (k - 1) as nat),
    }
}

/// Some row at a position of `order` before `j` carries the id `p`.
pub open spec fn id_before(decks: Seq<RowView>, order: Seq<int>, j: int, p: Seq<char>) -> bool {
    exists|i: int| 0 <= i < j && #[trigger] field(decks[order[i]], "id"@) == Some(p)
}

/// Every row of `order` whose deck has a parent comes after a row that
/// carries the parent's id.
pub open spec fn parents_before(decks: Seq<RowView>, order: Seq<int>) -> bool {
    forall|j: int| 0 <= j < order.len() ==> match #[trigger] parent_ref(decks[order[j]]) {
        None => true,
        Some(p) => id_before(decks, order, j, p),
    }
}

pub open spec fn placeable(row: RowView, inserted: Seq<Seq<char>>) -> bool {
    match parent_ref(row) {
        None => true,
        Some(p) => inserted.contains(p),
    }
}

proof fn lemma_pool_concat(decks: Seq<RowView>, a: Seq<int>, b: Seq<int>, name: Seq<char>)
    ensures
        pool_of(decks, a + b, name) == pool_of(decks, a, name) + pool_of(decks, b, name),
    decreases b.len(),
{
    if b.len() == 0 {
        assert(a + b =~= a);
        assert(pool_of(decks, a, name) + pool_of(decks, b, name) =~= pool_of(decks, a, name));
    } else {
        lemma_pool_concat(decks, a, b.drop_last(), name);
        assert((a + b).drop_last() =~= a + b.drop_last());
        assert((a + b).last() == b.last());
        match field(decks[b.last()], name) {
            Some(v) => {
                assert(pool_of(decks, a, name) + pool_of(decks, b, name) =~= (pool_of(decks, a, name) + pool_of(decks, b.drop_last(), name)).push(v));
            },
            None => {},
        }
    }
}

/// A value in the pool comes from one of the rows.
proof fn lemma_pool_has(decks: Seq<RowView>, idx: Seq<int>, name: Seq<char>, v: Seq<char>)
    requires
        pool_of(decks, idx, name).contains(v),
    ensures
        exists|i: int| 0 <= i < idx.len() && #[trigger] field(decks[idx[i]], name) == Some(v),
    decreases idx.len(),
{
    let rest = pool_of(decks, idx.drop_last(), name);
    let k = choose|k: int| 0 <= k < pool_of(decks, idx, name).len() && pool_of(decks, idx, name)[k] == v;
    if k < rest.len() {
        assert(rest[k] == v);
        lemma_pool_has(decks, idx.drop_last(), name, v);
        let i = choose|i: int| 0 <= i < idx.drop_last().len() && #[trigger] field(decks[idx.drop_last()[i]], name) == Some(v);
        assert(idx[i] == idx.drop_last()[i]);
    } else {
        assert(field(decks[idx[idx.len() - 1]], name) == Some(v));
    }
}

proof fn lemma_pass_order(decks: Seq<RowView>, inserted: Seq<Seq<char>>, rem: Seq<int>)
    ensures
        ({
            let r = place_pass(decks, inserted, rem);
            &&& r.1 == inserted + pool_of(decks, r.0, "id"@)
            &&& forall|j: int| 0 <= j < r.0.len() ==> match #[trigger] parent_ref(decks[r.0[j]]) {
                None => true,
                Some(p) => inserted.contains(p) || id_before(decks, r.0, j, p),
            }
            &&& forall|k: int| 0 <= k < rem.len() ==> placeable(decks[#[trigger] rem[k]], inserted) ==> r.0.contains(rem[k])
            &&& forall|k: int| 0 <= k < rem.len() ==> r.0.contains(#[trigger] rem[k]) || r.2.contains(rem[k])
        }),
    decreases rem.len(),
{
    let r = place_pass(decks, inserted, rem);
    if rem.len() == 0 {
        assert(pool_of(decks, r.0, "id"@) =~= Seq::<Seq<char>>::empty());
        assert(inserted + Seq::<Seq<char>>::empty() =~= inserted);
    } else {
        let h = rem[0];
        let d = decks[h];
        let tail = rem.drop_first();
        let can = placeable(d, inserted);
        if can {
            let ins = match field(d, "id"@) {
                Some(id) => inserted.push(id),
                None => inserted,
            };
            lemma_pass_order(decks, ins, tail);
            let r1 = place_pass(decks, ins, tail);
            assert(r.0 == seq![h] + r1.0);
            lemma_pool_concat(decks, seq![h], r1.0, "id"@);
            let one = seq![h];
            assert(one.drop_last() =~= Seq::<int>::empty());
            assert(one.last() == h);
            assert(pool_of(decks, one.drop_last(), "id"@) == Seq::<Seq<char>>::empty());
            match field(d, "id"@) {
                Some(id) => {
                    assert(pool_of(decks, one, "id"@) =~= seq![id]);
                    assert(r.1 =~= inserted + pool_of(decks, r.0, "id"@));
                },
                None => {
                    assert(pool_of(decks, one, "id"@) =~= Seq::<Seq<char>>::empty());
                    assert(r.1 =~= inserted + pool_of(decks, r.0, "id"@));
                },
            }
            assert forall|j: int| 0 <= j < r.0.len() implies match #[trigger] parent_ref(decks[r.0[j]]) {
                None => true,
                Some(p) => inserted.contains(p) || id_before(decks, r.0, j, p),
            } by {
                if j > 0 {
                    assert(r.0[j] == r1.0[j - 1]);
                    match parent_ref(decks[r.0[j]]) {
                        None => {},
                        Some(p) => {
                            assert(match parent_ref(decks[r1.0[j - 1]]) {
                                None => true,
                                Some(q) => ins.contains(q) || id_before(decks, r1.0, j - 1, q),
                            });
                            if id_before(decks, r1.0, j - 1, p) {
                                let i = choose|i: int| 0 <= i < j - 1 && #[trigger] field(decks[r1.0[i]], "id"@) == Some(p);
                                assert(r.0[i + 1] == r1.0[i]);
                                assert(field(decks[r.0[i + 1]], "id"@) == Some(p));
                            } else if !inserted.contains(p) {
                                assert(ins.contains(p));
                                let id = field(d, "id"@)->0;
                                assert(ins == inserted.push(id));
                                let k = choose|k: int| 0 <= k < ins.len() && ins[k] == p;
                                assert(k == inserted.len());
                                assert(field(decks[r.0[0]], "id"@) == Some(p));
                            }
                        },
                    }
                }
            }
            assert forall|k: int| 0 <= k < rem.len() && placeable(decks[#[trigger] rem[k]], inserted) implies r.0.contains(rem[k]) by {
                if k == 0 {
                    assert(r.0[0] == h);
                } else {
                    assert(rem[k] == tail[k - 1]);
                    match parent_ref(decks[rem[k]]) {
                        None => {},
                        Some(p) => {
                            let m = choose|m: int| 0 <= m < inserted.len() && inserted[m] == p;
                            assert(ins[m] == p);
                        },
                    }
                    assert(placeable(decks[tail[k - 1]], ins));
                    let m = choose|m: int| 0 <= m < r1.0.len() && r1.0[m] == tail[k - 1];
                    assert(r.0[m + 1] == rem[k]);
                }
            }
            assert forall|k: int| 0 <= k < rem.len() implies r.0.contains(#[trigger] rem[k]) || r.2.contains(rem[k]) by {
                if k == 0 {
                    assert(r.0[0] == h);
                } else {
                    assert(rem[k] == tail[k - 1]);
                    if r1.0.contains(tail[k - 1]) {
                        let m = choose|m: int| 0 <= m < r1.0.len() && r1.0[m] == tail[k - 1];
                        assert(r.0[m + 1] == rem[k]);
                    }
                }
            }
        } else {
            lemma_pass_order(decks, inserted, tail);
            let r1 = place_pass(decks, inserted, tail);
            assert(r.0 == r1.0);
            assert(r.2 == seq![h] + r1.2);
            assert forall|k: int| 0 <= k < rem.len() && placeable(decks[#[trigger] rem[k]], inserted) implies r.0.contains(rem[k]) by {
                if k > 0 {
                    assert(rem[k] == tail[k - 1]);
                }
            }
            assert forall|k: int| 0 <= k < rem.len() implies r.0.contains(#[trigger] rem[k]) || r.2.contains(rem[k]) by {
                if k == 0 {
                    assert(r.2[0] == h);
                } else {
                    assert(rem[k] == tail[k - 1]);
                    if r1.2.contains(tail[k - 1]) {
                        let m = choose|m: int| 0 <= m < r1.2.len() && r1.2[m] == tail[k - 1];
                        assert(r.2[m + 1] == rem[k]);
                    }
                }
            }
        }
    }
}

/// The decks placed by at most `n` more passes, and those still waiting.
pub open spec fn rounds_split(decks: Seq<RowView>, sorted: Seq<int>, inserted: Seq<Seq<char>>, rem: Seq<int>, n: nat) -> (Seq<int>, Seq<int>)
    decreases n,
{
    if n == 0 || rem.len() == 0 {
        (sorted, rem)
    } else {
        let r = place_pass(decks, inserted, rem);
        rounds_split(decks, sorted + r.0, r.1, r.2, (n - 1) as nat)
    }
}

proof fn lemma_rounds_split(decks: Seq<RowView>, sorted: Seq<int>, inserted: Seq<Seq<char>>, rem: Seq<int>, n: nat)
    ensures
        place_rounds(decks, sorted, inserted, rem, n) == rounds_split(decks, sorted, inserted, rem, n).0 + rounds_split(
            decks,
            sorted,
            inserted,
            rem,
            n,
        ).1,
    decreases n,
{
    if n > 0 && rem.len() > 0 {
        let r = place_pass(decks, inserted, rem);
        lemma_rounds_split(decks, sorted + r.0, r.1, r.2, (n - 1) as nat);
    }
}

/// Each pass keeps the placed decks parent first, and places every waiting
/// deck whose chain of parents is short enough.
proof fn lemma_rounds_order(decks: Seq<RowView>, sorted: Seq<int>, inserted: Seq<Seq<char>>, rem: Seq<int>, n: nat, m: nat)
    requires
        inserted == pool_of(decks, sorted, "id"@),
        parents_before(decks, sorted),
        forall|x: int| 0 <= x < decks.len() ==> #[trigger] sorted.contains(x) || rem.contains(x),
        forall|x: int, j: nat| 0 <= x < decks.len() && j < m && #[trigger] roots_within(decks, x, j) ==> sorted.contains(x),
    ensures
        parents_before(decks, rounds_split(decks, sorted, inserted, rem, n).0),
        forall|x: int, j: nat| 0 <= x < decks.len() && j < m + n && #[trigger] roots_within(decks, x, j)
            ==> rounds_split(decks, sorted, inserted, rem, n).0.contains(x),
    decreases n,
{
    if n == 0 {
    } else if rem.len() == 0 {
        assert forall|x: int, j: nat| 0 <= x < decks.len() && j < m + n && #[trigger] roots_within(decks, x, j)
            implies sorted.contains(x) by {
            assert(sorted.contains(x) || rem.contains(x));
        }
    } else {
        let r = place_pass(decks, inserted, rem);
        lemma_pass_order(decks, inserted, rem);
        let sorted1 = sorted + r.0;
        lemma_pool_concat(decks, sorted, r.0, "id"@);
        assert forall|j: int| 0 <= j < sorted1.len() implies match #[trigger] parent_ref(decks[sorted1[j]]) {
            None => true,
            Some(p) => id_before(decks, sorted1, j, p),
        } by {
            if j < sorted.len() {
                assert(sorted1[j] == sorted[j]);
                match parent_ref(decks[sorted[j]]) {
                    None => {},
                    Some(p) => {
                        let i = choose|i: int| 0 <= i < j && #[trigger] field(decks[sorted[i]], "id"@) == Some(p);
                        assert(sorted1[i] == sorted[i]);
                    },
                }
            } else {
                let j2 = j - sorted.len();
                assert(sorted1[j] == r.0[j2]);
                match parent_ref(decks[r.0[j2]]) {
                    None => {},
                    Some(p) => {
                        if inserted.contains(p) {
                            lemma_pool_has(decks, sorted, "id"@, p);
                            let i = choose|i: int| 0 <= i < sorted.len() && #[trigger] field(decks[sorted[i]], "id"@) == Some(p);
                            assert(sorted1[i] == sorted[i]);
                        } else {
                            let i = choose|i: int| 0 <= i < j2 && #[trigger] field(decks[r.0[i]], "id"@) == Some(p);
                            assert(sorted1[i + sorted.len()] == r.0[i]);
                        }
                    },
                }
            }
        }
        assert forall|x: int| 0 <= x < decks.len() implies #[trigger] sorted1.contains(x) || r.2.contains(x) by {
            if sorted.contains(x) {
                let i = choose|i: int| 0 <= i < sorted.len() && sorted[i] == x;
                assert(sorted1[i] == x);
            } else {
                assert(rem.contains(x));
                let k = choose|k: int| 0 <= k < rem.len() && rem[k] == x;
                assert(r.0.contains(rem[k]) || r.2.contains(rem[k]));
                if r.0.contains(x) {
                    let i = choose|i: int| 0 <= i < r.0.len() && r.0[i] == x;
                    assert(sorted1[i + sorted.len()] == x);
                }
            }
        }
        assert forall|x: int, j: nat| 0 <= x < decks.len() && j < m + 1 && #[trigger] roots_within(decks, x, j)
            implies sorted1.contains(x) by {
            if sorted.contains(x) {
                let i = choose|i: int| 0 <= i < sorted.len() && sorted[i] == x;
                assert(sorted1[i] == x);
            } else {
                assert(j == m);
                assert(rem.contains(x));
                let k = choose|k: int| 0 <= k < rem.len() && rem[k] == x;
                match parent_ref(decks[x]) {
                    None => {},
                    Some(p) => {
                        let y = choose|y: int|
                            0 <= y < decks.len() && #[trigger] field(decks[y], "id"@) == Some(p) && roots_within(decks, y, (j - 1) as nat);
                        assert(sorted.contains(y));
                        let iy = choose|iy: int| 0 <= iy < sorted.len() && sorted[iy] == y;
                        lemma_pool_of(decks, sorted, "id"@, iy, p);
                    },
                }
                assert(placeable(decks[rem[k]], inserted));
                let i = choose|i: int| 0 <= i < r.0.len() && r.0[i] == x;
                assert(sorted1[i + sorted.len()] == x);
            }
        }
        lemma_rounds_order(decks, sorted1, r.1, r.2, (n - 1) as nat, m + 1);
    }
}

/// Decks come after their parents: in the insertion order, a deck whose
/// chain of parents reaches a top-level deck (within as many steps as
/// there are decks, which a chain without a cycle does) comes after a deck
/// that carries its parent's id.
pub proof fn law_parents_come_first(decks: Seq<RowView>, j: int)
    requires
        0 <= j < decks.len(),
        roots_within(decks, parent_first_order(decks)[j], decks.len() as nat),
    ensures
        parent_first_order(decks).len() == decks.len(),
        match parent_ref(decks[parent_first_order(decks)[j]]) {
            None => true,
            Some(p) => id_before(decks, parent_first_order(decks), j, p),
        },
{
    broadcast use vstd::multiset::group_multiset_axioms;
    let n = decks.len();
    let all = all_positions(n);
    let order = parent_first_order(decks);
    let split = rounds_split(decks, Seq::empty(), Seq::empty(), all, (n + 1) as nat);
    lemma_rounds_split(decks, Seq::empty(), Seq::empty(), all, (n + 1) as nat);
    assert(pool_of(decks, Seq::<int>::empty(), "id"@) == Seq::<Seq<char>>::empty());
    assert forall|x: int| 0 <= x < decks.len() implies #[trigger] Seq::<int>::empty().contains(x) || all.contains(x) by {
        assert(all[x] == x);
    }
    lemma_rounds_order(decks, Seq::empty(), Seq::empty(), all, (n + 1) as nat, 0);
    // the order holds each position once
    law_parent_first_keeps_decks(decks);
    order.to_multiset_ensures();
    all.to_multiset_ensures();
    assert(all.no_duplicates());
    all.lemma_multiset_has_no_duplicates();
    assert forall|x: int| order.to_multiset().contains(x) implies order.to_multiset().count(x) == 1 by {}
    order.lemma_multiset_has_no_duplicates_conv();
    assert(order.len() == n);
    let x = order[j];
    assert(order.to_multiset().contains(x));
    assert(0 <= x < n);
    assert(split.0.contains(x));
    let j0 = choose|j0: int| 0 <= j0 < split.0.len() && split.0[j0] == x;
    assert(order[j0] == x);
    assert(j0 == j);
    match parent_ref(decks[x]) {
        None => {},
        Some(p) => {
            assert(match parent_ref(decks[split.0[j]]) {
                None => true,
                Some(q) => id_before(decks, split.0, j, q),
            });
            let i = choose|i: int| 0 <= i < j && #[trigger] field(decks[split.0[i]], "id"@) == Some(p);
            assert(order[i] == split.0[i]);
        },
    }
}

proof fn lemma_scope_grows(decks: Seq<RowView>, roots: Seq<Seq<char>>, k: nat, m: nat, x: Seq<char>)
    requires
        k <= m <= roots.len(),
        scope_after(decks, roots, k).contains(x),
    ensures
        scope_after(decks, roots, m).contains(x),
    decreases m - k,
{
    if k < m {
        lemma_scope_grows(decks, roots, k, (m - 1) as nat, x);
    }
}

/// The scope of a selection holds every selected deck with its ancestors.
pub proof fn law_scope_holds_selected_and_ancestors(decks: Seq<RowView>, ids: Seq<Seq<char>>, i: int, a: Seq<char>)
    requires
        0 <= i < ids.len(),
        ancestors(decks, ids[i], (decks.len() + 1) as nat).contains(a),
    ensures
        spec_resolve_scope(Some(decks), Some(ids)) matches Some(s) && s.contains(a),
{
    let after = scope_after(decks, ids, (i + 1) as nat);
    assert(ancestors(decks, ids[i], (decks.len() + 1) as nat).to_set().contains(a));
    assert(after.contains(a));
    lemma_scope_grows(decks, ids, (i + 1) as nat, ids.len(), a);
}

/// The scope holds the first selected deck and every deck below it.
pub proof fn law_scope_holds_first_subtree(decks: Seq<RowView>, ids: Seq<Seq<char>>, x: Seq<char>)
    requires
        ids.len() > 0,
        fresh_reach(decks, Set::empty(), ids[0], x, decks.len()),
    ensures
        spec_resolve_scope(Some(decks), Some(ids)) matches Some(s) && s.contains(x),
{
    assert(scope_after(decks, ids, 0) =~= Set::empty());
    assert(scope_after(decks, ids, 1).contains(x));
    lemma_scope_grows(decks, ids, 1, ids.len(), x);
}

} // verus!
