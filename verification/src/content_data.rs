//! A content file's JSON as a whole: every entry of the payload, each
//! table's rows both as the filter reads them and as the JSON values they
//! are, carried through unchanged.
use serde_json::Value;
use serde_json::Value::{Array, Object, String as Str};
use self::DataEntry::{Rows, Text};
use vstd::prelude::*;
use crate::content::{
    every, filter_content_payload, increasing_within, lemma_refilter, pick, kept_v, lemma_kept_increasing, lemma_matches_kept, rows_view, row_view,
    strs, table_at, table_names, tables_v, ContentSelection, ContentTables, Row, RowView, TablesV,
};
use crate::text::owned;
use crate::backup::{content_bytes, spec_content_bytes};
use crate::text::same_text;

verus! {

#[verifier::external_type_specification]
#[verifier::external_body]
pub struct ExJsonValue(serde_json::Value);

/// A row of a payload array: its entries as the filter reads them, and the
/// JSON value itself.
pub struct DataRow {
    pub fields: Row,
    pub raw: Value,
}

/// The value of a payload entry: an array (of rows), a string, or any other
/// JSON value.
pub enum DataEntry {
    Rows(Vec<DataRow>),
    Text(String),
    Other(Value),
}

/// A content file's JSON: an object's entries in order, or any other JSON
/// value.
pub enum ContentData {
    Object(Vec<(String, DataEntry)>),
    Other(Value),
}

pub type RowData = (RowView, Value);

pub enum EntryView {
    Rows(Seq<RowData>),
    Text(Seq<char>),
    Other(Value),
}

pub enum DataView {
    Object(Seq<(Seq<char>, EntryView)>),
    Other(Value),
}

pub open spec fn row_data(r: DataRow) -> RowData {
    (row_view(r.fields), r.raw)
}

pub open spec fn rows_data(v: Seq<DataRow>) -> Seq<RowData> {
    v.map_values(|r: DataRow| row_data(r))
}

pub open spec fn entry_view(e: DataEntry) -> EntryView {
    match e {
        DataEntry::Rows(r) => EntryView::Rows(rows_data(r@)),
        DataEntry::Text(s) => EntryView::Text(s@),
        DataEntry::Other(v) => EntryView::Other(v),
    }
}

pub open spec fn entries_view(es: Seq<(String, DataEntry)>) -> Seq<(Seq<char>, EntryView)> {
    es.map_values(|e: (String, DataEntry)| (e.0@, entry_view(e.1)))
}

pub open spec fn data_view(d: ContentData) -> DataView {
    match d {
        ContentData::Object(es) => DataView::Object(entries_view(es@)),
        ContentData::Other(v) => DataView::Other(v),
    }
}

/// What `serde_json::from_slice` makes of the bytes, read as above, or the
/// message of its error.
pub uninterp spec fn spec_content_data(bytes: Seq<u8>) -> Result<DataView, Seq<char>>;

/// `serde_json::from_slice::<serde_json::Value>`; an object's entries, an
/// array's rows (a row's entries with the text of those that are strings)
/// and strings are taken one for one. Claimed: the outcome is a function of
/// the bytes alone.
#[verifier::external_body]
pub(crate) fn parse_content_data(bytes: &[u8]) -> (r: Result<ContentData, String>)
    ensures
        match r {
            Ok(d) => spec_content_data(bytes@) == Ok::<DataView, Seq<char>>(data_view(d)),
            Err(e) => spec_content_data(bytes@) == Err::<DataView, Seq<char>>(e@),
        },
{
    let entry = |v: Value| match v {
        Array(a) => Rows(a.into_iter().map(|r| DataRow {
            fields: r.as_object().into_iter().flatten().map(|(k, x)| (k.clone(), x.as_str().map(String::from))).collect(),
            raw: r,
        }).collect()),
        Str(s) => Text(s),
        other => DataEntry::Other(other),
    };
    Ok(match serde_json::from_slice(bytes).map_err(|e| e.to_string())? {
        Object(o) => ContentData::Object(o.into_iter().map(|(k, v)| (k, entry(v))).collect()),
        other => ContentData::Other(other),
    })
}

// ---------------------------------------------------------------------------
// Reading entries
// ---------------------------------------------------------------------------

/// The value of the last entry named `key` (`Map::get`; an object's keys
/// are distinct).
pub open spec fn entry_at(es: Seq<(Seq<char>, EntryView)>, key: Seq<char>) -> Option<EntryView>
    decreases es.len(),
{
    if es.len() == 0 {
        None
    } else if es.last().0 == key {
        Some(es.last().1)
    } else {
        entry_at(es.drop_last(), key)
    }
}

/// The rows of the array named `key`: none where there is no such entry or
/// it is not an array.
pub open spec fn rows_at(es: Seq<(Seq<char>, EntryView)>, key: Seq<char>) -> Seq<RowData> {
    match entry_at(es, key) {
        Some(EntryView::Rows(r)) => r,
        _ => Seq::empty(),
    }
}

/// The rows of the array named `key`, `None` where there is no such array.
pub open spec fn opt_rows_at(es: Seq<(Seq<char>, EntryView)>, key: Seq<char>) -> Option<Seq<RowData>> {
    match entry_at(es, key) {
        Some(EntryView::Rows(r)) => Some(r),
        _ => None,
    }
}

/// The text of the string named `key`.
pub open spec fn text_at(es: Seq<(Seq<char>, EntryView)>, key: Seq<char>) -> Option<Seq<char>> {
    match entry_at(es, key) {
        Some(EntryView::Text(s)) => Some(s),
        _ => None,
    }
}

pub open spec fn fields_of(r: Seq<RowData>) -> Seq<RowView> {
    r.map_values(|x: RowData| x.0)
}

/// The text of the top-level entry `key` of a payload (`get(key)?.as_str()`).
pub open spec fn data_text(d: DataView, key: Seq<char>) -> Option<Seq<char>> {
    match d {
        DataView::Object(es) => text_at(es, key),
        DataView::Other(_) => None,
    }
}

/// The rows of the top-level array `key` of a payload, as the filter reads
/// them (`get(key)?.as_array()`).
pub open spec fn data_rows(d: DataView, key: Seq<char>) -> Option<Seq<RowView>> {
    match d {
        DataView::Object(es) => match opt_rows_at(es, key) {
            Some(r) => Some(fields_of(r)),
            None => None,
        },
        DataView::Other(_) => None,
    }
}

fn entry_index(es: &Vec<(String, DataEntry)>, key: &str) -> (r: Option<usize>)
    ensures
        match r {
            Some(k) => k < es@.len() && entry_at(entries_view(es@), key@) == Some(entry_view(es@[k as int].1)),
            None => entry_at(entries_view(es@), key@) is None,
        },
{
    let ghost ev = entries_view(es@);
    let mut k = es.len();
    assert(ev.take(k as int) =~= ev);
    while k > 0
        invariant
            k <= es.len(),
            ev == entries_view(es@),
            entry_at(ev, key@) == entry_at(ev.take(k as int), key@),
        decreases k,
    {
        assert(ev.take(k as int).drop_last() =~= ev.take(k - 1));
        if same_text(es[k - 1].0.as_str(), key) {
            return Some(k - 1);
        }
        k -= 1;
    }
    None
}

/// The text of the top-level entry `key` of a payload.
pub fn data_text_exec(d: &ContentData, key: &str) -> (r: Option<String>)
    ensures
        match r {
            Some(s) => data_text(data_view(*d), key@) == Some(s@),
            None => data_text(data_view(*d), key@) is None,
        },
{
    match d {
        ContentData::Object(es) => match entry_index(es, key) {
            Some(k) => match &es[k].1 {
                DataEntry::Text(s) => Some(s.clone()),
                _ => None,
            },
            None => None,
        },
        ContentData::Other(_) => None,
    }
}

// ---------------------------------------------------------------------------
// Filtering the payload for a set of decks
// ---------------------------------------------------------------------------

pub open spec fn is_table(key: Seq<char>) -> bool {
    table_names().contains(key)
}

/// The entries that are not tables, in order.
pub open spec fn non_tables(es: Seq<(Seq<char>, EntryView)>) -> Seq<(Seq<char>, EntryView)>
    decreases es.len(),
{
    if es.len() == 0 {
        Seq::empty()
    } else if is_table(es.last().0) {
        non_tables(es.drop_last())
    } else {
        non_tables(es.drop_last()).push(es.last())
    }
}

/// The payload's tables as the filter reads them.
pub open spec fn tables_of(es: Seq<(Seq<char>, EntryView)>) -> TablesV {
    TablesV {
        decks: fields_of(rows_at(es, table_names()[0])),
        note_types: fields_of(rows_at(es, table_names()[1])),
        fields: fields_of(rows_at(es, table_names()[2])),
        card_templates: fields_of(rows_at(es, table_names()[3])),
        notes: fields_of(rows_at(es, table_names()[4])),
        cards: fields_of(rows_at(es, table_names()[5])),
        tags: fields_of(rows_at(es, table_names()[6])),
        note_tags: fields_of(rows_at(es, table_names()[7])),
        note_links: fields_of(rows_at(es, table_names()[8])),
        entities: fields_of(rows_at(es, table_names()[9])),
        relation_types: fields_of(rows_at(es, table_names()[10])),
        triples: fields_of(rows_at(es, table_names()[11])),
        card_triples: fields_of(rows_at(es, table_names()[12])),
        entity_tags: fields_of(rows_at(es, table_names()[13])),
        relation_type_tags: fields_of(rows_at(es, table_names()[14])),
    }
}

/// The rows at positions `idx`, in order.
pub open spec fn pick_rows(rows: Seq<RowData>, idx: Seq<int>) -> Seq<RowData> {
    idx.map_values(|i: int| rows[i])
}

/// Each table with only the rows that belong to the decks in `scope`.
pub open spec fn table_entries(es: Seq<(Seq<char>, EntryView)>, scope: Seq<Seq<char>>) -> Seq<(Seq<char>, EntryView)> {
    Seq::new(15, |k: int| (
        table_names()[k],
        EntryView::Rows(pick_rows(rows_at(es, table_names()[k]), kept_v(tables_of(es), scope)[k])),
    ))
}

/// A payload filtered for the decks in `scope`: an object keeps every entry
/// that is not a table, and each table is replaced by its rows that belong
/// to those decks (an empty array where the payload has no such table); any
/// other JSON value comes back unchanged.
pub open spec fn spec_filter_data(d: DataView, scope: Seq<Seq<char>>) -> DataView {
    match d {
        DataView::Object(es) => DataView::Object(non_tables(es) + table_entries(es, scope)),
        DataView::Other(v) => DataView::Other(v),
    }
}

pub proof fn lemma_table_names_distinct()
    ensures
        forall|a: int, b: int| 0 <= a < 15 && 0 <= b < 15 && a != b ==> table_names()[a] != table_names()[b],
{
    reveal_strlit("decks");
    reveal_strlit("note_types");
    reveal_strlit("fields");
    reveal_strlit("card_templates");
    reveal_strlit("notes");
    reveal_strlit("cards");
    reveal_strlit("tags");
    reveal_strlit("note_tags");
    reveal_strlit("note_links");
    reveal_strlit("entities");
    reveal_strlit("relation_types");
    reveal_strlit("triples");
    reveal_strlit("card_triples");
    reveal_strlit("entity_tags");
    reveal_strlit("relation_type_tags");
    assert forall|a: int, b: int| 0 <= a < 15 && 0 <= b < 15 && a != b implies table_names()[a] != table_names()[b] by {
        let x = table_names()[a];
        let y = table_names()[b];
        if x == y {
            assert(x.len() == y.len());
            assert(x[0] == y[0]);
            assert(x[x.len() - 1] == y[y.len() - 1]);
            assert(x[1] == y[1]);
            assert(x[2] == y[2]);
            assert(x[5] == y[5]);
        }
    }
}

fn table_index(key: &str) -> (r: Option<usize>)
    ensures
        match r {
            Some(k) => k < 15 && table_names()[k as int] == key@,
            None => !is_table(key@),
        },
{
    let r = if same_text(key, "decks") {
        Some(0)
    } else if same_text(key, "note_types") {
        Some(1)
    } else if same_text(key, "fields") {
        Some(2)
    } else if same_text(key, "card_templates") {
        Some(3)
    } else if same_text(key, "notes") {
        Some(4)
    } else if same_text(key, "cards") {
        Some(5)
    } else if same_text(key, "tags") {
        Some(6)
    } else if same_text(key, "note_tags") {
        Some(7)
    } else if same_text(key, "note_links") {
        Some(8)
    } else if same_text(key, "entities") {
        Some(9)
    } else if same_text(key, "relation_types") {
        Some(10)
    } else if same_text(key, "triples") {
        Some(11)
    } else if same_text(key, "card_triples") {
        Some(12)
    } else if same_text(key, "entity_tags") {
        Some(13)
    } else if same_text(key, "relation_type_tags") {
        Some(14)
    } else {
        None
    };
    proof {
        if r is None && table_names().contains(key@) {
            let k = choose|k: int| 0 <= k < table_names().len() && table_names()[k] == key@;
            assert(k != 0);
            assert(k != 1);
            assert(k != 2);
            assert(k != 3);
            assert(k != 4);
            assert(k != 5);
            assert(k != 6);
            assert(k != 7);
            assert(k != 8);
            assert(k != 9);
            assert(k != 10);
            assert(k != 11);
            assert(k != 12);
            assert(k != 13);
            assert(k != 14);
        }
    }
    r
}

pub(crate) fn take_first<T>(v: &mut Vec<T>) -> (r: T)
    requires
        old(v)@.len() > 0,
    ensures
        r == old(v)@[0],
        final(v)@ == old(v)@.drop_first(),
{
    let r = v.remove(0);
    assert(old(v)@.remove(0) =~= old(v)@.drop_first());
    r
}

fn split_rows(rows: Vec<DataRow>) -> (r: (Vec<Row>, Vec<Value>))
    ensures
        r.0@.len() == rows@.len(),
        r.1@.len() == rows@.len(),
        forall|i: int| 0 <= i < rows@.len() ==> (row_view(#[trigger] r.0@[i]), r.1@[i]) == rows_data(rows@)[i],
{
    let mut rest = rows;
    let ghost orig = rows_data(rest@);
    let mut fs: Vec<Row> = Vec::new();
    let mut vs: Vec<Value> = Vec::new();
    while rest.len() > 0
        invariant
            fs@.len() == vs@.len(),
            fs@.len() + rest@.len() == orig.len(),
            rows_data(rest@) == orig.skip(fs@.len() as int),
            forall|i: int| 0 <= i < fs@.len() ==> (row_view(#[trigger] fs@[i]), vs@[i]) == orig[i],
        decreases rest@.len(),
    {
        let ghost n = fs@.len();
        let ghost rest0 = rest@;
        let DataRow { fields, raw } = take_first(&mut rest);
        proof {
            assert(orig.skip(n as int)[0] == orig[n as int]);
            assert(rows_data(rest0)[0] == row_data(rest0[0]));
            assert(rows_data(rest@) =~= rows_data(rest0).drop_first());
            assert(orig.skip(n as int).drop_first() =~= orig.skip((n + 1) as int));
        }
        fs.push(fields);
        vs.push(raw);
    }
    (fs, vs)
}

/// The rows at positions `idx` (which go up), with their JSON values.
fn pick_rows_exec(fields: Vec<Row>, raws: Vec<Value>, idx: &Vec<usize>) -> (r: Vec<DataRow>)
    requires
        fields@.len() == raws@.len(),
        increasing_within(idx@.map_values(|i: usize| i as int), fields@.len() as int),
    ensures
        rows_data(r@) == pick_rows(
            Seq::new(fields@.len(), |i: int| (row_view(fields@[i]), raws@[i])),
            idx@.map_values(|i: usize| i as int),
        ),
{
    let ghost all = Seq::new(fields@.len(), |i: int| (row_view(fields@[i]), raws@[i]));
    let ghost iv = idx@.map_values(|i: usize| i as int);
    let mut fs = fields;
    let mut vs = raws;
    let mut out: Vec<DataRow> = Vec::new();
    let mut j: usize = 0;
    let mut p: usize = 0;
    let n = fs.len();
    assert(iv.take(0) =~= Seq::<int>::empty());
    while fs.len() > 0
        invariant
            fs@.len() == vs@.len(),
            j + fs@.len() == n,
            n == all.len(),
            p <= idx@.len(),
            iv == idx@.map_values(|i: usize| i as int),
            increasing_within(iv, n as int),
            forall|i: int| 0 <= i < fs@.len() ==> (row_view(#[trigger] fs@[i]), vs@[i]) == all[j + i],
            forall|a: int| 0 <= a < p ==> #[trigger] iv[a] < j,
            p < idx@.len() ==> iv[p as int] >= j,
            rows_data(out@) == pick_rows(all, iv.take(p as int)),
        decreases fs@.len(),
    {
        let ghost fs0 = fs@;
        let ghost vs0 = vs@;
        let f = take_first(&mut fs);
        let v = take_first(&mut vs);
        proof {
            assert((row_view(fs0[0]), vs0[0]) == all[j as int]);
            assert forall|i: int| 0 <= i < fs@.len() implies (row_view(#[trigger] fs@[i]), vs@[i]) == all[j + 1 + i] by {
                assert(fs@[i] == fs0[i + 1] && vs@[i] == vs0[i + 1]);
            }
        }
        if p < idx.len() && idx[p] == j {
            let ghost before = rows_data(out@);
            out.push(DataRow { fields: f, raw: v });
            proof {
                assert(iv[p as int] == j);
                assert(rows_data(out@) =~= before.push(all[j as int]));
                assert(iv.take(p + 1) =~= iv.take(p as int).push(iv[p as int]));
                assert(pick_rows(all, iv.take(p + 1)) =~= pick_rows(all, iv.take(p as int)).push(all[j as int]));
                if p + 1 < idx@.len() {
                    assert(iv[p as int] < iv[p + 1]);
                }
            }
            p += 1;
        }
        j += 1;
    }
    proof {
        if p < idx@.len() {
            assert(iv[p as int] < n);
        }
        assert(iv.take(p as int) =~= iv);
    }
    out
}

fn push_table(out: &mut Vec<(String, DataEntry)>, name: &str, rows: Vec<DataRow>)
    ensures
        entries_view(final(out)@) == entries_view(old(out)@).push((name@, EntryView::Rows(rows_data(rows@)))),
{
    let ghost before = entries_view(out@);
    out.push((owned(name), DataEntry::Rows(rows)));
    assert(entries_view(out@) =~= before.push((name@, EntryView::Rows(rows_data(rows@)))));
}

/// The entries that are not tables, and each table's rows.
fn gather_entries(es: Vec<(String, DataEntry)>) -> (r: (Vec<(String, DataEntry)>, Vec<Vec<DataRow>>))
    ensures
        entries_view(r.0@) == non_tables(entries_view(es@)),
        r.1@.len() == 15,
        forall|k: int| 0 <= k < 15 ==> rows_data((#[trigger] r.1@[k])@) == rows_at(entries_view(es@), table_names()[k]),
{
    let mut es = es;
    let ghost ev = entries_view(es@);
    proof {
        lemma_table_names_distinct();
    }
    let mut kept: Vec<(String, DataEntry)> = Vec::new();
    let mut slots: Vec<Vec<DataRow>> = Vec::new();
    let mut t: usize = 0;
    while t < 15
        invariant
            t <= 15,
            slots@.len() == t,
            forall|k: int| 0 <= k < t ==> (#[trigger] slots@[k])@.len() == 0,
        decreases 15 - t,
    {
        slots.push(Vec::new());
        t += 1;
    }
    let mut i: usize = 0;
    let n = es.len();
    assert(ev.take(0) =~= Seq::<(Seq<char>, EntryView)>::empty());
    assert forall|k: int| 0 <= k < 15 implies rows_data((#[trigger] slots@[k])@) == rows_at(ev.take(0), table_names()[k]) by {
        assert(rows_data(slots@[k]@) =~= Seq::<RowData>::empty());
    }
    while es.len() > 0
        invariant
            i + es@.len() == n,
            n == ev.len(),
            entries_view(es@) == ev.skip(i as int),
            slots@.len() == 15,
            entries_view(kept@) == non_tables(ev.take(i as int)),
            forall|k: int| 0 <= k < 15 ==> rows_data((#[trigger] slots@[k])@) == rows_at(ev.take(i as int), table_names()[k]),
            forall|a: int, b: int| 0 <= a < 15 && 0 <= b < 15 && a != b ==> table_names()[a] != table_names()[b],
        decreases es@.len(),
    {
        let ghost es0 = entries_view(es@);
        let (key, e) = take_first(&mut es);
        let ghost item = (key@, entry_view(e));
        proof {
            assert(es0[0] == item);
            assert(ev.skip(i as int)[0] == ev[i as int]);
            assert(ev[i as int] == item);
            assert(entries_view(es@) =~= es0.drop_first());
            assert(ev.skip(i as int).drop_first() =~= ev.skip(i + 1));
            assert(ev.take(i + 1).drop_last() =~= ev.take(i as int));
            assert(ev.take(i + 1).last() == item);
        }
        match table_index(key.as_str()) {
            Some(tk) => {
                let ghost ent = entry_view(e);
                let rows = match e {
                    DataEntry::Rows(r) => r,
                    _ => Vec::new(),
                };
                proof {
                    assert(rows_data(rows@) == match ent {
                        EntryView::Rows(r) => r,
                        _ => Seq::<RowData>::empty(),
                    });
                }
                let ghost slots0 = slots@;
                slots.set(tk, rows);
                proof {
                    assert forall|k: int| 0 <= k < 15 implies rows_data((#[trigger] slots@[k])@) == rows_at(ev.take(i + 1), table_names()[k]) by {
                        if k != tk {
                            assert(slots@[k] == slots0[k]);
                        }
                    }
                    assert(is_table(key@));
                    assert(entries_view(kept@) =~= non_tables(ev.take(i + 1)));
                }
            },
            None => {
                let ghost before = entries_view(kept@);
                kept.push((key, e));
                proof {
                    assert(entries_view(kept@) =~= before.push(item));
                    assert forall|k: int| 0 <= k < 15 implies rows_data((#[trigger] slots@[k])@) == rows_at(ev.take(i + 1), table_names()[k]) by {
                        assert(table_names().contains(table_names()[k]));
                    }
                }
            },
        }
        i += 1;
    }
    assert(ev.take(n as int) =~= ev);
    (kept, slots)
}

/// Adds the table `name` with the rows at positions `idx`.
fn push_kept(
    out: &mut Vec<(String, DataEntry)>,
    name: &str,
    fields: Vec<Row>,
    raws: Vec<Value>,
    idx: &Vec<usize>,
    Ghost(rows): Ghost<Seq<RowData>>,
    Ghost(kept): Ghost<Seq<int>>,
)
    requires
        fields@.len() == raws@.len(),
        rows.len() == fields@.len(),
        forall|i: int| 0 <= i < rows.len() ==> (row_view(#[trigger] fields@[i]), raws@[i]) == rows[i],
        idx@.map_values(|i: usize| i as int) == kept,
        increasing_within(kept, rows.len() as int),
    ensures
        entries_view(final(out)@) == entries_view(old(out)@).push((name@, EntryView::Rows(pick_rows(rows, kept)))),
{
    assert(Seq::new(fields@.len(), |j: int| (row_view(fields@[j]), raws@[j])) =~= rows);
    let picked = pick_rows_exec(fields, raws, idx);
    push_table(out, name, picked);
}

/// A content payload with only what belongs to the decks of `scope`.
#[verifier::rlimit(60)]
pub fn filter_payload(data: ContentData, scope: &Vec<String>) -> (r: ContentData)
    ensures
        data_view(r) == spec_filter_data(data_view(data), strs(scope@)),
{
    let es = match data {
        ContentData::Other(v) => return ContentData::Other(v),
        ContentData::Object(es) => es,
    };
    let ghost ev = entries_view(es@);
    let (mut kept, mut slots) = gather_entries(es);
    let ghost all_slots = slots@;
    assert(slots@ =~= all_slots.skip(0));
    let (f0, r0) = split_rows(take_first(&mut slots));
    assert(forall|j: int| 0 <= j < all_slots[0]@.len() ==> (row_view(#[trigger] f0@[j]), r0@[j]) == rows_at(ev, table_names()[0])[j]);
    assert(slots@ =~= all_slots.skip(1));
    let (f1, r1) = split_rows(take_first(&mut slots));
    assert(forall|j: int| 0 <= j < all_slots[1]@.len() ==> (row_view(#[trigger] f1@[j]), r1@[j]) == rows_at(ev, table_names()[1])[j]);
    assert(slots@ =~= all_slots.skip(2));
    let (f2, r2) = split_rows(take_first(&mut slots));
    assert(forall|j: int| 0 <= j < all_slots[2]@.len() ==> (row_view(#[trigger] f2@[j]), r2@[j]) == rows_at(ev, table_names()[2])[j]);
    assert(slots@ =~= all_slots.skip(3));
    let (f3, r3) = split_rows(take_first(&mut slots));
    assert(forall|j: int| 0 <= j < all_slots[3]@.len() ==> (row_view(#[trigger] f3@[j]), r3@[j]) == rows_at(ev, table_names()[3])[j]);
    assert(slots@ =~= all_slots.skip(4));
    let (f4, r4) = split_rows(take_first(&mut slots));
    assert(forall|j: int| 0 <= j < all_slots[4]@.len() ==> (row_view(#[trigger] f4@[j]), r4@[j]) == rows_at(ev, table_names()[4])[j]);
    assert(slots@ =~= all_slots.skip(5));
    let (f5, r5) = split_rows(take_first(&mut slots));
    assert(forall|j: int| 0 <= j < all_slots[5]@.len() ==> (row_view(#[trigger] f5@[j]), r5@[j]) == rows_at(ev, table_names()[5])[j]);
    assert(slots@ =~= all_slots.skip(6));
    let (f6, r6) = split_rows(take_first(&mut slots));
    assert(forall|j: int| 0 <= j < all_slots[6]@.len() ==> (row_view(#[trigger] f6@[j]), r6@[j]) == rows_at(ev, table_names()[6])[j]);
    assert(slots@ =~= all_slots.skip(7));
    let (f7, r7) = split_rows(take_first(&mut slots));
    assert(forall|j: int| 0 <= j < all_slots[7]@.len() ==> (row_view(#[trigger] f7@[j]), r7@[j]) == rows_at(ev, table_names()[7])[j]);
    assert(slots@ =~= all_slots.skip(8));
    let (f8, r8) = split_rows(take_first(&mut slots));
    assert(forall|j: int| 0 <= j < all_slots[8]@.len() ==> (row_view(#[trigger] f8@[j]), r8@[j]) == rows_at(ev, table_names()[8])[j]);
    assert(slots@ =~= all_slots.skip(9));
    let (f9, r9) = split_rows(take_first(&mut slots));
    assert(forall|j: int| 0 <= j < all_slots[9]@.len() ==> (row_view(#[trigger] f9@[j]), r9@[j]) == rows_at(ev, table_names()[9])[j]);
    assert(slots@ =~= all_slots.skip(10));
    let (f10, r10) = split_rows(take_first(&mut slots));
    assert(forall|j: int| 0 <= j < all_slots[10]@.len() ==> (row_view(#[trigger] f10@[j]), r10@[j]) == rows_at(ev, table_names()[10])[j]);
    assert(slots@ =~= all_slots.skip(11));
    let (f11, r11) = split_rows(take_first(&mut slots));
    assert(forall|j: int| 0 <= j < all_slots[11]@.len() ==> (row_view(#[trigger] f11@[j]), r11@[j]) == rows_at(ev, table_names()[11])[j]);
    assert(slots@ =~= all_slots.skip(12));
    let (f12, r12) = split_rows(take_first(&mut slots));
    assert(forall|j: int| 0 <= j < all_slots[12]@.len() ==> (row_view(#[trigger] f12@[j]), r12@[j]) == rows_at(ev, table_names()[12])[j]);
    assert(slots@ =~= all_slots.skip(13));
    let (f13, r13) = split_rows(take_first(&mut slots));
    assert(forall|j: int| 0 <= j < all_slots[13]@.len() ==> (row_view(#[trigger] f13@[j]), r13@[j]) == rows_at(ev, table_names()[13])[j]);
    assert(slots@ =~= all_slots.skip(14));
    let (f14, r14) = split_rows(take_first(&mut slots));
    assert(forall|j: int| 0 <= j < all_slots[14]@.len() ==> (row_view(#[trigger] f14@[j]), r14@[j]) == rows_at(ev, table_names()[14])[j]);
    let tables = ContentTables {
        decks: f0,
        note_types: f1,
        fields: f2,
        card_templates: f3,
        notes: f4,
        cards: f5,
        tags: f6,
        note_tags: f7,
        note_links: f8,
        entities: f9,
        relation_types: f10,
        triples: f11,
        card_triples: f12,
        entity_tags: f13,
        relation_type_tags: f14,
    };
    let s = filter_content_payload(&tables, scope);
    let ghost sc = strs(scope@);
    proof {
        lemma_matches_kept(s, tables_v(tables), sc);
        assert(rows_view(f0@) =~= fields_of(rows_at(ev, table_names()[0])));
        assert(rows_view(f1@) =~= fields_of(rows_at(ev, table_names()[1])));
        assert(rows_view(f2@) =~= fields_of(rows_at(ev, table_names()[2])));
        assert(rows_view(f3@) =~= fields_of(rows_at(ev, table_names()[3])));
        assert(rows_view(f4@) =~= fields_of(rows_at(ev, table_names()[4])));
        assert(rows_view(f5@) =~= fields_of(rows_at(ev, table_names()[5])));
        assert(rows_view(f6@) =~= fields_of(rows_at(ev, table_names()[6])));
        assert(rows_view(f7@) =~= fields_of(rows_at(ev, table_names()[7])));
        assert(rows_view(f8@) =~= fields_of(rows_at(ev, table_names()[8])));
        assert(rows_view(f9@) =~= fields_of(rows_at(ev, table_names()[9])));
        assert(rows_view(f10@) =~= fields_of(rows_at(ev, table_names()[10])));
        assert(rows_view(f11@) =~= fields_of(rows_at(ev, table_names()[11])));
        assert(rows_view(f12@) =~= fields_of(rows_at(ev, table_names()[12])));
        assert(rows_view(f13@) =~= fields_of(rows_at(ev, table_names()[13])));
        assert(rows_view(f14@) =~= fields_of(rows_at(ev, table_names()[14])));
        assert(tables_v(tables) == tables_of(ev));
        lemma_kept_increasing(tables_of(ev), sc);
    }
    let ContentTables { decks: f0, note_types: f1, fields: f2, card_templates: f3, notes: f4, cards: f5, tags: f6, note_tags: f7, note_links: f8, entities: f9, relation_types: f10, triples: f11, card_triples: f12, entity_tags: f13, relation_type_tags: f14 } = tables;
    let ContentSelection { decks: s0, note_types: s1, fields: s2, card_templates: s3, notes: s4, cards: s5, tags: s6, note_tags: s7, note_links: s8, entities: s9, relation_types: s10, triples: s11, card_triples: s12, entity_tags: s13, relation_type_tags: s14 } = s;
    let ghost base = entries_view(kept@);
    push_kept(&mut kept, "decks", f0, r0, &s0, Ghost(rows_at(ev, table_names()[0])), Ghost(kept_v(tables_of(ev), sc)[0]));
    push_kept(&mut kept, "note_types", f1, r1, &s1, Ghost(rows_at(ev, table_names()[1])), Ghost(kept_v(tables_of(ev), sc)[1]));
    push_kept(&mut kept, "fields", f2, r2, &s2, Ghost(rows_at(ev, table_names()[2])), Ghost(kept_v(tables_of(ev), sc)[2]));
    push_kept(&mut kept, "card_templates", f3, r3, &s3, Ghost(rows_at(ev, table_names()[3])), Ghost(kept_v(tables_of(ev), sc)[3]));
    push_kept(&mut kept, "notes", f4, r4, &s4, Ghost(rows_at(ev, table_names()[4])), Ghost(kept_v(tables_of(ev), sc)[4]));
    push_kept(&mut kept, "cards", f5, r5, &s5, Ghost(rows_at(ev, table_names()[5])), Ghost(kept_v(tables_of(ev), sc)[5]));
    push_kept(&mut kept, "tags", f6, r6, &s6, Ghost(rows_at(ev, table_names()[6])), Ghost(kept_v(tables_of(ev), sc)[6]));
    push_kept(&mut kept, "note_tags", f7, r7, &s7, Ghost(rows_at(ev, table_names()[7])), Ghost(kept_v(tables_of(ev), sc)[7]));
    push_kept(&mut kept, "note_links", f8, r8, &s8, Ghost(rows_at(ev, table_names()[8])), Ghost(kept_v(tables_of(ev), sc)[8]));
    push_kept(&mut kept, "entities", f9, r9, &s9, Ghost(rows_at(ev, table_names()[9])), Ghost(kept_v(tables_of(ev), sc)[9]));
    push_kept(&mut kept, "relation_types", f10, r10, &s10, Ghost(rows_at(ev, table_names()[10])), Ghost(kept_v(tables_of(ev), sc)[10]));
    push_kept(&mut kept, "triples", f11, r11, &s11, Ghost(rows_at(ev, table_names()[11])), Ghost(kept_v(tables_of(ev), sc)[11]));
    push_kept(&mut kept, "card_triples", f12, r12, &s12, Ghost(rows_at(ev, table_names()[12])), Ghost(kept_v(tables_of(ev), sc)[12]));
    push_kept(&mut kept, "entity_tags", f13, r13, &s13, Ghost(rows_at(ev, table_names()[13])), Ghost(kept_v(tables_of(ev), sc)[13]));
    push_kept(&mut kept, "relation_type_tags", f14, r14, &s14, Ghost(rows_at(ev, table_names()[14])), Ghost(kept_v(tables_of(ev), sc)[14]));
    proof {
        assert(entries_view(kept@) =~= base + table_entries(ev, sc));
    }
    ContentData::Object(kept)
}

// ---------------------------------------------------------------------------
// Filtering twice
// ---------------------------------------------------------------------------

proof fn lemma_non_tables_concat(a: Seq<(Seq<char>, EntryView)>, b: Seq<(Seq<char>, EntryView)>)
    ensures
        non_tables(a + b) == non_tables(a) + non_tables(b),
    decreases b.len(),
{
    if b.len() == 0 {
        assert(a + b =~= a);
        assert(non_tables(a) + non_tables(b) =~= non_tables(a));
    } else {
        lemma_non_tables_concat(a, b.drop_last());
        assert((a + b).drop_last() =~= a + b.drop_last());
        assert((a + b).last() == b.last());
        if !is_table(b.last().0) {
            assert(non_tables(a) + non_tables(b) =~= (non_tables(a) + non_tables(b.drop_last())).push(b.last()));
        }
    }
}

proof fn lemma_non_tables_twice(es: Seq<(Seq<char>, EntryView)>)
    ensures
        non_tables(non_tables(es)) == non_tables(es),
    decreases es.len(),
{
    if es.len() > 0 {
        lemma_non_tables_twice(es.drop_last());
        let r = non_tables(es.drop_last());
        if !is_table(es.last().0) {
            assert(r.push(es.last()).drop_last() =~= r);
        }
    }
}

proof fn lemma_non_tables_none(es: Seq<(Seq<char>, EntryView)>)
    requires
        forall|i: int| 0 <= i < es.len() ==> is_table(#[trigger] es[i].0),
    ensures
        non_tables(es) == Seq::<(Seq<char>, EntryView)>::empty(),
    decreases es.len(),
{
    if es.len() > 0 {
        assert(is_table(es[es.len() - 1].0));
        lemma_non_tables_none(es.drop_last());
    }
}

/// The last entry named `key` is the one at `j` when no later entry has
/// that name.
proof fn lemma_entry_at(es: Seq<(Seq<char>, EntryView)>, key: Seq<char>, j: int)
    requires
        0 <= j < es.len(),
        es[j].0 == key,
        forall|i: int| j < i < es.len() ==> (#[trigger] es[i]).0 != key,
    ensures
        entry_at(es, key) == Some(es[j].1),
    decreases es.len(),
{
    if j < es.len() - 1 {
        assert(es[es.len() - 1].0 != key);
        lemma_entry_at(es.drop_last(), key, j);
    }
}

proof fn lemma_tables_of(es: Seq<(Seq<char>, EntryView)>)
    ensures
        forall|k: int| 0 <= k < 15 ==> #[trigger] table_at(tables_of(es), k) == fields_of(rows_at(es, table_names()[k])),
{
    assert forall|k: int| 0 <= k < 15 implies #[trigger] table_at(tables_of(es), k) == fields_of(rows_at(es, table_names()[k])) by {
        if k == 0 {
        } else if k == 1 {
        } else if k == 2 {
        } else if k == 3 {
        } else if k == 4 {
        } else if k == 5 {
        } else if k == 6 {
        } else if k == 7 {
        } else if k == 8 {
        } else if k == 9 {
        } else if k == 10 {
        } else if k == 11 {
        } else if k == 12 {
        } else if k == 13 {
        }
    }
}

/// A payload that is no JSON object comes back from the filter as it was.
pub proof fn law_filter_leaves_non_object(v: Value, scope: Seq<Seq<char>>)
    ensures
        spec_filter_data(DataView::Other(v), scope) == DataView::Other(v),
{
}

/// Filtering an object keeps each entry that is not a table, as it was and
/// in order, and follows them with one array of rows for each table name,
/// whether or not the object had that table.
pub proof fn law_filter_keeps_other_entries(es: Seq<(Seq<char>, EntryView)>, scope: Seq<Seq<char>>)
    ensures
        spec_filter_data(DataView::Object(es), scope) matches DataView::Object(out) && out.take(non_tables(es).len() as int)
            == non_tables(es) && out.len() == non_tables(es).len() + 15 && forall|k: int|
            0 <= k < 15 ==> (#[trigger] out[non_tables(es).len() + k]).0 == table_names()[k] && out[non_tables(es).len() + k].1 is Rows,
{
    let out = non_tables(es) + table_entries(es, scope);
    assert(out.take(non_tables(es).len() as int) =~= non_tables(es));
}

/// Filtering a payload twice for the same decks gives what filtering it
/// once gave: the other entries stay as they are, and each table keeps
/// every row that the first filter kept. A JSON value that is not an
/// object is left as it is both times.
pub proof fn law_filter_payload_idempotent(d: DataView, scope: Seq<Seq<char>>)
    ensures
        spec_filter_data(spec_filter_data(d, scope), scope) == spec_filter_data(d, scope),
{
    match d {
        DataView::Other(v) => {},
        DataView::Object(es) => {
            lemma_table_names_distinct();
            let t = tables_of(es);
            let tt = table_entries(es, scope);
            let es1 = non_tables(es) + tt;
            lemma_non_tables_concat(non_tables(es), tt);
            lemma_non_tables_twice(es);
            assert forall|i: int| 0 <= i < tt.len() implies is_table(#[trigger] tt[i].0) by {
                assert(table_names()[i] == tt[i].0);
            }
            lemma_non_tables_none(tt);
            assert(non_tables(es1) =~= non_tables(es));
            let n0 = non_tables(es).len();
            assert forall|k: int| 0 <= k < 15 implies #[trigger] rows_at(es1, table_names()[k]) == pick_rows(rows_at(es, table_names()[k]), kept_v(t, scope)[k]) by {
                assert(es1[n0 + k] == tt[k]);
                assert forall|i: int| n0 + k < i < es1.len() implies (#[trigger] es1[i]).0 != table_names()[k] by {
                    assert(es1[i] == tt[i - n0]);
                }
                lemma_entry_at(es1, table_names()[k], n0 + k);
            }
            let t1 = tables_of(es1);
            lemma_tables_of(es);
            lemma_tables_of(es1);
            lemma_kept_increasing(t, scope);
            assert forall|k: int| 0 <= k < 15 implies table_at(t1, k) == pick(table_at(t, k), #[trigger] kept_v(t, scope)[k]) by {
                let kk = kept_v(t, scope)[k];
                assert(increasing_within(kk, table_at(t, k).len() as int));
                assert forall|i: int| 0 <= i < kk.len() implies 0 <= #[trigger] kk[i] < rows_at(es, table_names()[k]).len() by {}
                assert(rows_at(es1, table_names()[k]) == pick_rows(rows_at(es, table_names()[k]), kept_v(t, scope)[k]));
                assert(fields_of(pick_rows(rows_at(es, table_names()[k]), kept_v(t, scope)[k]))
                    =~= pick(fields_of(rows_at(es, table_names()[k])), kept_v(t, scope)[k]));
            }
            lemma_refilter(t, scope, t1);
            let tt1 = table_entries(es1, scope);
            assert forall|k: int| 0 <= k < 15 implies #[trigger] tt1[k] == tt[k] by {
                let p = rows_at(es1, table_names()[k]);
                assert(kept_v(t1, scope)[k] == every(table_at(t1, k).len()));
                assert(table_at(t1, k) == fields_of(p));
                assert(pick_rows(p, every(p.len())) =~= p);
            }
            assert(tt1 =~= tt);
            assert(non_tables(es1) + tt1 =~= es1);
        },
    }
}

// ---------------------------------------------------------------------------
// Reading content files
// ---------------------------------------------------------------------------

/// The JSON a content file holds: its bytes decompressed where they are
/// gzip (see `spec_content_bytes`), then read by serde_json.
pub open spec fn spec_read_data(ext: Option<Seq<char>>, bytes: Seq<u8>) -> Result<DataView, Seq<char>> {
    match spec_content_bytes(ext, bytes) {
        Err(e) => Err(e),
        Ok(json) => spec_content_data(json),
    }
}

pub open spec fn opt_str(o: Option<&str>) -> Option<Seq<char>> {
    match o {
        Some(s) => Some(s@),
        None => None,
    }
}

/// The JSON a content file holds; `ext` is the file's extension.
pub fn read_content_data(ext: Option<&str>, bytes: Vec<u8>) -> (r: Result<ContentData, String>)
    ensures
        match (r, spec_read_data(opt_str(ext), bytes@)) {
            (Ok(d), Ok(v)) => data_view(d) == v,
            (Err(m), Err(e)) => m@ == e,
            _ => false,
        },
{
    let json = match content_bytes(ext, bytes) {
        Ok(j) => j,
        Err(e) => return Err(e),
    };
    parse_content_data(json.as_slice())
}

/// The `format` that a full backup's format record names
/// (`get("format")?.as_str()`), or the error its JSON gives.
pub fn read_format_record(bytes: &[u8]) -> (r: Result<Option<String>, String>)
    ensures
        match (r, spec_content_data(bytes@)) {
            (Ok(f), Ok(d)) => match f {
                Some(s) => data_text(d, "format"@) == Some(s@),
                None => data_text(d, "format"@) is None,
            },
            (Err(m), Err(e)) => m@ == e,
            _ => false,
        },
{
    match parse_content_data(bytes) {
        Ok(d) => Ok(data_text_exec(&d, "format")),
        Err(e) => Err(e),
    }
}

/// What the deck list reads of a payload: its `format`, `decks` and
/// `notes`.
pub open spec fn payload_of(d: DataView) -> (Option<Seq<char>>, Option<Seq<RowView>>, Option<Seq<RowView>>) {
    (data_text(d, "format"@), data_rows(d, "decks"@), data_rows(d, "notes"@))
}

pub open spec fn opt_fields(o: Option<Vec<Row>>) -> Option<Seq<RowView>> {
    match o {
        Some(v) => Some(rows_view(v@)),
        None => None,
    }
}

fn fields_only(rows: Vec<DataRow>) -> (r: Vec<Row>)
    ensures
        rows_view(r@) == fields_of(rows_data(rows@)),
{
    let (f, _) = split_rows(rows);
    assert(rows_view(f@) =~= fields_of(rows_data(rows@)));
    f
}

/// A payload's `format`, `decks` and `notes`, taken out of it.
pub fn into_payload(d: ContentData) -> (r: (Option<String>, Option<Vec<Row>>, Option<Vec<Row>>))
    ensures
        (match r.0 {
            Some(s) => Some(s@),
            None => None,
        }, opt_fields(r.1), opt_fields(r.2)) == payload_of(data_view(d)),
{
    let mut es = match d {
        ContentData::Other(_) => return (None, None, None),
        ContentData::Object(es) => es,
    };
    let ghost ev = entries_view(es@);
    let mut format: Option<String> = None;
    let mut decks: Option<Vec<Row>> = None;
    let mut notes: Option<Vec<Row>> = None;
    let mut i: usize = 0;
    let n = es.len();
    assert(ev.take(0) =~= Seq::<(Seq<char>, EntryView)>::empty());
    while es.len() > 0
        invariant
            i + es@.len() == n,
            n == ev.len(),
            entries_view(es@) == ev.skip(i as int),
            (match format {
                Some(s) => Some(s@),
                None => None,
            }) == text_at(ev.take(i as int), "format"@),
            opt_fields(decks) == (match opt_rows_at(ev.take(i as int), "decks"@) {
                Some(r) => Some(fields_of(r)),
                None => None,
            }),
            opt_fields(notes) == (match opt_rows_at(ev.take(i as int), "notes"@) {
                Some(r) => Some(fields_of(r)),
                None => None,
            }),
        decreases es@.len(),
    {
        let ghost es0 = entries_view(es@);
        let (key, e) = take_first(&mut es);
        let ghost item = (key@, entry_view(e));
        proof {
            assert(es0[0] == item);
            assert(ev.skip(i as int)[0] == ev[i as int]);
            assert(entries_view(es@) =~= es0.drop_first());
            assert(ev.skip(i as int).drop_first() =~= ev.skip(i + 1));
            assert(ev.take(i + 1).drop_last() =~= ev.take(i as int));
            assert(ev.take(i + 1).last() == item);
            reveal_strlit("format");
            reveal_strlit("decks");
            reveal_strlit("notes");
            assert("format"@.len() == 6 && "decks"@.len() == 5 && "notes"@.len() == 5);
            assert("decks"@[0] == 'd' && "notes"@[0] == 'n');
            assert("format"@ != "decks"@);
            assert("format"@ != "notes"@);
            assert("decks"@ != "notes"@);
        }
        if same_text(key.as_str(), "format") {
            format = match e {
                DataEntry::Text(s) => Some(s),
                _ => None,
            };
        } else if same_text(key.as_str(), "decks") {
            decks = match e {
                DataEntry::Rows(r) => {
                    let f = fields_only(r);
                    assert(opt_rows_at(ev.take(i + 1), "decks"@) == Some(rows_data(r@)));
                    Some(f)
                },
                _ => None,
            };
        } else if same_text(key.as_str(), "notes") {
            notes = match e {
                DataEntry::Rows(r) => {
                    let f = fields_only(r);
                    assert(opt_rows_at(ev.take(i + 1), "notes"@) == Some(rows_data(r@)));
                    Some(f)
                },
                _ => None,
            };
        }
        i += 1;
    }
    assert(ev.take(n as int) =~= ev);
    (format, decks, notes)
}

} // verus!
