//! The data file of a Mochi export read into decks, templates and cards.
use serde_json::Value;
use vstd::prelude::*;
use crate::json::{fields_view, json_text, json_text_exec, FieldsView, JsonFields};
use crate::mochi::{edn_to_json_text, spec_edn_to_json_text};
use crate::mochi_plan::{opt_string_view, MochiCard, MochiField, MochiTemplate};
use crate::content_data::take_first;
use crate::text::{byte_prefix, byte_prefix_exec, chars_of, push_str, string_of};

verus! {

// ---------------------------------------------------------------------------
// The JSON as read
// ---------------------------------------------------------------------------

/// A template as read: its entries (with the text of those that are
/// strings), and the entries of each value of its `fields` (`None` where
/// `fields` is no object).
pub type TemplateItem = (JsonFields, Option<Vec<JsonFields>>);

/// A card as read: its entries, and the entries of its `fields` (`None`
/// where `fields` is no object).
pub type CardItem = (JsonFields, Option<JsonFields>);

pub type TemplateItemView = (FieldsView, Option<Seq<FieldsView>>);

pub type CardItemView = (FieldsView, Option<FieldsView>);

pub open spec fn template_item_view(t: TemplateItem) -> TemplateItemView {
    (
        fields_view(t.0@),
        match t.1 {
            Some(v) => Some(v@.map_values(|f: JsonFields| fields_view(f@))),
            None => None,
        },
    )
}

pub open spec fn card_item_view(c: CardItem) -> CardItemView {
    (
        fields_view(c.0@),
        match c.1 {
            Some(f) => Some(fields_view(f@)),
            None => None,
        },
    )
}

pub open spec fn cards_view(v: Seq<CardItem>) -> Seq<CardItemView> {
    v.map_values(|c: CardItem| card_item_view(c))
}

pub open spec fn templates_view(v: Seq<TemplateItem>) -> Seq<TemplateItemView> {
    v.map_values(|t: TemplateItem| template_item_view(t))
}

pub open spec fn rows_of(v: Seq<JsonFields>) -> Seq<FieldsView> {
    v.map_values(|r: JsonFields| fields_view(r@))
}

/// What `serde_json::from_str` makes of the data text's `decks` (each
/// deck's entries), or the message of its error.
pub uninterp spec fn spec_mochi_decks(text: Seq<char>) -> Result<Seq<FieldsView>, Seq<char>>;

/// What `serde_json::from_str` makes of the templates of each of the data
/// text's `decks`, or the message of its error.
pub uninterp spec fn spec_mochi_deck_templates(text: Seq<char>) -> Result<Seq<Seq<TemplateItemView>>, Seq<char>>;

/// What `serde_json::from_str` makes of the cards of each of the data
/// text's `decks`, or the message of its error.
pub uninterp spec fn spec_mochi_deck_cards(text: Seq<char>) -> Result<Seq<Seq<CardItemView>>, Seq<char>>;

/// What `serde_json::from_str` makes of the data text's top-level `cards`,
/// or the message of its error.
pub uninterp spec fn spec_mochi_cards(text: Seq<char>) -> Result<Seq<CardItemView>, Seq<char>>;

/// `serde_json::from_str::<serde_json::Value>` on the data text, then the
/// entries of each of its `decks` taken one for one. Claimed: the outcome
/// is a function of the text alone.
#[verifier::external_body]
pub(crate) fn parse_mochi_decks(text: &str) -> (r: Result<Vec<JsonFields>, String>)
    ensures
        match r {
            Ok(d) => spec_mochi_decks(text@) == Ok::<Seq<FieldsView>, Seq<char>>(rows_of(d@)),
            Err(e) => spec_mochi_decks(text@) == Err::<Seq<FieldsView>, Seq<char>>(e@),
        },
{
    let v: Value = serde_json::from_str(text).map_err(|e| e.to_string())?;
    let row = |x: &Value| -> JsonFields { x.as_object().into_iter().flatten().map(|(k, y)| (k.clone(), y.as_str().map(String::from))).collect() };
    Ok(v["decks"].as_array().into_iter().flatten().map(row).collect())
}

/// `serde_json::from_str::<serde_json::Value>` on the data text, then the
/// `templates` of each of its `decks` taken one for one. Claimed: the
/// outcome is a function of the text alone.
#[verifier::external_body]
pub(crate) fn parse_mochi_deck_templates(text: &str) -> (r: Result<Vec<Vec<TemplateItem>>, String>)
    ensures
        match r {
            Ok(t) => spec_mochi_deck_templates(text@) == Ok::<Seq<Seq<TemplateItemView>>, Seq<char>>(t@.map_values(|v: Vec<TemplateItem>| templates_view(v@))),
            Err(e) => spec_mochi_deck_templates(text@) == Err::<Seq<Seq<TemplateItemView>>, Seq<char>>(e@),
        },
{
    let v: Value = serde_json::from_str(text).map_err(|e| e.to_string())?;
    let row = |x: &Value| -> JsonFields { x.as_object().into_iter().flatten().map(|(k, y)| (k.clone(), y.as_str().map(String::from))).collect() };
    let template = |t: &Value| (row(t), t["fields"].as_object().map(|o| o.values().map(row).collect()));
    Ok(v["decks"].as_array().into_iter().flatten().map(|d| d["templates"].as_array().into_iter().flatten().map(template).collect()).collect())
}

/// `serde_json::from_str::<serde_json::Value>` on the data text, then the
/// `cards` of each of its `decks` taken one for one. Claimed: the outcome
/// is a function of the text alone.
#[verifier::external_body]
pub(crate) fn parse_mochi_deck_cards(text: &str) -> (r: Result<Vec<Vec<CardItem>>, String>)
    ensures
        match r {
            Ok(c) => spec_mochi_deck_cards(text@) == Ok::<Seq<Seq<CardItemView>>, Seq<char>>(c@.map_values(|v: Vec<CardItem>| cards_view(v@))),
            Err(e) => spec_mochi_deck_cards(text@) == Err::<Seq<Seq<CardItemView>>, Seq<char>>(e@),
        },
{
    let v: Value = serde_json::from_str(text).map_err(|e| e.to_string())?;
    let row = |x: &Value| -> JsonFields { x.as_object().into_iter().flatten().map(|(k, y)| (k.clone(), y.as_str().map(String::from))).collect() };
    let card = |x: &Value| (row(x), x["fields"].as_object().map(|_| row(&x["fields"])));
    Ok(v["decks"].as_array().into_iter().flatten().map(|d| d["cards"].as_array().into_iter().flatten().map(card).collect()).collect())
}

/// `serde_json::from_str::<serde_json::Value>` on the data text, then its
/// top-level `cards` taken one for one. Claimed: the outcome is a function
/// of the text alone.
#[verifier::external_body]
pub(crate) fn parse_mochi_cards(text: &str) -> (r: Result<Vec<CardItem>, String>)
    ensures
        match r {
            Ok(c) => spec_mochi_cards(text@) == Ok::<Seq<CardItemView>, Seq<char>>(cards_view(c@)),
            Err(e) => spec_mochi_cards(text@) == Err::<Seq<CardItemView>, Seq<char>>(e@),
        },
{
    let v: Value = serde_json::from_str(text).map_err(|e| e.to_string())?;
    let row = |x: &Value| -> JsonFields { x.as_object().into_iter().flatten().map(|(k, y)| (k.clone(), y.as_str().map(String::from))).collect() };
    let card = |x: &Value| (row(x), x["fields"].as_object().map(|_| row(&x["fields"])));
    Ok(v["cards"].as_array().into_iter().flatten().map(card).collect())
}


// ---------------------------------------------------------------------------
// The data as the library holds it
// ---------------------------------------------------------------------------

/// A deck of the export: its id ("" when none), its name and its parent's
/// export id when given, and its templates and cards in the order read.
pub struct MochiDeckIn {
    pub id: String,
    pub name: Option<String>,
    pub parent_id: Option<String>,
    pub templates: Vec<MochiTemplate>,
    pub cards: Vec<MochiCard>,
}

/// The decks of the export, and the cards listed beside them.
pub struct MochiData {
    pub decks: Vec<MochiDeckIn>,
    pub cards: Vec<MochiCard>,
}

/// The text under `key`, "" where there is none.
pub open spec fn text_or_empty(f: FieldsView, key: Seq<char>) -> Seq<char> {
    match json_text(f, key) {
        Some(t) => t,
        None => Seq::empty(),
    }
}

pub open spec fn field_from(f: MochiField, row: FieldsView) -> bool {
    &&& opt_string_view(f.name) == json_text(row, "name"@)
    &&& opt_string_view(f.pos) == json_text(row, "pos"@)
}

/// `t` is the template read from `item`.
pub open spec fn template_from(t: MochiTemplate, item: TemplateItemView) -> bool {
    &&& t.id@ == text_or_empty(item.0, "id"@)
    &&& opt_string_view(t.name) == json_text(item.0, "name"@)
    &&& opt_string_view(t.content) == json_text(item.0, "content"@)
    &&& match t.fields {
        Some(fs) => item.1 matches Some(rows) && fs@.len() == rows.len() && forall|i: int|
            0 <= i < rows.len() ==> field_from(#[trigger] fs@[i], rows[i]),
        None => item.1 is None,
    }
}

/// `c` is the card read from `item`.
pub open spec fn card_from(c: MochiCard, item: CardItemView) -> bool {
    &&& c.id@ == text_or_empty(item.0, "id"@)
    &&& c.deck_id@ == text_or_empty(item.0, "deck-id"@)
    &&& match c.fields {
        Some(fs) => item.1 == Some(fields_view(fs@)),
        None => item.1 is None,
    }
    &&& opt_string_view(c.content) == json_text(item.0, "content"@)
    &&& opt_string_view(c.name) == json_text(item.0, "name"@)
}

/// `d` is the deck read from `row`, with the templates and cards listed
/// under it.
pub open spec fn deck_from(d: MochiDeckIn, row: FieldsView, temps: Seq<TemplateItemView>, cards: Seq<CardItemView>) -> bool {
    &&& d.id@ == text_or_empty(row, "id"@)
    &&& opt_string_view(d.name) == json_text(row, "name"@)
    &&& opt_string_view(d.parent_id) == json_text(row, "parent-id"@)
    &&& d.templates@.len() == temps.len()
    &&& forall|i: int| 0 <= i < temps.len() ==> template_from(#[trigger] d.templates@[i], temps[i])
    &&& d.cards@.len() == cards.len()
    &&& forall|i: int| 0 <= i < cards.len() ==> card_from(#[trigger] d.cards@[i], cards[i])
}

/// The `i`-th list of `s`, empty past its end.
pub open spec fn nth_or_empty<T>(s: Seq<Seq<T>>, i: int) -> Seq<T> {
    if 0 <= i < s.len() {
        s[i]
    } else {
        Seq::empty()
    }
}

/// The first error met in reading the data text, if any.
pub open spec fn mochi_parse_error(text: Seq<char>) -> Option<Seq<char>> {
    match spec_mochi_decks(text) {
        Err(e) => Some(e),
        Ok(_) => match spec_mochi_deck_templates(text) {
            Err(e) => Some(e),
            Ok(_) => match spec_mochi_deck_cards(text) {
                Err(e) => Some(e),
                Ok(_) => match spec_mochi_cards(text) {
                    Err(e) => Some(e),
                    Ok(_) => None,
                },
            },
        },
    }
}

/// `d` holds what the data text lists: each deck with its templates and
/// cards, and the cards listed beside the decks, in the order read.
pub open spec fn mochi_data_from(d: MochiData, text: Seq<char>) -> bool {
    &&& spec_mochi_decks(text) matches Ok(rows)
    &&& spec_mochi_deck_templates(text) matches Ok(dt)
    &&& spec_mochi_deck_cards(text) matches Ok(dc)
    &&& spec_mochi_cards(text) matches Ok(cs)
    &&& d.decks@.len() == rows.len()
    &&& forall|i: int| 0 <= i < rows.len() ==> deck_from(#[trigger] d.decks@[i], rows[i], nth_or_empty(dt, i), nth_or_empty(dc, i))
    &&& d.cards@.len() == cs.len()
    &&& forall|i: int| 0 <= i < cs.len() ==> card_from(#[trigger] d.cards@[i], cs[i])
}

fn text_or_empty_exec(f: &JsonFields, key: &str) -> (r: String)
    ensures
        r@ == text_or_empty(fields_view(f@), key@),
{
    match json_text_exec(f, key) {
        Some(t) => t,
        None => String::new(),
    }
}

fn field_of(row: &JsonFields) -> (f: MochiField)
    ensures
        field_from(f, fields_view(row@)),
{
    MochiField { name: json_text_exec(row, "name"), pos: json_text_exec(row, "pos") }
}

fn template_of(item: TemplateItem) -> (t: MochiTemplate)
    ensures
        template_from(t, template_item_view(item)),
{
    let (row, fields) = item;
    let fs = match fields {
        Some(rows) => {
            let mut out: Vec<MochiField> = Vec::new();
            let mut i: usize = 0;
            while i < rows.len()
                invariant
                    i <= rows.len(),
                    out@.len() == i,
                    forall|j: int| 0 <= j < i ==> field_from(#[trigger] out@[j], fields_view(rows@[j]@)),
                decreases rows.len() - i,
            {
                out.push(field_of(&rows[i]));
                i += 1;
            }
            Some(out)
        },
        None => None,
    };
    MochiTemplate {
        id: text_or_empty_exec(&row, "id"),
        name: json_text_exec(&row, "name"),
        content: json_text_exec(&row, "content"),
        fields: fs,
    }
}

fn card_of(item: CardItem) -> (c: MochiCard)
    ensures
        card_from(c, card_item_view(item)),
{
    let (row, fields) = item;
    MochiCard {
        id: text_or_empty_exec(&row, "id"),
        deck_id: text_or_empty_exec(&row, "deck-id"),
        fields: fields,
        content: json_text_exec(&row, "content"),
        name: json_text_exec(&row, "name"),
    }
}

fn templates_of(items: Vec<TemplateItem>) -> (r: Vec<MochiTemplate>)
    ensures
        r@.len() == items@.len(),
        forall|i: int| 0 <= i < items@.len() ==> template_from(#[trigger] r@[i], templates_view(items@)[i]),
{
    let ghost orig = templates_view(items@);
    let mut rest = items;
    let mut out: Vec<MochiTemplate> = Vec::new();
    while rest.len() > 0
        invariant
            out@.len() + rest@.len() == orig.len(),
            forall|j: int| 0 <= j < rest@.len() ==> template_item_view(#[trigger] rest@[j]) == orig[out@.len() + j],
            forall|j: int| 0 <= j < out@.len() ==> template_from(#[trigger] out@[j], orig[j]),
        decreases rest@.len(),
    {
        let ghost before = rest@;
        let ghost k: int = out@.len() as int;
        let item = take_first(&mut rest);
        assert(template_item_view(item) == orig[k]);
        out.push(template_of(item));
        assert forall|j: int| 0 <= j < rest@.len() implies template_item_view(#[trigger] rest@[j]) == orig[out@.len() + j] by {
            assert(rest@[j] == before[j + 1]);
            assert(template_item_view(before[j + 1]) == orig[k + (j + 1)]);
        }
    }
    out
}

fn cards_of(items: Vec<CardItem>) -> (r: Vec<MochiCard>)
    ensures
        r@.len() == items@.len(),
        forall|i: int| 0 <= i < items@.len() ==> card_from(#[trigger] r@[i], cards_view(items@)[i]),
{
    let ghost orig = cards_view(items@);
    let mut rest = items;
    let mut out: Vec<MochiCard> = Vec::new();
    while rest.len() > 0
        invariant
            out@.len() + rest@.len() == orig.len(),
            forall|j: int| 0 <= j < rest@.len() ==> card_item_view(#[trigger] rest@[j]) == orig[out@.len() + j],
            forall|j: int| 0 <= j < out@.len() ==> card_from(#[trigger] out@[j], orig[j]),
        decreases rest@.len(),
    {
        let ghost before = rest@;
        let ghost k: int = out@.len() as int;
        let item = take_first(&mut rest);
        assert(card_item_view(item) == orig[k]);
        out.push(card_of(item));
        assert forall|j: int| 0 <= j < rest@.len() implies card_item_view(#[trigger] rest@[j]) == orig[out@.len() + j] by {
            assert(rest@[j] == before[j + 1]);
            assert(card_item_view(before[j + 1]) == orig[k + (j + 1)]);
        }
    }
    out
}

/// The data text read into decks, templates and cards, or the first error
/// met in reading it.
pub fn read_mochi_data(text: &str) -> (r: Result<MochiData, String>)
    ensures
        match r {
            Ok(d) => mochi_parse_error(text@) is None && mochi_data_from(d, text@),
            Err(e) => mochi_parse_error(text@) == Some(e@),
        },
{
    let rows = match parse_mochi_decks(text) {
        Ok(d) => d,
        Err(e) => return Err(e),
    };
    let mut dt = match parse_mochi_deck_templates(text) {
        Ok(t) => t,
        Err(e) => return Err(e),
    };
    let mut dc = match parse_mochi_deck_cards(text) {
        Ok(c) => c,
        Err(e) => return Err(e),
    };
    let cs = match parse_mochi_cards(text) {
        Ok(c) => c,
        Err(e) => return Err(e),
    };
    let ghost rv = rows_of(rows@);
    let ghost dtv = dt@.map_values(|v: Vec<TemplateItem>| templates_view(v@));
    let ghost dcv = dc@.map_values(|v: Vec<CardItem>| cards_view(v@));
    let mut decks: Vec<MochiDeckIn> = Vec::new();
    let mut i: usize = 0;
    while i < rows.len()
        invariant
            i <= rows.len(),
            decks@.len() == i,
            rv == rows_of(rows@),
            dt@.len() == if dtv.len() > i { dtv.len() - i } else { 0 },
            dc@.len() == if dcv.len() > i { dcv.len() - i } else { 0 },
            forall|j: int| 0 <= j < dt@.len() ==> templates_view((#[trigger] dt@[j])@) == dtv[i + j],
            forall|j: int| 0 <= j < dc@.len() ==> cards_view((#[trigger] dc@[j])@) == dcv[i + j],
            forall|j: int| 0 <= j < i ==> deck_from(#[trigger] decks@[j], rv[j], nth_or_empty(dtv, j), nth_or_empty(dcv, j)),
        decreases rows.len() - i,
    {
        let ghost dt_before = dt@;
        let ghost dc_before = dc@;
        let temps = if dt.len() > 0 {
            take_first(&mut dt)
        } else {
            Vec::new()
        };
        let cards = if dc.len() > 0 {
            take_first(&mut dc)
        } else {
            Vec::new()
        };
        assert(templates_view(temps@) == nth_or_empty(dtv, i as int));
        assert(cards_view(cards@) == nth_or_empty(dcv, i as int));
        let row = &rows[i];
        let d = MochiDeckIn {
            id: text_or_empty_exec(row, "id"),
            name: json_text_exec(row, "name"),
            parent_id: json_text_exec(row, "parent-id"),
            templates: templates_of(temps),
            cards: cards_of(cards),
        };
        decks.push(d);
        assert forall|j: int| 0 <= j < dt@.len() implies templates_view((#[trigger] dt@[j])@) == dtv[(i + 1) + j] by {
            assert(dt@[j] == dt_before[j + 1]);
        }
        assert forall|j: int| 0 <= j < dc@.len() implies cards_view((#[trigger] dc@[j])@) == dcv[(i + 1) + j] by {
            assert(dc@[j] == dc_before[j + 1]);
        }
        i += 1;
    }
    Ok(MochiData { decks, cards: cards_of(cs) })
}

/// The text that is read: the data text itself, or the JSON text made of
/// an EDN data file.
pub open spec fn mochi_json_text(data_text: Seq<char>, is_edn: bool) -> Seq<char> {
    if is_edn {
        spec_edn_to_json_text(data_text)
    } else {
        data_text
    }
}

/// The first 200 bytes of the converted text, shown in the error.
pub open spec fn shown_prefix(converted: Seq<char>) -> Seq<char> {
    match byte_prefix(converted, 200) {
        Some(p) => p,
        None => Seq::empty(),
    }
}

/// The error of an import of the data text, if any.
pub open spec fn mochi_import_error(data_text: Seq<char>, is_edn: bool) -> Option<Seq<char>> {
    let text = mochi_json_text(data_text, is_edn);
    match mochi_parse_error(text) {
        Some(e) => if is_edn {
            Some("Failed to parse converted EDN: "@ + e + " (converted: "@ + shown_prefix(text) + ")"@)
        } else {
            Some("Invalid JSON: "@ + e)
        },
        None => None,
    }
}

/// Showing the converted text in the error would cut it inside a character.
pub open spec fn mochi_import_cuts_char(data_text: Seq<char>, is_edn: bool) -> bool {
    let text = mochi_json_text(data_text, is_edn);
    is_edn && mochi_parse_error(text) is Some && byte_prefix(text, 200) is None
}

/// The decks, templates and cards of a Mochi data file (`data.json`, or
/// `data.edn` when `is_edn`), or the error that stops the import.
pub fn plan_mochi_import(data_text: &str, is_edn: bool) -> (r: Result<MochiData, String>)
    requires
        !mochi_import_cuts_char(data_text@, is_edn),
    ensures
        match r {
            Ok(d) => mochi_import_error(data_text@, is_edn) is None && mochi_data_from(d, mochi_json_text(data_text@, is_edn)),
            Err(e) => mochi_import_error(data_text@, is_edn) == Some(e@),
        },
{
    if !is_edn {
        return match read_mochi_data(data_text) {
            Ok(d) => Ok(d),
            Err(e) => {
                let mut msg: Vec<char> = Vec::new();
                push_str(&mut msg, "Invalid JSON: ");
                push_str(&mut msg, e.as_str());
                Err(string_of(&msg))
            },
        };
    }
    let converted = edn_to_json_text(data_text);
    match read_mochi_data(converted.as_str()) {
        Ok(d) => Ok(d),
        Err(e) => {
            let shown = match byte_prefix_exec(&chars_of(converted.as_str()), 200) {
                Some(p) => p,
                None => Vec::new(),
            };
            let mut msg: Vec<char> = Vec::new();
            push_str(&mut msg, "Failed to parse converted EDN: ");
            push_str(&mut msg, e.as_str());
            push_str(&mut msg, " (converted: ");
            crate::text::push_all(&mut msg, &shown);
            push_str(&mut msg, ")");
            Err(string_of(&msg))
        },
    }
}

/// `plan_mochi_import`, or `None` where the error would have to show the
/// converted text cut inside a character.
pub fn plan_mochi_import_checked(data_text: &str, is_edn: bool) -> (r: Option<Result<MochiData, String>>)
    ensures
        match r {
            None => mochi_import_cuts_char(data_text@, is_edn),
            Some(x) => !mochi_import_cuts_char(data_text@, is_edn) && match x {
                Ok(d) => mochi_import_error(data_text@, is_edn) is None && mochi_data_from(d, mochi_json_text(data_text@, is_edn)),
                Err(e) => mochi_import_error(data_text@, is_edn) == Some(e@),
            },
        },
{
    if is_edn {
        let converted = edn_to_json_text(data_text);
        if read_mochi_data(converted.as_str()).is_err() {
            if byte_prefix_exec(&chars_of(converted.as_str()), 200).is_none() {
                return None;
            }
        }
    }
    Some(plan_mochi_import(data_text, is_edn))
}

} // verus!

