//! Country notes in the knowledge graph: the fields of a Country Details
//! note become entities and triples, and each card of the note is linked
//! to the triple it asks about.
use vstd::prelude::*;
use crate::graph::{normalize_type, spec_normalize_type};
use crate::json::{fields_view, json_text, json_text_exec, parse_json_object, spec_json_object, FieldsView, JsonFields};
use crate::text::{chars_of, owned, split, split_vec, string_of, trim, trim_vec, views};

verus! {

/// A field's text, trimmed; empty when missing or not a string.
pub open spec fn spec_field_str(fields: FieldsView, key: Seq<char>) -> Seq<char> {
    match json_text(fields, key) {
        Some(v) => trim(v),
        None => Seq::empty(),
    }
}

pub fn field_str(fields: &JsonFields, key: &str) -> (r: String)
    ensures
        r@ == spec_field_str(fields_view(fields@), key@),
{
    match json_text_exec(fields, key) {
        Some(v) => {
            let c = chars_of(v.as_str());
            string_of(&trim_vec(&c))
        },
        None => {
            proof {
                reveal_strlit("");
            }
            owned("")
        },
    }
}

/// The non-empty pieces, trimmed, in order.
pub open spec fn nonempty_trimmed(parts: Seq<Seq<char>>) -> Seq<Seq<char>>
    decreases parts.len(),
{
    if parts.len() == 0 {
        Seq::empty()
    } else {
        let rest = nonempty_trimmed(parts.drop_last());
        if trim(parts.last()).len() == 0 {
            rest
        } else {
            rest.push(trim(parts.last()))
        }
    }
}

/// The comma-separated items of a value, trimmed, empty ones left out.
pub open spec fn spec_split_csv(value: Seq<char>) -> Seq<Seq<char>> {
    nonempty_trimmed(split(value, seq![',']))
}

pub open spec fn strs(v: Seq<String>) -> Seq<Seq<char>> {
    v.map_values(|s: String| s@)
}

pub fn split_csv(value: &str) -> (r: Vec<String>)
    ensures
        strs(r@) == spec_split_csv(value@),
{
    let v = chars_of(value);
    let mut sep: Vec<char> = Vec::new();
    sep.push(',');
    assert(sep@ =~= seq![',']);
    let parts = split_vec(&v, &sep);
    let ghost pv = views(parts@);
    let mut out: Vec<String> = Vec::new();
    let mut i: usize = 0;
    while i < parts.len()
        invariant
            i <= parts.len(),
            pv == views(parts@),
            strs(out@) == nonempty_trimmed(pv.take(i as int)),
        decreases parts.len() - i,
    {
        assert(pv.take(i + 1).drop_last() =~= pv.take(i as int));
        assert(pv.take(i + 1).last() == parts@[i as int]@);
        let t = trim_vec(&parts[i]);
        if t.len() > 0 {
            let ghost before = strs(out@);
            let s = string_of(&t);
            out.push(s);
            assert(strs(out@) =~= before.push(t@));
        }
        i += 1;
    }
    assert(pv.take(parts.len() as int) =~= pv);
    out
}

/// The fields of a Country Details note.
pub struct CountryFields {
    pub country: String,
    pub capital: String,
    pub rivers: Vec<String>,
    pub languages: Vec<String>,
    pub continent: String,
    pub mountains: Vec<String>,
    pub cities: Vec<String>,
    pub universities: Vec<String>,
    pub currency: String,
}

/// The country fields of a note; none when the country name is empty.
pub open spec fn country_fields_match(r: Option<CountryFields>, f: FieldsView) -> bool {
    if spec_field_str(f, "Country"@).len() == 0 {
        r is None
    } else {
        match r {
            None => false,
            Some(c) => {
                &&& c.country@ == spec_field_str(f, "Country"@)
                &&& c.capital@ == spec_field_str(f, "Capital"@)
                &&& strs(c.rivers@) == spec_split_csv(spec_field_str(f, "Rivers"@))
                &&& strs(c.languages@) == spec_split_csv(spec_field_str(f, "Languages"@))
                &&& c.continent@ == spec_field_str(f, "Continent"@)
                &&& strs(c.mountains@) == spec_split_csv(spec_field_str(f, "Mountains"@))
                &&& strs(c.cities@) == spec_split_csv(spec_field_str(f, "Cities"@))
                &&& strs(c.universities@) == spec_split_csv(spec_field_str(f, "Universities"@))
                &&& c.currency@ == spec_field_str(f, "Currency"@)
            },
        }
    }
}

pub fn parse_country_fields(fields: &JsonFields) -> (r: Option<CountryFields>)
    ensures
        country_fields_match(r, fields_view(fields@)),
{
    let country = field_str(fields, "Country");
    let cv = chars_of(country.as_str());
    if cv.len() == 0 {
        return None;
    }
    let rivers = field_str(fields, "Rivers");
    let languages = field_str(fields, "Languages");
    let mountains = field_str(fields, "Mountains");
    let cities = field_str(fields, "Cities");
    let universities = field_str(fields, "Universities");
    Some(CountryFields {
        country,
        capital: field_str(fields, "Capital"),
        rivers: split_csv(rivers.as_str()),
        languages: split_csv(languages.as_str()),
        continent: field_str(fields, "Continent"),
        mountains: split_csv(mountains.as_str()),
        cities: split_csv(cities.as_str()),
        universities: split_csv(universities.as_str()),
        currency: field_str(fields, "Currency"),
    })
}

/// The country fields of a note's fields text: none when the text is not
/// a JSON object or names no country.
pub fn country_fields_of(fields_json: &str) -> (r: Option<CountryFields>)
    ensures
        match spec_json_object(fields_json@) {
            Some(f) => country_fields_match(r, f),
            None => r is None,
        },
{
    match parse_json_object(fields_json) {
        Some(f) => parse_country_fields(&f),
        None => None,
    }
}

/// An entity type as stored (the same normalization as for entities made
/// by hand).
pub fn normalize_entity_type(t: &str) -> (r: String)
    ensures
        r@ == spec_normalize_type(t@),
{
    normalize_type(t)
}

// ---------------------------------------------------------------------------
// Card slots
// ---------------------------------------------------------------------------

/// The template a card comes from: ordinals from 1000 on encode
/// `template * 1000 + item`.
pub open spec fn spec_base_template_ordinal(o: i64) -> int {
    if o >= 1000 {
        o / 1000
    } else {
        o as int
    }
}

pub fn base_template_ordinal(template_ordinal: i64) -> (r: i64)
    ensures
        r as int == spec_base_template_ordinal(template_ordinal),
{
    if template_ordinal >= 1000 {
        template_ordinal / 1000
    } else {
        template_ordinal
    }
}

/// Which item of a list-valued field a card asks about.
pub open spec fn spec_item_index(o: i64) -> int {
    if o >= 1000 {
        (o % 1000) as int
    } else {
        0
    }
}

pub fn item_index(template_ordinal: i64) -> (r: usize)
    ensures
        r as int == spec_item_index(template_ordinal),
{
    if template_ordinal >= 1000 {
        (template_ordinal % 1000) as usize
    } else {
        0
    }
}

/// The relation types that country notes use: (id, name, inverse name).
pub open spec fn spec_country_relation_types() -> Seq<(Seq<char>, Seq<char>, Seq<char>)> {
    seq![
        ("rt_ctry_capital"@, "Capital"@, "Capital-Of"@),
        ("rt_ctry_river"@, "Has-River"@, "Flows-Through"@),
        ("rt_ctry_language"@, "Has-Language"@, "Official-Language-Of"@),
        ("rt_ctry_mountain"@, "Has-Mountain"@, "Mountain-In"@),
        ("rt_ctry_city"@, "Has-City"@, "City-In"@),
        ("rt_ctry_university"@, "Has-University"@, "University-In"@),
        ("rt_ctry_currency"@, "Has-Currency"@, "Currency-Of"@),
        ("rt_ctry_continent"@, "On-Continent"@, "Contains-Country"@),
    ]
}

pub fn country_relation_types() -> (r: Vec<(String, String, String)>)
    ensures
        r@.map_values(|t: (String, String, String)| (t.0@, t.1@, t.2@)) == spec_country_relation_types(),
{
    let mut r: Vec<(String, String, String)> = Vec::new();
    r.push((owned("rt_ctry_capital"), owned("Capital"), owned("Capital-Of")));
    r.push((owned("rt_ctry_river"), owned("Has-River"), owned("Flows-Through")));
    r.push((owned("rt_ctry_language"), owned("Has-Language"), owned("Official-Language-Of")));
    r.push((owned("rt_ctry_mountain"), owned("Has-Mountain"), owned("Mountain-In")));
    r.push((owned("rt_ctry_city"), owned("Has-City"), owned("City-In")));
    r.push((owned("rt_ctry_university"), owned("Has-University"), owned("University-In")));
    r.push((owned("rt_ctry_currency"), owned("Has-Currency"), owned("Currency-Of")));
    r.push((owned("rt_ctry_continent"), owned("On-Continent"), owned("Contains-Country")));
    assert(r@.map_values(|t: (String, String, String)| (t.0@, t.1@, t.2@)) =~= spec_country_relation_types());
    r
}

/// One triple to make from the country: the object's name and entity
/// type, the relation type, and the card slots (template, item) that ask
/// about it.
pub struct CountryLink {
    pub object_name: String,
    pub object_type: String,
    pub relation_type_id: String,
    pub slots: Vec<(i64, usize)>,
}

/// (object name, object type, relation type id, slots)
pub type LinkView = (Seq<char>, Seq<char>, Seq<char>, Seq<(i64, usize)>);

pub open spec fn link_view(l: CountryLink) -> LinkView {
    (l.object_name@, l.object_type@, l.relation_type_id@, l.slots@)
}

pub open spec fn links_view(v: Seq<CountryLink>) -> Seq<LinkView> {
    v.map_values(|l: CountryLink| link_view(l))
}

pub open spec fn single_link(value: Seq<char>, ty: Seq<char>, rt: Seq<char>, slots: Seq<(i64, usize)>) -> Seq<LinkView> {
    if value.len() == 0 {
        Seq::empty()
    } else {
        seq![(value, ty, rt, slots)]
    }
}

pub open spec fn list_links(items: Seq<Seq<char>>, ty: Seq<char>, rt: Seq<char>, template: i64) -> Seq<LinkView> {
    Seq::new(items.len(), |i: int| (items[i], ty, rt, seq![(template, i as usize)]))
}

/// The triples of a country, in the order they are made: capital (slot
/// 0), rivers (1), languages (2), mountains (3), cities (4), universities
/// (5), currency (6), and the continent, which the flag card (7) shares
/// with the continent card (8).
pub open spec fn spec_country_links(c: CountryFields) -> Seq<LinkView> {
    single_link(c.capital@, "City"@, "rt_ctry_capital"@, seq![(0i64, 0usize)])
        + list_links(strs(c.rivers@), "River"@, "rt_ctry_river"@, 1)
        + list_links(strs(c.languages@), "Language"@, "rt_ctry_language"@, 2)
        + list_links(strs(c.mountains@), "Mountain"@, "rt_ctry_mountain"@, 3)
        + list_links(strs(c.cities@), "City"@, "rt_ctry_city"@, 4)
        + list_links(strs(c.universities@), "University"@, "rt_ctry_university"@, 5)
        + single_link(c.currency@, "Currency"@, "rt_ctry_currency"@, seq![(6i64, 0usize)])
        + single_link(c.continent@, "Continent"@, "rt_ctry_continent"@, seq![(8i64, 0usize), (7i64, 0usize)])
}

fn push_single(out: &mut Vec<CountryLink>, value: &String, ty: &str, rt: &str, slots: Vec<(i64, usize)>)
    ensures
        links_view(final(out)@) == links_view(old(out)@) + single_link(value@, ty@, rt@, slots@),
{
    let ghost before = links_view(out@);
    let v = chars_of(value.as_str());
    if v.len() > 0 {
        let l = CountryLink { object_name: value.clone(), object_type: owned(ty), relation_type_id: owned(rt), slots };
        let ghost lv = link_view(l);
        out.push(l);
        assert(links_view(out@) =~= before + seq![lv]);
    } else {
        assert(links_view(out@) =~= before + Seq::<LinkView>::empty());
    }
}

fn push_list(out: &mut Vec<CountryLink>, items: &Vec<String>, ty: &str, rt: &str, template: i64)
    ensures
        links_view(final(out)@) == links_view(old(out)@) + list_links(strs(items@), ty@, rt@, template),
{
    let ghost before = links_view(out@);
    let mut i: usize = 0;
    while i < items.len()
        invariant
            i <= items.len(),
            links_view(out@) == before + list_links(strs(items@), ty@, rt@, template).take(i as int),
        decreases items.len() - i,
    {
        let mut slots: Vec<(i64, usize)> = Vec::new();
        slots.push((template, i));
        let l = CountryLink { object_name: items[i].clone(), object_type: owned(ty), relation_type_id: owned(rt), slots };
        let ghost lv = link_view(l);
        let ghost mid = links_view(out@);
        out.push(l);
        proof {
            assert(lv == list_links(strs(items@), ty@, rt@, template)[i as int]);
            assert(links_view(out@) =~= mid.push(lv));
            assert(list_links(strs(items@), ty@, rt@, template).take(i + 1) =~= list_links(strs(items@), ty@, rt@, template).take(i as int).push(lv));
        }
        i += 1;
    }
    assert(list_links(strs(items@), ty@, rt@, template).take(items.len() as int) =~= list_links(strs(items@), ty@, rt@, template));
}

/// The triples to make for a country note.
pub fn country_links(c: &CountryFields) -> (r: Vec<CountryLink>)
    ensures
        links_view(r@) == spec_country_links(*c),
{
    let mut out: Vec<CountryLink> = Vec::new();
    assert(links_view(out@) =~= Seq::<LinkView>::empty());
    let mut s0: Vec<(i64, usize)> = Vec::new();
    s0.push((0, 0));
    assert(s0@ =~= seq![(0i64, 0usize)]);
    push_single(&mut out, &c.capital, "City", "rt_ctry_capital", s0);
    push_list(&mut out, &c.rivers, "River", "rt_ctry_river", 1);
    push_list(&mut out, &c.languages, "Language", "rt_ctry_language", 2);
    push_list(&mut out, &c.mountains, "Mountain", "rt_ctry_mountain", 3);
    push_list(&mut out, &c.cities, "City", "rt_ctry_city", 4);
    push_list(&mut out, &c.universities, "University", "rt_ctry_university", 5);
    let mut s6: Vec<(i64, usize)> = Vec::new();
    s6.push((6, 0));
    assert(s6@ =~= seq![(6i64, 0usize)]);
    push_single(&mut out, &c.currency, "Currency", "rt_ctry_currency", s6);
    let mut s8: Vec<(i64, usize)> = Vec::new();
    s8.push((8, 0));
    s8.push((7, 0));
    assert(s8@ =~= seq![(8i64, 0usize), (7i64, 0usize)]);
    push_single(&mut out, &c.continent, "Continent", "rt_ctry_continent", s8);
    assert(links_view(out@) =~= spec_country_links(*c));
    out
}

/// The triple recorded for a slot (a later record for the same slot
/// replaces an earlier one).
pub open spec fn slot_triple(slots: Seq<((i64, usize), Seq<char>)>, slot: (int, int)) -> Option<Seq<char>>
    decreases slots.len(),
{
    if slots.len() == 0 {
        None
    } else if slots.last().0.0 as int == slot.0 && slots.last().0.1 as int == slot.1 {
        Some(slots.last().1)
    } else {
        slot_triple(slots.drop_last(), slot)
    }
}

/// Each card that asks about a recorded slot, with that slot's triple;
/// cards in their order.
pub open spec fn spec_card_links(slots: Seq<((i64, usize), Seq<char>)>, cards: Seq<(Seq<char>, i64)>) -> Seq<(Seq<char>, Seq<char>)>
    decreases cards.len(),
{
    if cards.len() == 0 {
        Seq::empty()
    } else {
        let rest = spec_card_links(slots, cards.drop_last());
        let c = cards.last();
        match slot_triple(slots, (spec_base_template_ordinal(c.1), spec_item_index(c.1))) {
            Some(t) => rest.push((c.0, t)),
            None => rest,
        }
    }
}

fn slot_triple_exec(slots: &Vec<((i64, usize), String)>, base: i64, idx: usize) -> (r: Option<String>)
    ensures
        match r {
            Some(t) => slot_triple(slots@.map_values(|s: ((i64, usize), String)| (s.0, s.1@)), (base as int, idx as int)) == Some(t@),
            None => slot_triple(slots@.map_values(|s: ((i64, usize), String)| (s.0, s.1@)), (base as int, idx as int)) is None,
        },
{
    let ghost sv = slots@.map_values(|s: ((i64, usize), String)| (s.0, s.1@));
    let mut out: Option<String> = None;
    let mut j: usize = 0;
    while j < slots.len()
        invariant
            j <= slots.len(),
            sv == slots@.map_values(|s: ((i64, usize), String)| (s.0, s.1@)),
            match out {
                Some(t) => slot_triple(sv.take(j as int), (base as int, idx as int)) == Some(t@),
                None => slot_triple(sv.take(j as int), (base as int, idx as int)) is None,
            },
        decreases slots.len() - j,
    {
        assert(sv.take(j + 1).drop_last() =~= sv.take(j as int));
        assert(sv.take(j + 1).last() == sv[j as int]);
        if slots[j].0.0 == base && slots[j].0.1 == idx {
            out = Some(slots[j].1.clone());
        }
        j += 1;
    }
    assert(sv.take(slots.len() as int) =~= sv);
    out
}

/// The (card, triple) links to make for a note's cards, from the triples
/// recorded per slot.
pub fn card_links(slots: &Vec<((i64, usize), String)>, cards: &Vec<(String, i64)>) -> (r: Vec<(String, String)>)
    ensures
        r@.map_values(|p: (String, String)| (p.0@, p.1@)) == spec_card_links(
            slots@.map_values(|s: ((i64, usize), String)| (s.0, s.1@)),
            cards@.map_values(|c: (String, i64)| (c.0@, c.1)),
        ),
{
    let ghost sv = slots@.map_values(|s: ((i64, usize), String)| (s.0, s.1@));
    let ghost cv = cards@.map_values(|c: (String, i64)| (c.0@, c.1));
    let mut out: Vec<(String, String)> = Vec::new();
    let mut i: usize = 0;
    while i < cards.len()
        invariant
            i <= cards.len(),
            sv == slots@.map_values(|s: ((i64, usize), String)| (s.0, s.1@)),
            cv == cards@.map_values(|c: (String, i64)| (c.0@, c.1)),
            out@.map_values(|p: (String, String)| (p.0@, p.1@)) == spec_card_links(sv, cv.take(i as int)),
        decreases cards.len() - i,
    {
        assert(cv.take(i + 1).drop_last() =~= cv.take(i as int));
        assert(cv.take(i + 1).last() == cv[i as int]);
        let base = base_template_ordinal(cards[i].1);
        let idx = item_index(cards[i].1);
        match slot_triple_exec(slots, base, idx) {
            Some(t) => {
                let ghost before = out@.map_values(|p: (String, String)| (p.0@, p.1@));
                let ghost tv = t@;
                out.push((cards[i].0.clone(), t));
                assert(out@.map_values(|p: (String, String)| (p.0@, p.1@)) =~= before.push((cards@[i as int].0@, tv)));
            },
            None => {},
        }
        i += 1;
    }
    assert(cv.take(cards.len() as int) =~= cv);
    out
}

} // verus!
