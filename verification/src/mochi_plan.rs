//! Mochi exports: the deck, note type and note that each item of an
//! export becomes (the database work aside).
use vstd::prelude::*;
use crate::text::{
    chars_of, contains, contains_str, decimal, ends_with, ends_with_exec, lowercase, owned, push_decimal, push_str,
    spec_lowercase, starts_with, starts_with_exec, string_of, text_less, text_lt,
};

verus! {

// ---------------------------------------------------------------------------
// Ids
// ---------------------------------------------------------------------------

pub open spec fn is_hex_digit(c: char) -> bool {
    ('0' <= c && c <= '9') || ('a' <= c && c <= 'f')
}

/// A random id as uuid's simple format writes it: 32 lower-case
/// hexadecimal digits.
pub open spec fn is_simple_id(s: Seq<char>) -> bool {
    s.len() == 32 && forall|i: int| 0 <= i < 32 ==> is_hex_digit(#[trigger] s[i])
}

/// `uuid::Uuid::new_v4().simple()` as text. Claimed, from uuid's `Simple`
/// formatter: 32 lower-case hexadecimal digits. Which digits is left open:
/// they are random.
#[verifier::external_body]
fn fresh_id() -> (r: String)
    ensures
        is_simple_id(r@),
{
    uuid::Uuid::new_v4().simple().to_string()
}

/// The id of an item with export id `key`: `keyed + key` when the export
/// gives one, else `fresh` followed by a random id.
pub open spec fn id_for(id: Seq<char>, keyed: Seq<char>, fresh: Seq<char>, key: Seq<char>) -> bool {
    if key.len() > 0 {
        id == keyed + key
    } else {
        &&& id.len() == fresh.len() + 32
        &&& id.take(fresh.len() as int) == fresh
        &&& is_simple_id(id.skip(fresh.len() as int))
    }
}

fn make_id(keyed: &str, fresh: &str, key: &str) -> (r: String)
    ensures
        id_for(r@, keyed@, fresh@, key@),
{
    let kv = chars_of(key);
    let mut out: Vec<char> = Vec::new();
    if kv.len() > 0 {
        push_str(&mut out, keyed);
        push_str(&mut out, key);
    } else {
        push_str(&mut out, fresh);
        let r = fresh_id();
        push_str(&mut out, r.as_str());
        assert(out@.take(fresh@.len() as int) =~= fresh@);
        assert(out@.skip(fresh@.len() as int) =~= r@);
    }
    string_of(&out)
}

// ---------------------------------------------------------------------------
// Decks
// ---------------------------------------------------------------------------

/// The decks made so far: (export id, deck id), the latest last.
pub open spec fn known_view(known: Seq<(String, String)>) -> Seq<(Seq<char>, Seq<char>)> {
    known.map_values(|e: (String, String)| (e.0@, e.1@))
}

/// The deck made for export id `key`: the latest one made for it.
pub open spec fn lookup(known: Seq<(Seq<char>, Seq<char>)>, key: Seq<char>) -> Option<Seq<char>>
    decreases known.len(),
{
    if known.len() == 0 {
        None
    } else if known.last().0 == key {
        Some(known.last().1)
    } else {
        lookup(known.drop_last(), key)
    }
}

fn lookup_exec(known: &Vec<(String, String)>, key: &str) -> (r: Option<String>)
    ensures
        match r {
            Some(d) => lookup(known_view(known@), key@) == Some(d@),
            None => lookup(known_view(known@), key@) is None,
        },
{
    let ghost kv = known_view(known@);
    let mut i: usize = known.len();
    assert(kv.take(known.len() as int) =~= kv);
    while i > 0
        invariant
            i <= known.len(),
            kv == known_view(known@),
            lookup(kv, key@) == lookup(kv.take(i as int), key@),
        decreases i,
    {
        assert(kv.take(i as int).drop_last() =~= kv.take(i - 1));
        assert(kv.take(i as int).last() == kv[i - 1]);
        if crate::text::same_text(known[i - 1].0.as_str(), key) {
            return Some(known[i - 1].1.clone());
        }
        i -= 1;
    }
    assert(kv.take(0) =~= Seq::<(Seq<char>, Seq<char>)>::empty());
    None
}

pub struct MochiDeckPlan {
    pub id: String,
    pub name: String,
    pub parent_id: Option<String>,
}

pub open spec fn opt_view(o: Option<&str>) -> Option<Seq<char>> {
    match o {
        Some(s) => Some(s@),
        None => None,
    }
}

pub open spec fn opt_string_view(o: Option<String>) -> Option<Seq<char>> {
    match o {
        Some(s) => Some(s@),
        None => None,
    }
}

/// A deck of the export: `dk_mochi_<id>` (or `dk_` and a random id when it
/// has none), named as given or "Imported Deck", under the deck made for
/// its parent when that was made before it.
pub fn mochi_deck(mochi_id: &str, name: Option<&str>, parent_mochi_id: Option<&str>, known: &Vec<(String, String)>) -> (d:
    MochiDeckPlan)
    ensures
        id_for(d.id@, "dk_mochi_"@, "dk_"@, mochi_id@),
        d.name@ == match name {
            Some(n) => n@,
            None => "Imported Deck"@,
        },
        opt_string_view(d.parent_id) == match parent_mochi_id {
            Some(p) => lookup(known_view(known@), p@),
            None => None,
        },
{
    let id = make_id("dk_mochi_", "dk_", mochi_id);
    let name = match name {
        Some(n) => owned(n),
        None => owned("Imported Deck"),
    };
    let parent_id = match parent_mochi_id {
        Some(p) => lookup_exec(known, p),
        None => None,
    };
    MochiDeckPlan { id, name, parent_id }
}

/// Notes a made deck under its export id (a deck without one cannot be
/// found again).
pub fn remember_deck(known: &mut Vec<(String, String)>, mochi_id: &str, deck_id: &str)
    ensures
        known_view(final(known)@) == if mochi_id@.len() > 0 {
            known_view(old(known)@).push((mochi_id@, deck_id@))
        } else {
            known_view(old(known)@)
        },
{
    let ghost before = known_view(known@);
    if chars_of(mochi_id).len() > 0 {
        known.push((owned(mochi_id), owned(deck_id)));
        assert(known_view(known@) =~= before.push((mochi_id@, deck_id@)));
    }
}

/// The deck a card listed outside the decks goes to: the one made for its
/// deck's export id, else the first deck made, else none.
pub open spec fn spec_card_deck(known: Seq<(Seq<char>, Seq<char>)>, deck_key: Seq<char>) -> Option<Seq<char>> {
    match lookup(known, deck_key) {
        Some(d) => Some(d),
        None => if known.len() > 0 {
            Some(known[0].1)
        } else {
            None
        },
    }
}

pub fn mochi_card_deck(known: &Vec<(String, String)>, deck_mochi_id: &str) -> (r: Option<String>)
    ensures
        opt_string_view(r) == spec_card_deck(known_view(known@), deck_mochi_id@),
{
    match lookup_exec(known, deck_mochi_id) {
        Some(d) => Some(d),
        None => if known.len() > 0 {
            Some(known[0].1.clone())
        } else {
            None
        },
    }
}

// ---------------------------------------------------------------------------
// Templates
// ---------------------------------------------------------------------------

/// A field of a template: its name and its position, when given.
pub struct MochiField {
    pub name: Option<String>,
    pub pos: Option<String>,
}

/// A template of the export: its id ("" when none), name, content and
/// fields (`None` when it lists none), the fields in the order read.
pub struct MochiTemplate {
    pub id: String,
    pub name: Option<String>,
    pub content: Option<String>,
    pub fields: Option<Vec<MochiField>>,
}

/// The note type a template becomes: its id, name, whether it is a cloze
/// type, its fields (id, name, ordinal) and its one card template's id.
pub struct MochiTemplatePlan {
    pub note_type_id: String,
    pub name: String,
    pub is_cloze: bool,
    pub fields: Vec<(String, String, usize)>,
    pub card_template_id: String,
}

/// (name, position)
pub type FieldView = (Option<Seq<char>>, Option<Seq<char>>);

pub open spec fn field_view(f: MochiField) -> FieldView {
    (opt_string_view(f.name), opt_string_view(f.pos))
}

pub open spec fn fields_view(fs: Seq<MochiField>) -> Seq<FieldView> {
    fs.map_values(|f: MochiField| field_view(f))
}

/// A field is placed by its position, "z" when it has none.
pub open spec fn pos_key(f: FieldView) -> Seq<char> {
    match f.1 {
        Some(p) => p,
        None => "z"@,
    }
}

/// Where a stable insertion puts a field placed at `k`: after every field
/// not placed after it.
pub open spec fn slot_after(r: Seq<FieldView>, k: Seq<char>) -> int
    decreases r.len(),
{
    if r.len() == 0 {
        0
    } else if text_lt(k, pos_key(r[0])) {
        0
    } else {
        1 + slot_after(r.drop_first(), k)
    }
}

/// The fields sorted by position; fields at equal positions keep their
/// order.
pub open spec fn sort_by_pos(s: Seq<FieldView>) -> Seq<FieldView>
    decreases s.len(),
{
    if s.len() == 0 {
        Seq::empty()
    } else {
        let r = sort_by_pos(s.drop_last());
        r.insert(slot_after(r, pos_key(s.last())), s.last())
    }
}

pub open spec fn field_id(tmpl_id: Seq<char>, i: nat) -> Seq<char> {
    "f_mochi_"@ + tmpl_id + "_"@ + decimal(i)
}

/// The fields of the note type: those listed, by position, each named as
/// given or "Field"; a template that lists none gets one "Content" field.
pub open spec fn spec_template_fields(tmpl_id: Seq<char>, fields: Option<Seq<FieldView>>) -> Seq<(Seq<char>, Seq<char>, nat)> {
    match fields {
        Some(fs) => {
            let sorted = sort_by_pos(fs);
            Seq::new(sorted.len(), |i: int| (field_id(tmpl_id, i as nat), match sorted[i].0 {
                Some(n) => n,
                None => "Field"@,
            }, i as nat))
        },
        None => seq![(field_id(tmpl_id, 0), "Content"@, 0nat)],
    }
}

/// A template is a cloze type when its content has `{{c` or its name, in
/// lower case, says "cloze".
pub open spec fn spec_is_cloze_template(name: Seq<char>, content: Seq<char>) -> bool {
    contains(content, "{{c"@) || contains(spec_lowercase(name), "cloze"@)
}

pub open spec fn template_name(t: MochiTemplate) -> Seq<char> {
    match t.name {
        Some(n) => n@,
        None => "Card"@,
    }
}

pub open spec fn template_content(t: MochiTemplate) -> Seq<char> {
    match t.content {
        Some(c) => c@,
        None => Seq::empty(),
    }
}

pub open spec fn template_fields_view(t: MochiTemplate) -> Option<Seq<FieldView>> {
    match t.fields {
        Some(fs) => Some(fields_view(fs@)),
        None => None,
    }
}

/// Inserts `f` after every field not placed after it.
fn insert_by_pos(out: &mut Vec<(Option<String>, Option<String>)>, f: (Option<String>, Option<String>))
    ensures
        pairs_view(final(out)@) == pairs_view(old(out)@).insert(
            slot_after(pairs_view(old(out)@), pos_key((opt_string_view(f.0), opt_string_view(f.1)))),
            (opt_string_view(f.0), opt_string_view(f.1)),
        ),
{
    let ghost ov = pairs_view(out@);
    let ghost fv = (opt_string_view(f.0), opt_string_view(f.1));
    let key = match &f.1 {
        Some(p) => p.clone(),
        None => owned("z"),
    };
    assert(key@ == pos_key(fv));
    let mut j: usize = 0;
    assert(ov.skip(0) =~= ov);
    while j < out.len() && !text_less(key.as_str(), pos_of(&out[j]).as_str())
        invariant
            j <= out.len(),
            out@ == old(out)@,
            ov == pairs_view(out@),
            key@ == pos_key(fv),
            slot_after(ov, key@) == j + slot_after(ov.skip(j as int), key@),
        decreases out.len() - j,
    {
        proof {
            assert(ov.skip(j as int)[0] == ov[j as int]);
            assert(ov.skip(j as int).drop_first() =~= ov.skip(j + 1));
        }
        j += 1;
    }
    proof {
        if j < out.len() {
            assert(ov.skip(j as int)[0] == ov[j as int]);
        }
    }
    out.insert(j, f);
    assert(pairs_view(out@) =~= ov.insert(j as int, fv));
}

pub open spec fn pairs_view(v: Seq<(Option<String>, Option<String>)>) -> Seq<FieldView> {
    v.map_values(|f: (Option<String>, Option<String>)| (opt_string_view(f.0), opt_string_view(f.1)))
}

fn pos_of(f: &(Option<String>, Option<String>)) -> (r: String)
    ensures
        r@ == pos_key((opt_string_view(f.0), opt_string_view(f.1))),
{
    match &f.1 {
        Some(p) => p.clone(),
        None => owned("z"),
    }
}

fn clone_opt(o: &Option<String>) -> (r: Option<String>)
    ensures
        opt_string_view(r) == opt_string_view(*o),
{
    match o {
        Some(s) => Some(s.clone()),
        None => None,
    }
}

fn sorted_fields(fs: &Vec<MochiField>) -> (r: Vec<(Option<String>, Option<String>)>)
    ensures
        pairs_view(r@) == sort_by_pos(fields_view(fs@)),
{
    let ghost all = fields_view(fs@);
    let mut out: Vec<(Option<String>, Option<String>)> = Vec::new();
    let mut i: usize = 0;
    while i < fs.len()
        invariant
            i <= fs.len(),
            all == fields_view(fs@),
            pairs_view(out@) == sort_by_pos(all.take(i as int)),
        decreases fs.len() - i,
    {
        assert(all.take(i + 1).drop_last() =~= all.take(i as int));
        assert(all.take(i + 1).last() == all[i as int]);
        let f = (clone_opt(&fs[i].name), clone_opt(&fs[i].pos));
        insert_by_pos(&mut out, f);
        i += 1;
    }
    assert(all.take(fs.len() as int) =~= all);
    out
}

fn make_field_id(tmpl_id: &str, i: usize) -> (r: String)
    ensures
        r@ == field_id(tmpl_id@, i as nat),
{
    let mut v: Vec<char> = Vec::new();
    push_str(&mut v, "f_mochi_");
    push_str(&mut v, tmpl_id);
    push_str(&mut v, "_");
    push_decimal(&mut v, i);
    string_of(&v)
}

pub open spec fn plan_fields_view(v: Seq<(String, String, usize)>) -> Seq<(Seq<char>, Seq<char>, nat)> {
    v.map_values(|f: (String, String, usize)| (f.0@, f.1@, f.2 as nat))
}

/// The note type a template becomes: `nt_mochi_<id>` (a random id after
/// `nt_mochi_` when it has none), its name or "Card", and one card
/// template `ct_mochi_<id>`.
pub fn mochi_template(t: &MochiTemplate) -> (p: MochiTemplatePlan)
    ensures
        id_for(p.note_type_id@, "nt_mochi_"@, "nt_mochi_"@, t.id@),
        p.name@ == template_name(*t),
        p.is_cloze == spec_is_cloze_template(template_name(*t), template_content(*t)),
        plan_fields_view(p.fields@) == spec_template_fields(t.id@, template_fields_view(*t)),
        p.card_template_id@ == "ct_mochi_"@ + t.id@,
{
    let note_type_id = make_id("nt_mochi_", "nt_mochi_", t.id.as_str());
    let name = match &t.name {
        Some(n) => n.clone(),
        None => owned("Card"),
    };
    let content = match &t.content {
        Some(c) => c.clone(),
        None => {
            proof {
                reveal_strlit("");
            }
            owned("")
        },
    };
    let cv = chars_of(content.as_str());
    let low = lowercase(name.as_str());
    let lv = chars_of(low.as_str());
    let a = contains_str(&cv, "{{c");
    let b = contains_str(&lv, "cloze");
    let is_cloze = a || b;
    assert(content@ == template_content(*t));
    assert(name@ == template_name(*t));
    assert(a == contains(template_content(*t), "{{c"@));
    assert(b == contains(spec_lowercase(template_name(*t)), "cloze"@));
    let ghost want = spec_template_fields(t.id@, template_fields_view(*t));
    let mut fields: Vec<(String, String, usize)> = Vec::new();
    match &t.fields {
        Some(fs) => {
            let sorted = sorted_fields(fs);
            let ghost sv = pairs_view(sorted@);
            let mut i: usize = 0;
            while i < sorted.len()
                invariant
                    i <= sorted.len(),
                    sv == pairs_view(sorted@),
                    sv == sort_by_pos(fields_view(fs@)),
                    want == spec_template_fields(t.id@, Some(fields_view(fs@))),
                    plan_fields_view(fields@) == want.take(i as int),
                decreases sorted.len() - i,
            {
                let fname = match &sorted[i].0 {
                    Some(n) => n.clone(),
                    None => owned("Field"),
                };
                let ghost before = plan_fields_view(fields@);
                let entry = (make_field_id(t.id.as_str(), i), fname, i);
                assert((entry.0@, entry.1@, entry.2 as nat) == want[i as int]);
                fields.push(entry);
                assert(plan_fields_view(fields@) =~= before.push(want[i as int]));
                assert(want.take(i + 1) =~= want.take(i as int).push(want[i as int]));
                i += 1;
            }
            assert(want.take(sorted.len() as int) =~= want);
        },
        None => {
            proof {
                reveal_strlit("Content");
            }
            fields.push((make_field_id(t.id.as_str(), 0), owned("Content"), 0));
            assert(plan_fields_view(fields@) =~= want);
        },
    }
    let card_template_id = crate::text::join_str("ct_mochi_", t.id.as_str());
    MochiTemplatePlan { note_type_id, name, is_cloze, fields, card_template_id }
}

// ---------------------------------------------------------------------------
// Cards
// ---------------------------------------------------------------------------

/// A card of the export: its id ("" when none), its deck's export id (""
/// when none), its fields (`None` when it lists none; a value that is not
/// text is `None`), its content and its name.
pub struct MochiCard {
    pub id: String,
    pub deck_id: String,
    pub fields: Option<Vec<(String, Option<String>)>>,
    pub content: Option<String>,
    pub name: Option<String>,
}

/// The note a card becomes: its id, its one card's id and its fields.
pub struct MochiCardPlan {
    pub note_id: String,
    pub card_id: String,
    pub fields: Vec<(String, String)>,
}

pub open spec fn card_fields_view(fs: Seq<(String, Option<String>)>) -> Seq<(Seq<char>, Seq<char>)> {
    fs.map_values(|f: (String, Option<String>)| (f.0@, match f.1 {
        Some(v) => v@,
        None => Seq::empty(),
    }))
}

/// The fields of the note: those the card lists (a value that is not text
/// is empty), else its content as "Content", else its name as "Front",
/// else none.
pub open spec fn spec_card_fields(c: MochiCard) -> Seq<(Seq<char>, Seq<char>)> {
    match c.fields {
        Some(fs) => card_fields_view(fs@),
        None => match c.content {
            Some(t) => seq![("Content"@, t@)],
            None => match c.name {
                Some(n) => seq![("Front"@, n@)],
                None => Seq::empty(),
            },
        },
    }
}

pub open spec fn out_fields_view(v: Seq<(String, String)>) -> Seq<(Seq<char>, Seq<char>)> {
    v.map_values(|f: (String, String)| (f.0@, f.1@))
}

/// The note a card becomes: `n_mochi_<id>` with card `c_mochi_<id>` (random
/// ids after `n_` and `c_mochi_` when it has none).
pub fn mochi_card(c: &MochiCard) -> (p: MochiCardPlan)
    ensures
        id_for(p.note_id@, "n_mochi_"@, "n_"@, c.id@),
        id_for(p.card_id@, "c_mochi_"@, "c_mochi_"@, c.id@),
        out_fields_view(p.fields@) == spec_card_fields(*c),
{
    let note_id = make_id("n_mochi_", "n_", c.id.as_str());
    let card_id = make_id("c_mochi_", "c_mochi_", c.id.as_str());
    let mut fields: Vec<(String, String)> = Vec::new();
    match &c.fields {
        Some(fs) => {
            let ghost want = card_fields_view(fs@);
            let mut i: usize = 0;
            while i < fs.len()
                invariant
                    i <= fs.len(),
                    want == card_fields_view(fs@),
                    out_fields_view(fields@) == want.take(i as int),
                decreases fs.len() - i,
            {
                let v = match &fs[i].1 {
                    Some(v) => v.clone(),
                    None => String::new(),
                };
                let ghost before = out_fields_view(fields@);
                fields.push((fs[i].0.clone(), v));
                assert(out_fields_view(fields@) =~= before.push(want[i as int]));
                assert(want.take(i + 1) =~= want.take(i as int).push(want[i as int]));
                i += 1;
            }
            assert(want.take(fs.len() as int) =~= want);
        },
        None => match &c.content {
            Some(t) => {
                fields.push((owned("Content"), t.clone()));
                assert(out_fields_view(fields@) =~= spec_card_fields(*c));
            },
            None => match &c.name {
                Some(n) => {
                    fields.push((owned("Front"), n.clone()));
                    assert(out_fields_view(fields@) =~= spec_card_fields(*c));
                },
                None => {
                    assert(out_fields_view(fields@) =~= spec_card_fields(*c));
                },
            },
        },
    }
    MochiCardPlan { note_id, card_id, fields }
}

/// A deck remembered under an export id is the one found for that id
/// afterwards (as the parent of a later deck or the deck of a loose card);
/// the decks found for other ids stay as they were.
pub proof fn law_remembered_deck_is_found(known: Seq<(Seq<char>, Seq<char>)>, mochi_id: Seq<char>, deck_id: Seq<char>, other: Seq<char>)
    requires
        mochi_id.len() > 0,
        other != mochi_id,
    ensures
        lookup(known.push((mochi_id, deck_id)), mochi_id) == Some(deck_id),
        lookup(known.push((mochi_id, deck_id)), other) == lookup(known, other),
        spec_card_deck(known.push((mochi_id, deck_id)), mochi_id) == Some(deck_id),
{
    assert(known.push((mochi_id, deck_id)).drop_last() =~= known);
}

/// What an entry of a Mochi archive is.
#[derive(PartialEq, Eq, Structural)]
pub enum MochiEntry {
    /// `data.json`: the export as JSON.
    DataJson,
    /// `data.edn`: the export as EDN.
    DataEdn,
    /// A media file, copied under its name.
    Media,
    /// A directory or macOS metadata: passed over.
    Skip,
}

pub open spec fn spec_mochi_entry(name: Seq<char>) -> MochiEntry {
    if name == "data.json"@ {
        MochiEntry::DataJson
    } else if name == "data.edn"@ {
        MochiEntry::DataEdn
    } else if !starts_with(name, "__MACOSX"@) && !ends_with(name, "/"@) {
        MochiEntry::Media
    } else {
        MochiEntry::Skip
    }
}

pub fn mochi_entry(name: &str) -> (r: MochiEntry)
    ensures
        r == spec_mochi_entry(name@),
{
    let n = chars_of(name);
    if crate::text::same_text(name, "data.json") {
        MochiEntry::DataJson
    } else if crate::text::same_text(name, "data.edn") {
        MochiEntry::DataEdn
    } else if !starts_with_exec(&n, &chars_of("__MACOSX")) && !ends_with_exec(&n, &chars_of("/")) {
        MochiEntry::Media
    } else {
        MochiEntry::Skip
    }
}

} // verus!
