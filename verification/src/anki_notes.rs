//! Anki collections: how a note of the collection becomes a note with its
//! cards here (the reading and writing of the databases aside).
use vstd::prelude::*;
use crate::imports::strings;
use crate::text::{chars_of, int_decimal, is_whitespace, is_ws, lowercase, owned, push_i64_decimal, push_str, slice, spec_lowercase, split, split_vec, string_of, views};

verus! {

/// A card of the collection: its id, note, deck, template ordinal, type
/// and queue.
pub struct AnkiCard {
    pub id: i64,
    pub note_id: i64,
    pub deck_id: i64,
    pub ord: i64,
    pub card_type: i64,
    pub queue: i64,
}

/// The study state of an imported card, from the card's type.
pub open spec fn spec_card_state(card_type: i64) -> Seq<char> {
    if card_type == 1 {
        "learning"@
    } else if card_type == 2 {
        "review"@
    } else if card_type == 3 {
        "relearning"@
    } else {
        "new"@
    }
}

pub fn card_state(card_type: i64) -> (r: String)
    ensures
        r@ == spec_card_state(card_type),
{
    if card_type == 1 {
        owned("learning")
    } else if card_type == 2 {
        owned("review")
    } else if card_type == 3 {
        owned("relearning")
    } else {
        owned("new")
    }
}

/// The cards of a note, in the order the collection lists them.
pub open spec fn note_cards(cards: Seq<AnkiCard>, note_id: i64) -> Seq<AnkiCard>
    decreases cards.len(),
{
    if cards.len() == 0 {
        Seq::empty()
    } else if cards.last().note_id == note_id {
        note_cards(cards.drop_last(), note_id).push(cards.last())
    } else {
        note_cards(cards.drop_last(), note_id)
    }
}

pub fn cards_of_note(cards: &Vec<AnkiCard>, note_id: i64) -> (r: Vec<AnkiCard>)
    ensures
        r@ == note_cards(cards@, note_id),
{
    let mut out: Vec<AnkiCard> = Vec::new();
    let mut i: usize = 0;
    while i < cards.len()
        invariant
            i <= cards.len(),
            out@ == note_cards(cards@.take(i as int), note_id),
        decreases cards.len() - i,
    {
        assert(cards@.take(i + 1).drop_last() =~= cards@.take(i as int));
        assert(cards@.take(i + 1).last() == cards@[i as int]);
        if cards[i].note_id == note_id {
            let c = AnkiCard {
                id: cards[i].id,
                note_id: cards[i].note_id,
                deck_id: cards[i].deck_id,
                ord: cards[i].ord,
                card_type: cards[i].card_type,
                queue: cards[i].queue,
            };
            out.push(c);
        }
        i += 1;
    }
    assert(cards@.take(cards.len() as int) =~= cards@);
    out
}

// ---------------------------------------------------------------------------
// Tags and fields
// ---------------------------------------------------------------------------

/// Where the run of whitespace from `k` ends.
pub open spec fn skip_ws(s: Seq<char>, k: int) -> int
    decreases s.len() - k,
{
    if 0 <= k < s.len() && is_ws(s[k]) {
        skip_ws(s, k + 1)
    } else {
        k
    }
}

/// Where the word from `k` ends.
pub open spec fn word_end(s: Seq<char>, k: int) -> int
    decreases s.len() - k,
{
    if 0 <= k < s.len() && !is_ws(s[k]) {
        word_end(s, k + 1)
    } else {
        k
    }
}

pub proof fn lemma_runs(s: Seq<char>, k: int)
    requires
        0 <= k <= s.len(),
    ensures
        k <= skip_ws(s, k) <= s.len(),
        k <= word_end(s, k) <= s.len(),
        k < s.len() && !is_ws(s[k]) ==> k < word_end(s, k),
        skip_ws(s, k) < s.len() ==> !is_ws(s[skip_ws(s, k)]),
    decreases s.len() - k,
{
    if k < s.len() {
        lemma_runs(s, k + 1);
    }
}

/// `str::split_whitespace` from position `i`: the words between runs of
/// whitespace.
pub open spec fn words_from(s: Seq<char>, i: int) -> Seq<Seq<char>>
    decreases s.len() - i,
{
    if i < 0 || i > s.len() {
        Seq::empty()
    } else {
        proof {
            lemma_runs(s, i);
        }
        let j = skip_ws(s, i);
        if j >= s.len() {
            Seq::empty()
        } else {
            proof {
                lemma_runs(s, j);
            }
            let k = word_end(s, j);
            seq![s.subrange(j, k)] + words_from(s, k)
        }
    }
}

pub open spec fn spec_note_tags(tags: Seq<char>) -> Seq<Seq<char>> {
    words_from(tags, 0)
}

/// The tags of a note: its tag text split at whitespace.
pub fn note_tags(tags: &str) -> (r: Vec<String>)
    ensures
        strings(r@) == spec_note_tags(tags@),
{
    let s = chars_of(tags);
    let mut out: Vec<String> = Vec::new();
    let mut i: usize = 0;
    while i < s.len()
        invariant
            i <= s.len(),
            s@ == tags@,
            strings(out@) + words_from(s@, i as int) == spec_note_tags(tags@),
        decreases s.len() - i,
    {
        proof {
            lemma_runs(s@, i as int);
        }
        let mut j = i;
        while j < s.len() && is_whitespace(s[j])
            invariant
                i <= j <= s.len(),
                skip_ws(s@, i as int) == skip_ws(s@, j as int),
            decreases s.len() - j,
        {
            j += 1;
        }
        if j >= s.len() {
            assert(words_from(s@, i as int) =~= Seq::<Seq<char>>::empty());
            assert(strings(out@) + words_from(s@, i as int) =~= strings(out@));
            i = j;
        } else {
            proof {
                lemma_runs(s@, j as int);
            }
            let mut k = j;
            while k < s.len() && !is_whitespace(s[k])
                invariant
                    j <= k <= s.len(),
                    word_end(s@, j as int) == word_end(s@, k as int),
                decreases s.len() - k,
            {
                k += 1;
            }
            let w = slice(&s, j, k);
            let ghost before = strings(out@);
            out.push(string_of(&w));
            assert(strings(out@) =~= before.push(s@.subrange(j as int, k as int)));
            assert(strings(out@) + words_from(s@, k as int) =~= before + words_from(s@, i as int));
            i = k;
        }
    }
    assert(words_from(s@, s.len() as int) =~= Seq::<Seq<char>>::empty());
    assert(strings(out@) + words_from(s@, i as int) =~= strings(out@));
    out
}

/// The fields of an imported note: each field name of the note type with
/// the value in the same place of the note's `\x1f`-separated values
/// (empty when there is none).
pub open spec fn spec_note_fields(names: Seq<Seq<char>>, flds: Seq<char>) -> Seq<(Seq<char>, Seq<char>)> {
    let values = split(flds, seq!['\u{1f}']);
    Seq::new(names.len(), |i: int| (names[i], if i < values.len() { values[i] } else { Seq::empty() }))
}

pub fn note_fields(names: &Vec<String>, flds: &str) -> (r: Vec<(String, String)>)
    ensures
        r@.map_values(|f: (String, String)| (f.0@, f.1@)) == spec_note_fields(strings(names@), flds@),
{
    let v = chars_of(flds);
    let mut sep: Vec<char> = Vec::new();
    sep.push('\u{1f}');
    assert(sep@ =~= seq!['\u{1f}']);
    let values = split_vec(&v, &sep);
    let ghost want = spec_note_fields(strings(names@), flds@);
    let mut out: Vec<(String, String)> = Vec::new();
    let mut i: usize = 0;
    while i < names.len()
        invariant
            i <= names.len(),
            views(values@) == split(flds@, seq!['\u{1f}']),
            want == spec_note_fields(strings(names@), flds@),
            out@.map_values(|f: (String, String)| (f.0@, f.1@)) == want.take(i as int),
        decreases names.len() - i,
    {
        let value = if i < values.len() {
            string_of(&values[i])
        } else {
            String::new()
        };
        proof {
            if i >= values.len() {
                assert(value@ =~= Seq::<char>::empty());
            } else {
                assert(views(values@)[i as int] == values@[i as int]@);
            }
        }
        let ghost before = out@.map_values(|f: (String, String)| (f.0@, f.1@));
        let ghost fv = (names@[i as int]@, value@);
        out.push((names[i].clone(), value));
        assert(out@.map_values(|f: (String, String)| (f.0@, f.1@)) =~= before.push(fv));
        assert(want.take(i + 1) =~= want.take(i as int).push(want[i as int]));
        i += 1;
    }
    assert(want.take(names.len() as int) =~= want);
    out
}

// ---------------------------------------------------------------------------
// One note
// ---------------------------------------------------------------------------

/// What to do with one note of the collection.
pub enum AnkiNotePlan {
    Skip(String),
    Import {
        note_id: String,
        deck_id: String,
        fields: Vec<(String, String)>,
        tags: Vec<String>,
        /// (card id, template ordinal, state)
        cards: Vec<(String, i64, String)>,
    },
}

/// The deck a note goes to: the one the first of its cards is in, when
/// that deck was imported; else the fallback deck; none when neither.
pub open spec fn note_deck(first_card_deck: Option<Seq<char>>, fallback_deck: Option<Seq<char>>) -> Seq<char> {
    match first_card_deck {
        Some(d) => d,
        None => match fallback_deck {
            Some(d) => d,
            None => Seq::empty(),
        },
    }
}

pub open spec fn opt_str(o: Option<&String>) -> Option<Seq<char>> {
    match o {
        Some(s) => Some(s@),
        None => None,
    }
}

/// A note of an unknown note type, or with no deck to go to, is skipped
/// with a warning; any other note is imported as `n_imp_<id>` with its
/// fields, its tags and its cards `c_imp_<card id>`.
pub open spec fn plan_matches(
    p: AnkiNotePlan,
    note_id: i64,
    mid: i64,
    flds: Seq<char>,
    tags: Seq<char>,
    known_type: bool,
    deck: Seq<char>,
    field_names: Seq<Seq<char>>,
    cards: Seq<AnkiCard>,
) -> bool {
    if !known_type {
        p matches AnkiNotePlan::Skip(w) && w@ == "Skipped note "@ + int_decimal(note_id as int) + ": unknown note type "@
            + int_decimal(mid as int)
    } else if deck.len() == 0 {
        p matches AnkiNotePlan::Skip(w) && w@ == "Skipped note "@ + int_decimal(note_id as int) + ": no deck found"@
    } else {
        &&& p matches AnkiNotePlan::Import { note_id: nid, deck_id, fields, tags: tag_list, cards: card_list }
        &&& nid@ == "n_imp_"@ + int_decimal(note_id as int)
        &&& deck_id@ == deck
        &&& fields@.map_values(|f: (String, String)| (f.0@, f.1@)) == spec_note_fields(field_names, flds)
        &&& strings(tag_list@) == spec_note_tags(tags)
        &&& card_list@.map_values(|c: (String, i64, String)| (c.0@, c.1, c.2@)) == cards.map_values(
            |c: AnkiCard| ("c_imp_"@ + int_decimal(c.id as int), c.ord, spec_card_state(c.card_type)),
        )
    }
}

fn id_text(prefix: &str, id: i64) -> (r: String)
    ensures
        r@ == prefix@ + int_decimal(id as int),
{
    let mut m: Vec<char> = Vec::new();
    push_str(&mut m, prefix);
    push_i64_decimal(&mut m, id);
    string_of(&m)
}

/// What importing one note does: `known_type` whether its note type was
/// imported, the decks its first card and the fallback lead to, the field
/// names of its note type, and its cards.
pub fn plan_anki_note(
    note_id: i64,
    mid: i64,
    flds: &str,
    tags: &str,
    known_type: bool,
    first_card_deck: Option<&String>,
    fallback_deck: Option<&String>,
    field_names: &Vec<String>,
    cards: &Vec<AnkiCard>,
) -> (p: AnkiNotePlan)
    ensures
        plan_matches(
            p,
            note_id,
            mid,
            flds@,
            tags@,
            known_type,
            note_deck(opt_str(first_card_deck), opt_str(fallback_deck)),
            strings(field_names@),
            cards@,
        ),
{
    if !known_type {
        let mut m: Vec<char> = Vec::new();
        push_str(&mut m, "Skipped note ");
        push_i64_decimal(&mut m, note_id);
        push_str(&mut m, ": unknown note type ");
        push_i64_decimal(&mut m, mid);
        return AnkiNotePlan::Skip(string_of(&m));
    }
    let deck = match first_card_deck {
        Some(d) => d.clone(),
        None => match fallback_deck {
            Some(d) => d.clone(),
            None => String::new(),
        },
    };
    let dv = chars_of(deck.as_str());
    if dv.len() == 0 {
        let mut m: Vec<char> = Vec::new();
        push_str(&mut m, "Skipped note ");
        push_i64_decimal(&mut m, note_id);
        push_str(&mut m, ": no deck found");
        return AnkiNotePlan::Skip(string_of(&m));
    }
    let fields = note_fields(field_names, flds);
    let tag_list = note_tags(tags);
    let ghost want = cards@.map_values(|c: AnkiCard| ("c_imp_"@ + int_decimal(c.id as int), c.ord, spec_card_state(c.card_type)));
    let mut card_list: Vec<(String, i64, String)> = Vec::new();
    let mut i: usize = 0;
    while i < cards.len()
        invariant
            i <= cards.len(),
            want == cards@.map_values(|c: AnkiCard| ("c_imp_"@ + int_decimal(c.id as int), c.ord, spec_card_state(c.card_type))),
            card_list@.map_values(|c: (String, i64, String)| (c.0@, c.1, c.2@)) == want.take(i as int),
        decreases cards.len() - i,
    {
        let ghost before = card_list@.map_values(|c: (String, i64, String)| (c.0@, c.1, c.2@));
        let entry = (id_text("c_imp_", cards[i].id), cards[i].ord, card_state(cards[i].card_type));
        let ghost ev = (entry.0@, entry.1, entry.2@);
        card_list.push(entry);
        assert(card_list@.map_values(|c: (String, i64, String)| (c.0@, c.1, c.2@)) =~= before.push(ev));
        assert(want.take(i + 1) =~= want.take(i as int).push(want[i as int]));
        i += 1;
    }
    assert(want.take(cards.len() as int) =~= want);
    AnkiNotePlan::Import { note_id: id_text("n_imp_", note_id), deck_id: deck, fields, tags: tag_list, cards: card_list }
}

// ---------------------------------------------------------------------------
// Note types
// ---------------------------------------------------------------------------

/// The id an imported note type gets.
pub fn imported_note_type_id(anki_id: i64) -> (r: String)
    ensures
        r@ == "nt_imp_"@ + int_decimal(anki_id as int),
{
    id_text("nt_imp_", anki_id)
}

/// A note type of the collection is a cloze type when its name, in lower
/// case, says "cloze".
pub open spec fn spec_is_cloze_name(name: Seq<char>) -> bool {
    crate::text::contains(spec_lowercase(name), "cloze"@)
}

pub fn is_cloze_name(name: &str) -> (b: bool)
    ensures
        b == spec_is_cloze_name(name@),
{
    let low = lowercase(name);
    let lv = chars_of(low.as_str());
    crate::text::contains_str(&lv, "cloze")
}

/// The front and back of the template an imported note type gets when the
/// collection gives it none (and of every template of a collection whose
/// templates are stored in their own table).
pub open spec fn spec_default_template(is_cloze: bool) -> (Seq<char>, Seq<char>) {
    if is_cloze {
        ("{{cloze:Text}}"@, "{{cloze:Text}}"@)
    } else {
        ("{{Front}}"@, "{{FrontSide}}<hr>{{Back}}"@)
    }
}

pub fn default_template(is_cloze: bool) -> (r: (String, String))
    ensures
        (r.0@, r.1@) == spec_default_template(is_cloze),
{
    if is_cloze {
        (owned("{{cloze:Text}}"), owned("{{cloze:Text}}"))
    } else {
        (owned("{{Front}}"), owned("{{FrontSide}}<hr>{{Back}}"))
    }
}

/// A note of a known type whose first card's deck was imported goes to that
/// deck, whatever the fallback deck is; the fallback is used only when the
/// first card's deck was not imported.
pub proof fn law_note_goes_to_first_cards_deck(
    p: AnkiNotePlan,
    note_id: i64,
    mid: i64,
    flds: Seq<char>,
    tags: Seq<char>,
    first_card_deck: Option<Seq<char>>,
    fallback_deck: Option<Seq<char>>,
    field_names: Seq<Seq<char>>,
    cards: Seq<AnkiCard>,
)
    requires
        plan_matches(p, note_id, mid, flds, tags, true, note_deck(first_card_deck, fallback_deck), field_names, cards),
    ensures
        match first_card_deck {
            Some(d) => d.len() > 0 ==> (p matches AnkiNotePlan::Import { deck_id, .. } && deck_id@ == d),
            None => match fallback_deck {
                Some(f) => (f.len() > 0 ==> (p matches AnkiNotePlan::Import { deck_id, .. } && deck_id@ == f)) && (f.len()
                    == 0 ==> p is Skip),
                None => p is Skip,
            },
        },
{
}

} // verus!
