//! Notes and note types: the records, and which cards a new note gets.
use vstd::prelude::*;
use crate::cloze::{count_cloze_deletions, spec_count_cloze_deletions};
use crate::json::{fields_view, json_text, json_text_exec, FieldsView, JsonFields};
use crate::text::{chars_of, find, find_exec, slice, split, split_vec, string_of, trim, trim_vec, views};

verus! {

pub struct NoteType {
    pub id: String,
    pub name: String,
    pub css: String,
    pub is_cloze: bool,
    pub created_at: i64,
    pub fields: Vec<Field>,
    pub templates: Vec<CardTemplate>,
}

pub struct Field {
    pub id: String,
    pub note_type_id: String,
    pub name: String,
    pub ordinal: i64,
}

pub struct CardTemplate {
    pub id: String,
    pub note_type_id: String,
    pub name: String,
    pub front_html: String,
    pub back_html: String,
    pub ordinal: i64,
}

// ---------------------------------------------------------------------------
// "{{each:Field}}" templates
// ---------------------------------------------------------------------------

/// The field named by the first `{{each:...}}` in one template side, when
/// it is closed by `}}` and names something after trimming.
pub open spec fn each_field_in(html: Seq<char>) -> Option<Seq<char>> {
    match find(html, "{{each:"@) {
        None => None,
        Some(start) => {
            let after = html.skip(start + "{{each:"@.len());
            match find(after, "}}"@) {
                None => None,
                Some(end) => {
                    let name = trim(after.take(end));
                    if name.len() == 0 {
                        None
                    } else {
                        Some(name)
                    }
                },
            }
        },
    }
}

/// The field a template repeats over: looked for on the front, then on
/// the back.
pub open spec fn spec_find_each_field(front: Seq<char>, back: Seq<char>) -> Option<Seq<char>> {
    match each_field_in(front) {
        Some(n) => Some(n),
        None => each_field_in(back),
    }
}

fn each_field_in_exec(html: &str) -> (r: Option<String>)
    ensures
        match r {
            Some(n) => each_field_in(html@) == Some(n@),
            None => each_field_in(html@) is None,
        },
{
    let h = chars_of(html);
    let pat = chars_of("{{each:");
    let close = chars_of("}}");
    match find_exec(&h, &pat) {
        None => None,
        Some(start) => {
            proof {
                crate::text::lemma_find_from(h@, pat@, 0);
                assert(start + pat@.len() <= h@.len());
            }
            let hl = h.len();
            let after = slice(&h, start + pat.len(), hl);
            assert(after@ =~= h@.skip(start + "{{each:"@.len()));
            match find_exec(&after, &close) {
                None => None,
                Some(end) => {
                    proof {
                        crate::text::lemma_find_from(after@, close@, 0);
                    }
                    let head = slice(&after, 0, end);
                    assert(head@ =~= after@.take(end as int));
                    let name = trim_vec(&head);
                    if name.len() == 0 {
                        None
                    } else {
                        Some(string_of(&name))
                    }
                },
            }
        },
    }
}

pub fn find_each_field(front_html: &str, back_html: &str) -> (r: Option<String>)
    ensures
        match r {
            Some(n) => spec_find_each_field(front_html@, back_html@) == Some(n@),
            None => spec_find_each_field(front_html@, back_html@) is None,
        },
{
    match each_field_in_exec(front_html) {
        Some(n) => Some(n),
        None => each_field_in_exec(back_html),
    }
}

/// How many pieces between commas hold something other than whitespace.
pub open spec fn nonblank_count(parts: Seq<Seq<char>>) -> nat
    decreases parts.len(),
{
    if parts.len() == 0 {
        0
    } else {
        nonblank_count(parts.drop_last()) + if trim(parts.last()).len() == 0 { 0nat } else { 1nat }
    }
}

/// The number of comma-separated items in a value, and at least one.
pub open spec fn spec_count_csv_items(value: Seq<char>) -> nat {
    let n = nonblank_count(split(value, seq![',']));
    if n == 0 {
        1
    } else {
        n
    }
}

pub fn count_csv_items(value: &str) -> (n: usize)
    ensures
        n as nat == spec_count_csv_items(value@),
        1 <= n,
{
    let v = chars_of(value);
    let mut sep: Vec<char> = Vec::new();
    sep.push(',');
    assert(sep@ =~= seq![',']);
    let parts = split_vec(&v, &sep);
    let ghost pv = views(parts@);
    let mut n: usize = 0;
    let mut i: usize = 0;
    while i < parts.len()
        invariant
            i <= parts.len(),
            pv == views(parts@),
            n <= i,
            n as nat == nonblank_count(pv.take(i as int)),
        decreases parts.len() - i,
    {
        assert(pv.take(i + 1).drop_last() =~= pv.take(i as int));
        assert(pv.take(i + 1).last() == parts@[i as int]@);
        let t = trim_vec(&parts[i]);
        if t.len() > 0 {
            n += 1;
        }
        i += 1;
    }
    assert(pv.take(parts.len() as int) =~= pv);
    if n == 0 {
        1
    } else {
        n
    }
}

// ---------------------------------------------------------------------------
// The cards of a new note
// ---------------------------------------------------------------------------

/// The text of a cloze note: its first field's text, or nothing.
pub open spec fn first_text(fields: FieldsView) -> Seq<char> {
    if fields.len() == 0 {
        Seq::empty()
    } else {
        match fields[0].1 {
            Some(t) => t,
            None => Seq::empty(),
        }
    }
}

/// The card ordinals of one template: one card per item of the field it
/// repeats over (`ordinal * 1000 + item`), else one card with its ordinal.
pub open spec fn template_ordinals(fields: FieldsView, t: (Seq<char>, Seq<char>, i64)) -> Seq<int> {
    match spec_find_each_field(t.0, t.1) {
        Some(f) => {
            let value = match json_text(fields, f) {
                Some(v) => v,
                None => Seq::empty(),
            };
            Seq::new(spec_count_csv_items(value), |i: int| t.2 * 1000 + i)
        },
        None => seq![t.2 as int],
    }
}

pub open spec fn all_template_ordinals(fields: FieldsView, templates: Seq<(Seq<char>, Seq<char>, i64)>) -> Seq<int>
    decreases templates.len(),
{
    if templates.len() == 0 {
        Seq::empty()
    } else {
        all_template_ordinals(fields, templates.drop_last()) + template_ordinals(fields, templates.last())
    }
}

/// The template ordinals of the cards a new note gets: a cloze note one
/// card per deletion of its text (at least one), numbered from 0; another
/// note the cards of each template in turn.
pub open spec fn spec_note_card_ordinals(
    is_cloze: bool,
    fields: FieldsView,
    templates: Seq<(Seq<char>, Seq<char>, i64)>,
) -> Seq<int> {
    if is_cloze {
        let n = spec_count_cloze_deletions(first_text(fields));
        Seq::new(if n == 0 { 1 } else { n }, |i: int| i)
    } else {
        all_template_ordinals(fields, templates)
    }
}

pub open spec fn templates_view(t: Seq<(String, String, i64)>) -> Seq<(Seq<char>, Seq<char>, i64)> {
    t.map_values(|x: (String, String, i64)| (x.0@, x.1@, x.2))
}

pub open spec fn fits_i64(s: Seq<int>) -> bool {
    forall|i: int| 0 <= i < s.len() ==> i64::MIN <= #[trigger] s[i] <= i64::MAX
}

fn push_template_ordinals(out: &mut Vec<i64>, fields: &JsonFields, t: &(String, String, i64))
    requires
        fits_i64(template_ordinals(fields_view(fields@), (t.0@, t.1@, t.2))),
    ensures
        final(out)@.map_values(|x: i64| x as int) == old(out)@.map_values(|x: i64| x as int) + template_ordinals(
            fields_view(fields@),
            (t.0@, t.1@, t.2),
        ),
{
    let ghost before = out@.map_values(|x: i64| x as int);
    let ghost tv = (t.0@, t.1@, t.2);
    let ghost want = template_ordinals(fields_view(fields@), tv);
    match find_each_field(t.0.as_str(), t.1.as_str()) {
        Some(f) => {
            let value = match json_text_exec(fields, f.as_str()) {
                Some(v) => v,
                None => {
                    proof {
                        reveal_strlit("");
                    }
                    crate::text::owned("")
                },
            };
            assert(value@ == match json_text(fields_view(fields@), f@) {
                Some(v) => v,
                None => Seq::<char>::empty(),
            });
            let count = count_csv_items(value.as_str());
            assert(want.len() == count as nat);
            assert(want[0] == t.2 * 1000);
            let mut o: i64 = t.2 * 1000;
            let mut i: usize = 0;
            while i < count
                invariant
                    i <= count,
                    count as nat == want.len(),
                    fits_i64(want),
                    forall|k: int| 0 <= k < want.len() ==> #[trigger] want[k] == t.2 * 1000 + k,
                    i < count ==> o == t.2 * 1000 + i,
                    out@.map_values(|x: i64| x as int) == before + want.take(i as int),
                decreases count - i,
            {
                let ghost mid = out@.map_values(|x: i64| x as int);
                out.push(o);
                assert(out@.map_values(|x: i64| x as int) =~= mid.push(want[i as int]));
                assert(want.take(i + 1) =~= want.take(i as int).push(want[i as int]));
                if i + 1 < count {
                    assert(want[i + 1] == o + 1);
                    o = o + 1;
                }
                i += 1;
            }
            assert(want.take(count as int) =~= want);
        },
        None => {
            out.push(t.2);
            assert(out@.map_values(|x: i64| x as int) =~= before + want);
        },
    }
}

/// The template ordinals of the cards to make for a new note, from whether
/// its type is a cloze type, its fields, and its type's templates (front,
/// back, ordinal) in ordinal order.
pub fn note_card_ordinals(is_cloze: bool, fields: &JsonFields, templates: &Vec<(String, String, i64)>) -> (r: Vec<i64>)
    requires
        is_cloze ==> spec_count_cloze_deletions(first_text(fields_view(fields@))) <= i64::MAX,
        !is_cloze ==> fits_i64(all_template_ordinals(fields_view(fields@), templates_view(templates@))),
    ensures
        r@.map_values(|x: i64| x as int) == spec_note_card_ordinals(is_cloze, fields_view(fields@), templates_view(templates@)),
{
    let mut out: Vec<i64> = Vec::new();
    if is_cloze {
        let text = if fields.len() == 0 {
            proof {
                reveal_strlit("");
            }
            crate::text::owned("")
        } else {
            match &fields[0].1 {
                Some(t) => t.clone(),
                None => {
                    proof {
                        reveal_strlit("");
                    }
                    crate::text::owned("")
                },
            }
        };
        assert(text@ == first_text(fields_view(fields@)));
        let c = count_cloze_deletions(text.as_str());
        let n: usize = if c == 0 {
            1
        } else {
            c
        };
        let ghost want = Seq::new(n as nat, |i: int| i);
        let mut i: usize = 0;
        while i < n
            invariant
                i <= n,
                n <= i64::MAX + 1,
                want == Seq::new(n as nat, |k: int| k),
                out@.map_values(|x: i64| x as int) == want.take(i as int),
            decreases n - i,
        {
            let ghost mid = out@.map_values(|x: i64| x as int);
            out.push(i as i64);
            assert(out@.map_values(|x: i64| x as int) =~= mid.push(i as int));
            assert(want.take(i + 1) =~= want.take(i as int).push(i as int));
            i += 1;
        }
        assert(want.take(n as int) =~= want);
        return out;
    }
    let ghost fv = fields_view(fields@);
    let ghost tv = templates_view(templates@);
    let mut k: usize = 0;
    while k < templates.len()
        invariant
            k <= templates.len(),
            fv == fields_view(fields@),
            tv == templates_view(templates@),
            fits_i64(all_template_ordinals(fv, tv)),
            out@.map_values(|x: i64| x as int) == all_template_ordinals(fv, tv.take(k as int)),
        decreases templates.len() - k,
    {
        proof {
            assert(tv.take(k + 1).drop_last() =~= tv.take(k as int));
            assert(tv.take(k + 1).last() == tv[k as int]);
            lemma_ordinals_prefix(fv, tv, k as int);
        }
        push_template_ordinals(&mut out, fields, &templates[k]);
        k += 1;
    }
    assert(tv.take(templates.len() as int) =~= tv);
    out
}

/// The ordinals of template `k` are part of the ordinals of all templates.
proof fn lemma_ordinals_prefix(fields: FieldsView, templates: Seq<(Seq<char>, Seq<char>, i64)>, k: int)
    requires
        0 <= k < templates.len(),
        fits_i64(all_template_ordinals(fields, templates)),
    ensures
        fits_i64(template_ordinals(fields, templates[k])),
    decreases templates.len(),
{
    let all = all_template_ordinals(fields, templates);
    let front = all_template_ordinals(fields, templates.drop_last());
    if k == templates.len() - 1 {
        assert forall|i: int| 0 <= i < template_ordinals(fields, templates[k]).len() implies
            i64::MIN <= #[trigger] template_ordinals(fields, templates[k])[i] <= i64::MAX by {
            assert(all[front.len() + i] == template_ordinals(fields, templates[k])[i]);
        }
    } else {
        assert forall|i: int| 0 <= i < front.len() implies i64::MIN <= #[trigger] front[i] <= i64::MAX by {
            assert(all[i] == front[i]);
        }
        assert(templates.drop_last()[k] == templates[k]);
        lemma_ordinals_prefix(fields, templates.drop_last(), k);
    }
}

// ---------------------------------------------------------------------------
// Note types in use
// ---------------------------------------------------------------------------

pub struct NoteTypeDeckRef {
    pub deck_id: String,
    pub deck_name: String,
    pub note_count: i64,
}

pub struct NoteTypeUsageSummary {
    pub note_type_id: String,
    pub note_count: i64,
    pub card_count: i64,
    pub deck_count: i64,
    pub top_decks: Vec<NoteTypeDeckRef>,
}

pub struct CreateNoteTypeInput {
    pub name: String,
    pub is_cloze: bool,
    pub css: Option<String>,
    pub fields: Vec<String>,
    pub templates: Vec<TemplateInput>,
}

pub struct TemplateInput {
    pub name: String,
    pub front_html: String,
    pub back_html: String,
}

pub struct UpdateNoteTypeInput {
    pub id: String,
    pub name: Option<String>,
    pub css: Option<String>,
    pub fields: Option<Vec<String>>,
    pub templates: Option<Vec<TemplateInput>>,
}

/// The (notes, cards, decks) counted for a note type: the last row for it,
/// or zeros.
pub open spec fn usage_counts(agg: Seq<(Seq<char>, (i64, i64, i64))>, id: Seq<char>) -> (i64, i64, i64)
    decreases agg.len(),
{
    if agg.len() == 0 {
        (0, 0, 0)
    } else if agg.last().0 == id {
        agg.last().1
    } else {
        usage_counts(agg.drop_last(), id)
    }
}

/// (deck id, deck name, notes)
pub type DeckRefView = (Seq<char>, Seq<char>, i64);

/// The first five decks listed for a note type, in the order listed (the
/// rows come busiest deck first).
pub open spec fn top_decks(rows: Seq<(Seq<char>, Seq<char>, Seq<char>, i64)>, id: Seq<char>) -> Seq<DeckRefView>
    decreases rows.len(),
{
    if rows.len() == 0 {
        Seq::empty()
    } else {
        let rest = top_decks(rows.drop_last(), id);
        let r = rows.last();
        if r.0 == id && rest.len() < 5 {
            rest.push((r.1, r.2, r.3))
        } else {
            rest
        }
    }
}

/// (note type, notes, cards, decks, top decks)
pub type UsageView = (Seq<char>, i64, i64, i64, Seq<DeckRefView>);

/// One summary per note type, in the order given; a note type listed twice
/// gets its decks only the first time.
pub open spec fn spec_usage(
    ids: Seq<Seq<char>>,
    agg: Seq<(Seq<char>, (i64, i64, i64))>,
    rows: Seq<(Seq<char>, Seq<char>, Seq<char>, i64)>,
) -> Seq<UsageView> {
    Seq::new(ids.len(), |i: int| {
        let c = usage_counts(agg, ids[i]);
        (ids[i], c.0, c.1, c.2, if ids.take(i).contains(ids[i]) {
            Seq::empty()
        } else {
            top_decks(rows, ids[i])
        })
    })
}

pub open spec fn usage_view(u: NoteTypeUsageSummary) -> UsageView {
    (u.note_type_id@, u.note_count, u.card_count, u.deck_count, u.top_decks@.map_values(|d: NoteTypeDeckRef| (d.deck_id@, d.deck_name@, d.note_count)))
}

pub open spec fn agg_view(agg: Seq<(String, (i64, i64, i64))>) -> Seq<(Seq<char>, (i64, i64, i64))> {
    agg.map_values(|a: (String, (i64, i64, i64))| (a.0@, a.1))
}

pub open spec fn deck_rows_view(rows: Seq<(String, String, String, i64)>) -> Seq<(Seq<char>, Seq<char>, Seq<char>, i64)> {
    rows.map_values(|r: (String, String, String, i64)| (r.0@, r.1@, r.2@, r.3))
}

fn usage_counts_exec(agg: &Vec<(String, (i64, i64, i64))>, id: &String) -> (r: (i64, i64, i64))
    ensures
        r == usage_counts(agg_view(agg@), id@),
{
    let ghost av = agg_view(agg@);
    let mut out: (i64, i64, i64) = (0, 0, 0);
    let mut j: usize = 0;
    while j < agg.len()
        invariant
            j <= agg.len(),
            av == agg_view(agg@),
            out == usage_counts(av.take(j as int), id@),
        decreases agg.len() - j,
    {
        assert(av.take(j + 1).drop_last() =~= av.take(j as int));
        assert(av.take(j + 1).last() == av[j as int]);
        if agg[j].0 == *id {
            out = agg[j].1;
        }
        j += 1;
    }
    assert(av.take(agg.len() as int) =~= av);
    out
}

fn top_decks_exec(rows: &Vec<(String, String, String, i64)>, id: &String) -> (r: Vec<NoteTypeDeckRef>)
    ensures
        r@.map_values(|d: NoteTypeDeckRef| (d.deck_id@, d.deck_name@, d.note_count)) == top_decks(deck_rows_view(rows@), id@),
{
    let ghost rv = deck_rows_view(rows@);
    let mut out: Vec<NoteTypeDeckRef> = Vec::new();
    let mut j: usize = 0;
    while j < rows.len()
        invariant
            j <= rows.len(),
            rv == deck_rows_view(rows@),
            out@.map_values(|d: NoteTypeDeckRef| (d.deck_id@, d.deck_name@, d.note_count)) == top_decks(rv.take(j as int), id@),
        decreases rows.len() - j,
    {
        assert(rv.take(j + 1).drop_last() =~= rv.take(j as int));
        assert(rv.take(j + 1).last() == rv[j as int]);
        if rows[j].0 == *id && out.len() < 5 {
            let ghost before = out@.map_values(|d: NoteTypeDeckRef| (d.deck_id@, d.deck_name@, d.note_count));
            out.push(NoteTypeDeckRef { deck_id: rows[j].1.clone(), deck_name: rows[j].2.clone(), note_count: rows[j].3 });
            assert(out@.map_values(|d: NoteTypeDeckRef| (d.deck_id@, d.deck_name@, d.note_count)) =~= before.push((rv[j as int].1, rv[j as int].2, rv[j as int].3)));
        }
        j += 1;
    }
    assert(rv.take(rows.len() as int) =~= rv);
    out
}

/// How each note type is used: its counts and its busiest decks.
pub fn usage_summaries(
    ids: &Vec<String>,
    agg: &Vec<(String, (i64, i64, i64))>,
    deck_rows: &Vec<(String, String, String, i64)>,
) -> (r: Vec<NoteTypeUsageSummary>)
    ensures
        r@.map_values(|u: NoteTypeUsageSummary| usage_view(u)) == spec_usage(
            ids@.map_values(|s: String| s@),
            agg_view(agg@),
            deck_rows_view(deck_rows@),
        ),
{
    let ghost iv = ids@.map_values(|s: String| s@);
    let ghost want = spec_usage(iv, agg_view(agg@), deck_rows_view(deck_rows@));
    let mut out: Vec<NoteTypeUsageSummary> = Vec::new();
    let mut i: usize = 0;
    while i < ids.len()
        invariant
            i <= ids.len(),
            iv == ids@.map_values(|s: String| s@),
            want == spec_usage(iv, agg_view(agg@), deck_rows_view(deck_rows@)),
            out@.map_values(|u: NoteTypeUsageSummary| usage_view(u)) == want.take(i as int),
        decreases ids.len() - i,
    {
        let c = usage_counts_exec(agg, &ids[i]);
        let mut seen = false;
        let mut k: usize = 0;
        while k < i
            invariant
                k <= i < ids.len(),
                iv == ids@.map_values(|s: String| s@),
                seen == iv.take(k as int).contains(iv[i as int]),
            decreases i - k,
        {
            proof {
                let t0 = iv.take(k as int);
                let t1 = iv.take(k + 1);
                let x = iv[i as int];
                assert(t1 =~= t0.push(iv[k as int]));
                assert(iv[k as int] == ids@[k as int]@);
                assert(x == ids@[i as int]@);
                assert(t1[k as int] == iv[k as int]);
                if t0.contains(x) {
                    let w = choose|w: int| 0 <= w < t0.len() && t0[w] == x;
                    assert(t1[w] == x);
                }
                if t1.contains(x) {
                    let w = choose|w: int| 0 <= w < t1.len() && t1[w] == x;
                    if w < k {
                        assert(t0[w] == x);
                    }
                }
            }
            if ids[k] == ids[i] {
                seen = true;
            }
            k += 1;
        }
        let top = if seen {
            Vec::new()
        } else {
            top_decks_exec(deck_rows, &ids[i])
        };
        let u = NoteTypeUsageSummary { note_type_id: ids[i].clone(), note_count: c.0, card_count: c.1, deck_count: c.2, top_decks: top };
        proof {
            if seen {
                assert(u.top_decks@.map_values(|d: NoteTypeDeckRef| (d.deck_id@, d.deck_name@, d.note_count)) =~= Seq::<DeckRefView>::empty());
            }
            assert(usage_view(u) == want[i as int]);
        }
        let ghost before = out@.map_values(|u: NoteTypeUsageSummary| usage_view(u));
        let ghost uv = usage_view(u);
        out.push(u);
        assert(out@.map_values(|u: NoteTypeUsageSummary| usage_view(u)) =~= before.push(uv));
        assert(want.take(i + 1) =~= want.take(i as int).push(want[i as int]));
        i += 1;
    }
    assert(want.take(ids.len() as int) =~= want);
    out
}

/// A note type can be deleted only when no note uses it.
pub open spec fn spec_check_note_type_deletion(count: i64) -> Result<(), Seq<char>> {
    if count > 0 {
        Err("Cannot delete note type: "@ + crate::text::int_decimal(count as int) + " notes still use it"@)
    } else {
        Ok(())
    }
}

pub fn check_note_type_deletion(count: i64) -> (r: Result<(), String>)
    ensures
        match (r, spec_check_note_type_deletion(count)) {
            (Ok(()), Ok(())) => true,
            (Err(e), Err(m)) => e@ == m,
            _ => false,
        },
{
    if count > 0 {
        let mut m: Vec<char> = Vec::new();
        crate::text::push_str(&mut m, "Cannot delete note type: ");
        crate::text::push_i64_decimal(&mut m, count);
        crate::text::push_str(&mut m, " notes still use it");
        Err(string_of(&m))
    } else {
        Ok(())
    }
}

/// A new cloze note always gets at least one card, numbered from 0.
pub proof fn law_cloze_note_has_a_card(fields: FieldsView, templates: Seq<(Seq<char>, Seq<char>, i64)>)
    ensures
        spec_note_card_ordinals(true, fields, templates).len() >= 1,
        spec_note_card_ordinals(true, fields, templates)[0] == 0,
{
}

/// Each template gives a new note at least one card.
pub proof fn law_template_has_a_card(fields: FieldsView, t: (Seq<char>, Seq<char>, i64))
    ensures
        template_ordinals(fields, t).len() >= 1,
{
}

} // verus!
