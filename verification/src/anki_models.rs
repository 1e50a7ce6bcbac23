//! Note types of older Anki collections, stored as one JSON text of models
//! in the collection's `col` row.
use serde_json::Value;
use vstd::prelude::*;
use crate::text::{
    all_digits, chars_of, decimal, digit_value, digits_value, int_decimal, is_digit, owned, push_decimal,
    push_i64_decimal, push_str, string_of,
};

verus! {

// ---------------------------------------------------------------------------
// Integers in text (`str::parse::<i64>`)
// ---------------------------------------------------------------------------

/// What `str::parse::<i64>` gives for `s`: an optional `+` or `-`, then one
/// or more ASCII digits whose value (with the sign) lies in `i64`.
pub open spec fn spec_parse_i64(s: Seq<char>) -> Option<i64> {
    let neg = s.len() > 0 && s[0] == '-';
    let body = if s.len() > 0 && (s[0] == '-' || s[0] == '+') { s.drop_first() } else { s };
    let v: int = if neg { -(digits_value(body) as int) } else { digits_value(body) as int };
    if body.len() == 0 || !all_digits(body) || v < i64::MIN || v > i64::MAX {
        None
    } else {
        Some(v as i64)
    }
}

proof fn lemma_digits_value_prefix(s: Seq<char>, k: int)
    requires
        0 <= k <= s.len(),
    ensures
        digits_value(s.take(k)) <= digits_value(s),
    decreases s.len() - k,
{
    if k < s.len() {
        lemma_digits_value_prefix(s, k + 1);
        assert(s.take(k + 1).drop_last() =~= s.take(k));
    } else {
        assert(s.take(k) =~= s);
    }
}

/// `str::parse::<i64>`.
pub fn parse_i64(s: &str) -> (r: Option<i64>)
    ensures
        r == spec_parse_i64(s@),
{
    let cs = chars_of(s);
    let n = cs.len();
    let neg = n > 0 && cs[0] == '-';
    let start: usize = if n > 0 && (cs[0] == '-' || cs[0] == '+') { 1 } else { 0 };
    let ghost body = if s@.len() > 0 && (s@[0] == '-' || s@[0] == '+') { s@.drop_first() } else { s@ };
    assert(body =~= cs@.skip(start as int));
    if start == n {
        return None;
    }
    let mut acc: u128 = 0;
    let mut k: usize = start;
    while k < n
        invariant
            start <= k <= n,
            n == cs@.len(),
            cs@ == s@,
            neg == (s@.len() > 0 && s@[0] == '-'),
            body == (if s@.len() > 0 && (s@[0] == '-' || s@[0] == '+') { s@.drop_first() } else { s@ }),
            body == cs@.skip(start as int),
            acc as int == digits_value(body.take(k - start)),
            acc <= 9223372036854775808u128,
            forall|j: int| 0 <= j < k - start ==> is_digit(#[trigger] body[j]),
        decreases n - k,
    {
        let c = cs[k];
        if !('0' <= c && c <= '9') {
            assert(body[k - start] == cs@[k as int]);
            assert(!is_digit(body[k - start]));
            assert(!all_digits(body));
            assert(body.len() > 0);
            assert(spec_parse_i64(s@) is None);
            return None;
        }
        let d: u128 = ((c as u32) - 48u32) as u128;
        proof {
            assert(body.take(k + 1 - start).drop_last() =~= body.take(k - start));
            assert(body.take(k + 1 - start).last() == c);
            assert(d == digit_value(c));
        }
        acc = acc * 10 + d;
        k += 1;
        if acc > 9223372036854775808u128 {
            proof {
                lemma_digits_value_prefix(body, k - start);
                assert(digits_value(body) > 9223372036854775808int);
                assert(spec_parse_i64(s@) is None);
            }
            return None;
        }
    }
    assert(body.take(n - start) =~= body);
    if neg {
        let v: i128 = -(acc as i128);
        Some(v as i64)
    } else if acc <= 9223372036854775807u128 {
        Some(acc as i64)
    } else {
        None
    }
}

// ---------------------------------------------------------------------------
// The models JSON
// ---------------------------------------------------------------------------

/// One template of a model: its `name`, `qfmt` and `afmt` where they are
/// strings.
pub type ModelTemplate = (Option<String>, Option<String>, Option<String>);

/// One model of the JSON object of models, as the import reads it: the key
/// it stands under, its `name` where that is a string, its `type` where that
/// is an `i64`, the `name` of each entry of `flds` and the templates of
/// `tmpls` where those are arrays.
pub struct AnkiModel {
    pub key: String,
    pub name: Option<String>,
    pub kind: Option<i64>,
    pub fields: Option<Vec<Option<String>>>,
    pub templates: Option<Vec<ModelTemplate>>,
}

pub open spec fn opt_text(o: Option<String>) -> Option<Seq<char>> {
    match o {
        Some(s) => Some(s@),
        None => None,
    }
}

/// (name, front, back)
pub type TemplateView = (Option<Seq<char>>, Option<Seq<char>>, Option<Seq<char>>);

/// (key, name, type, field names, templates)
pub type ModelView = (Seq<char>, Option<Seq<char>>, Option<int>, Option<Seq<Option<Seq<char>>>>, Option<Seq<TemplateView>>);

pub open spec fn template_view(t: ModelTemplate) -> TemplateView {
    (opt_text(t.0), opt_text(t.1), opt_text(t.2))
}

pub open spec fn model_view(m: AnkiModel) -> ModelView {
    (
        m.key@,
        opt_text(m.name),
        match m.kind {
            Some(k) => Some(k as int),
            None => None,
        },
        match m.fields {
            Some(f) => Some(f@.map_values(|o: Option<String>| opt_text(o))),
            None => None,
        },
        match m.templates {
            Some(t) => Some(t@.map_values(|x: ModelTemplate| template_view(x))),
            None => None,
        },
    )
}

pub open spec fn models_view(v: Seq<AnkiModel>) -> Seq<ModelView> {
    v.map_values(|m: AnkiModel| model_view(m))
}

/// What `serde_json::from_str` makes of the models text, read as above, in
/// the order of serde_json's map; `None` when the text is not JSON or not an
/// object.
pub uninterp spec fn spec_anki_models(text: Seq<char>) -> Option<Seq<ModelView>>;

/// `serde_json::from_str::<serde_json::Value>` on the models text (or the
/// decks text, an object of the same shape), each entry's fields taken one
/// for one. Claimed: the result is a function of
/// the text alone.
#[verifier::external_body]
pub(crate) fn parse_anki_models(text: &str) -> (r: Option<Vec<AnkiModel>>)
    ensures
        match r {
            Some(v) => spec_anki_models(text@) == Some(models_view(v@)),
            None => spec_anki_models(text@) is None,
        },
{
    let value: Value = serde_json::from_str(text).ok()?;
    let s = |v: &Value, k| v[k].as_str().map(String::from);
    Some(value.as_object()?.iter().map(|(key, m)| AnkiModel {
        key: key.clone(),
        name: s(m, "name"),
        kind: m["type"].as_i64(),
        fields: m["flds"].as_array().map(|a| a.iter().map(|f| s(f, "name")).collect()),
        templates: m["tmpls"].as_array().map(|a| a.iter().map(|t| (s(t, "name"), s(t, "qfmt"), s(t, "afmt"))).collect()),
    }).collect())
}

// ---------------------------------------------------------------------------
// Planning the note types
// ---------------------------------------------------------------------------

pub struct FieldPlan {
    pub id: String,
    pub name: String,
    pub ordinal: usize,
}

pub struct TemplatePlan {
    pub id: String,
    pub name: String,
    pub front: String,
    pub back: String,
    pub ordinal: usize,
}

/// A note type to write for one model, with its fields and templates.
pub struct NoteTypePlan {
    pub anki_id: i64,
    pub note_type_id: String,
    pub name: String,
    pub is_cloze: bool,
    pub fields: Vec<FieldPlan>,
    pub templates: Vec<TemplatePlan>,
}

pub type FieldPlanView = (Seq<char>, Seq<char>, int);

pub type TemplatePlanView = (Seq<char>, Seq<char>, Seq<char>, Seq<char>, int);

/// (anki id, note type id, name, cloze, fields, templates)
pub type PlanView = (int, Seq<char>, Seq<char>, bool, Seq<FieldPlanView>, Seq<TemplatePlanView>);

pub open spec fn plan_view(p: NoteTypePlan) -> PlanView {
    (
        p.anki_id as int,
        p.note_type_id@,
        p.name@,
        p.is_cloze,
        p.fields@.map_values(|f: FieldPlan| (f.id@, f.name@, f.ordinal as int)),
        p.templates@.map_values(|t: TemplatePlan| (t.id@, t.name@, t.front@, t.back@, t.ordinal as int)),
    )
}

pub open spec fn plans_view(v: Seq<NoteTypePlan>) -> Seq<PlanView> {
    v.map_values(|p: NoteTypePlan| plan_view(p))
}

pub open spec fn or_text(o: Option<Seq<char>>, default: Seq<char>) -> Seq<char> {
    match o {
        Some(s) => s,
        None => default,
    }
}

/// The Anki id of a model: its key as an `i64`, 0 where the key is not one.
pub open spec fn spec_model_id(key: Seq<char>) -> int {
    match spec_parse_i64(key) {
        Some(v) => v as int,
        None => 0,
    }
}

/// `<prefix><anki id>_<i>`
pub open spec fn indexed_id(prefix: Seq<char>, anki_id: int, i: int) -> Seq<char> {
    prefix + int_decimal(anki_id) + "_"@ + decimal(i as nat)
}

/// The fields of a model: `f_imp_<id>_<i>`, the field's name or "Field",
/// ordinal `i`; none where `flds` is not an array.
pub open spec fn spec_field_plans(anki_id: int, fields: Option<Seq<Option<Seq<char>>>>) -> Seq<FieldPlanView> {
    match fields {
        Some(f) => Seq::new(f.len(), |i: int| (indexed_id("f_imp_"@, anki_id, i), or_text(f[i], "Field"@), i)),
        None => Seq::empty(),
    }
}

/// The templates of a model: `ct_imp_<id>_<i>`, the name or "Card", the
/// front or "{{Front}}", the back or "{{Back}}", ordinal `i`; none where
/// `tmpls` is not an array.
pub open spec fn spec_template_plans(anki_id: int, templates: Option<Seq<TemplateView>>) -> Seq<TemplatePlanView> {
    match templates {
        Some(t) => Seq::new(t.len(), |i: int| (
            indexed_id("ct_imp_"@, anki_id, i),
            or_text(t[i].0, "Card"@),
            or_text(t[i].1, "{{Front}}"@),
            or_text(t[i].2, "{{Back}}"@),
            i,
        )),
        None => Seq::empty(),
    }
}

/// The note type planned for one model: id `nt_imp_<id>`, the model's name
/// or "Imported", cloze exactly when its type is 1.
pub open spec fn spec_plan_model(m: ModelView) -> PlanView {
    let id = spec_model_id(m.0);
    (
        id,
        "nt_imp_"@ + int_decimal(id),
        or_text(m.1, "Imported"@),
        m.2 == Some(1int),
        spec_field_plans(id, m.3),
        spec_template_plans(id, m.4),
    )
}

pub open spec fn spec_plan_legacy_note_types(models: Seq<ModelView>) -> Seq<PlanView> {
    models.map_values(|m: ModelView| spec_plan_model(m))
}

fn text_or(o: &Option<String>, default: &str) -> (r: String)
    ensures
        r@ == or_text(opt_text(*o), default@),
{
    match o {
        Some(s) => s.clone(),
        None => owned(default),
    }
}

fn indexed_id_exec(prefix: &str, anki_id: i64, i: usize) -> (r: String)
    ensures
        r@ == indexed_id(prefix@, anki_id as int, i as int),
{
    let mut v: Vec<char> = Vec::new();
    push_str(&mut v, prefix);
    push_i64_decimal(&mut v, anki_id);
    push_str(&mut v, "_");
    push_decimal(&mut v, i);
    string_of(&v)
}

fn plan_model(m: &AnkiModel) -> (r: NoteTypePlan)
    ensures
        plan_view(r) == spec_plan_model(model_view(*m)),
{
    let ghost mv = model_view(*m);
    let anki_id: i64 = match parse_i64(m.key.as_str()) {
        Some(v) => v,
        None => 0,
    };
    let mut nt: Vec<char> = Vec::new();
    push_str(&mut nt, "nt_imp_");
    push_i64_decimal(&mut nt, anki_id);
    let is_cloze = match m.kind {
        Some(k) => k == 1,
        None => false,
    };
    let mut fields: Vec<FieldPlan> = Vec::new();
    match &m.fields {
        Some(f) => {
            let ghost fv = f@.map_values(|o: Option<String>| opt_text(o));
            let mut i: usize = 0;
            while i < f.len()
                invariant
                    i <= f.len(),
                    fv == f@.map_values(|o: Option<String>| opt_text(o)),
                    fields@.len() == i,
                    forall|j: int| 0 <= j < i ==> (#[trigger] fields@[j]).id@ == indexed_id("f_imp_"@, anki_id as int, j)
                        && fields@[j].name@ == or_text(fv[j], "Field"@) && fields@[j].ordinal == j,
                decreases f.len() - i,
            {
                let id = indexed_id_exec("f_imp_", anki_id, i);
                let name = text_or(&f[i], "Field");
                fields.push(FieldPlan { id, name, ordinal: i });
                i += 1;
            }
        },
        None => {},
    }
    let mut templates: Vec<TemplatePlan> = Vec::new();
    match &m.templates {
        Some(t) => {
            let ghost tv = t@.map_values(|x: ModelTemplate| template_view(x));
            let mut i: usize = 0;
            while i < t.len()
                invariant
                    i <= t.len(),
                    tv == t@.map_values(|x: ModelTemplate| template_view(x)),
                    templates@.len() == i,
                    forall|j: int| 0 <= j < i ==> (#[trigger] templates@[j]).id@ == indexed_id("ct_imp_"@, anki_id as int, j)
                        && templates@[j].name@ == or_text(tv[j].0, "Card"@)
                        && templates@[j].front@ == or_text(tv[j].1, "{{Front}}"@)
                        && templates@[j].back@ == or_text(tv[j].2, "{{Back}}"@)
                        && templates@[j].ordinal == j,
                decreases t.len() - i,
            {
                let id = indexed_id_exec("ct_imp_", anki_id, i);
                let name = text_or(&t[i].0, "Card");
                let front = text_or(&t[i].1, "{{Front}}");
                let back = text_or(&t[i].2, "{{Back}}");
                templates.push(TemplatePlan { id, name, front, back, ordinal: i });
                i += 1;
            }
        },
        None => {},
    }
    let r = NoteTypePlan {
        anki_id,
        note_type_id: string_of(&nt),
        name: text_or(&m.name, "Imported"),
        is_cloze,
        fields,
        templates,
    };
    assert(plan_view(r).4 =~= spec_plan_model(mv).4);
    assert(plan_view(r).5 =~= spec_plan_model(mv).5);
    r
}

/// The note types of an older collection's models, one per model in the
/// order given.
pub fn plan_legacy_note_types(models: &Vec<AnkiModel>) -> (r: Vec<NoteTypePlan>)
    ensures
        plans_view(r@) == spec_plan_legacy_note_types(models_view(models@)),
{
    let mut out: Vec<NoteTypePlan> = Vec::new();
    let mut i: usize = 0;
    while i < models.len()
        invariant
            i <= models.len(),
            plans_view(out@) == spec_plan_legacy_note_types(models_view(models@)).take(i as int),
        decreases models.len() - i,
    {
        let p = plan_model(&models[i]);
        let ghost before = plans_view(out@);
        out.push(p);
        assert(plans_view(out@) =~= before.push(plan_view(p)));
        assert(spec_plan_legacy_note_types(models_view(models@)).take(i + 1)
            =~= spec_plan_legacy_note_types(models_view(models@)).take(i as int).push(spec_plan_model(model_view(models@[i as int]))));
        i += 1;
    }
    assert(spec_plan_legacy_note_types(models_view(models@)).take(models.len() as int)
        =~= spec_plan_legacy_note_types(models_view(models@)));
    out
}

/// The note types of an older collection, from the models text: none where
/// the text is not a JSON object.
pub fn legacy_note_types(models_text: &str) -> (r: Vec<NoteTypePlan>)
    ensures
        plans_view(r@) == match spec_anki_models(models_text@) {
            Some(ms) => spec_plan_legacy_note_types(ms),
            None => Seq::empty(),
        },
{
    match parse_anki_models(models_text) {
        Some(models) => plan_legacy_note_types(&models),
        None => Vec::new(),
    }
}

} // verus!
verus! {

// ---------------------------------------------------------------------------
// Decks of older collections
// ---------------------------------------------------------------------------

/// The decks of an older collection: each entry of the decks JSON object
/// with its key as an `i64` (0 where it is not one) and its `name` (or
/// "Imported Deck"), in the order of serde_json's map.
pub open spec fn spec_legacy_decks(decks: Seq<ModelView>) -> Seq<(int, Seq<char>)> {
    decks.map_values(|d: ModelView| (spec_model_id(d.0), or_text(d.1, "Imported Deck"@)))
}

/// The decks of an older collection from its decks text (the same object
/// of objects as the models text): none where the text is not a JSON
/// object.
pub fn legacy_decks(decks_text: &str) -> (r: Vec<(i64, String)>)
    ensures
        r@.map_values(|d: (i64, String)| (d.0 as int, d.1@)) == match spec_anki_models(decks_text@) {
            Some(ds) => spec_legacy_decks(ds),
            None => Seq::empty(),
        },
{
    let decks = match parse_anki_models(decks_text) {
        Some(d) => d,
        None => {
            let out: Vec<(i64, String)> = Vec::new();
            assert(out@.map_values(|d: (i64, String)| (d.0 as int, d.1@)) =~= Seq::<(int, Seq<char>)>::empty());
            return out;
        },
    };
    let ghost want = spec_legacy_decks(models_view(decks@));
    let mut out: Vec<(i64, String)> = Vec::new();
    let mut i: usize = 0;
    while i < decks.len()
        invariant
            i <= decks.len(),
            want == spec_legacy_decks(models_view(decks@)),
            out@.map_values(|d: (i64, String)| (d.0 as int, d.1@)) == want.take(i as int),
        decreases decks.len() - i,
    {
        let id: i64 = match parse_i64(decks[i].key.as_str()) {
            Some(v) => v,
            None => 0,
        };
        let name = text_or(&decks[i].name, "Imported Deck");
        let ghost before = out@.map_values(|d: (i64, String)| (d.0 as int, d.1@));
        out.push((id, name));
        assert(out@.map_values(|d: (i64, String)| (d.0 as int, d.1@)) =~= before.push((id as int, name@)));
        assert(want.take(i + 1) =~= want.take(i as int).push(want[i as int]));
        i += 1;
    }
    assert(want.take(decks.len() as int) =~= want);
    out
}

} // verus!
