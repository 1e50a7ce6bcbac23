//! Search and statistics: the text a note is indexed by, and the study
//! streak shown in the overview.
use vstd::prelude::*;
use crate::dates::{previous_day, spec_previous_day};
use crate::json::{fields_view, parse_json_object, spec_json_object, FieldsView, JsonFields};
use crate::text::{chars_of, push_all, string_of};

verus! {

// ---------------------------------------------------------------------------
// Index text
// ---------------------------------------------------------------------------

/// The text with tags taken out: what lies between `<` and `>` is dropped
/// and each `>` becomes a space.
pub open spec fn strip_from(s: Seq<char>, in_tag: bool) -> Seq<char>
    decreases s.len(),
{
    if s.len() == 0 {
        Seq::empty()
    } else {
        let c = s[0];
        let rest = s.drop_first();
        if c == '<' {
            strip_from(rest, true)
        } else if c == '>' {
            seq![' '] + strip_from(rest, false)
        } else if !in_tag {
            seq![c] + strip_from(rest, in_tag)
        } else {
            strip_from(rest, in_tag)
        }
    }
}

pub open spec fn spec_strip_html(s: Seq<char>) -> Seq<char> {
    strip_from(s, false)
}

fn strip_html_v(s: &Vec<char>) -> (r: Vec<char>)
    ensures
        r@ == spec_strip_html(s@),
{
    let mut out: Vec<char> = Vec::new();
    let mut in_tag = false;
    let mut i: usize = 0;
    assert(s@.skip(0) =~= s@);
    while i < s.len()
        invariant
            i <= s.len(),
            out@ + strip_from(s@.skip(i as int), in_tag) == spec_strip_html(s@),
        decreases s.len() - i,
    {
        let ghost rest = s@.skip(i + 1);
        assert(s@.skip(i as int)[0] == s@[i as int]);
        assert(s@.skip(i as int).drop_first() =~= rest);
        let ghost before = out@;
        let c = s[i];
        if c == '<' {
            in_tag = true;
        } else if c == '>' {
            in_tag = false;
            out.push(' ');
            assert(out@ + strip_from(rest, in_tag) =~= before + (seq![' '] + strip_from(rest, false)));
        } else if !in_tag {
            out.push(c);
            assert(out@ + strip_from(rest, in_tag) =~= before + (seq![c] + strip_from(rest, in_tag)));
        }
        i += 1;
    }
    assert(out@ + strip_from(s@.skip(s.len() as int), in_tag) =~= out@);
    out
}

pub fn strip_html(s: &str) -> (r: String)
    ensures
        r@ == spec_strip_html(s@),
{
    let v = chars_of(s);
    string_of(&strip_html_v(&v))
}

/// The string values of the entries, each stripped of tags, joined by
/// spaces (other values are left out).
pub open spec fn spec_text_of_fields(fields: FieldsView) -> Seq<char>
    decreases fields.len(),
{
    if fields.len() == 0 {
        Seq::empty()
    } else {
        let rest = spec_text_of_fields(fields.drop_last());
        match fields.last().1 {
            Some(t) => if string_count(fields.drop_last()) == 0 {
                spec_strip_html(t)
            } else {
                rest + seq![' '] + spec_strip_html(t)
            },
            None => rest,
        }
    }
}

/// How many entries hold a string.
pub open spec fn string_count(fields: FieldsView) -> nat
    decreases fields.len(),
{
    if fields.len() == 0 {
        0
    } else {
        string_count(fields.drop_last()) + if fields.last().1 is Some { 1nat } else { 0nat }
    }
}

/// The index text of a note's fields.
pub fn text_of_fields(fields: &JsonFields) -> (r: String)
    ensures
        r@ == spec_text_of_fields(fields_view(fields@)),
{
    let ghost fv = fields_view(fields@);
    let mut out: Vec<char> = Vec::new();
    let mut any = false;
    let mut i: usize = 0;
    while i < fields.len()
        invariant
            i <= fields.len(),
            fv == fields_view(fields@),
            out@ == spec_text_of_fields(fv.take(i as int)),
            any == (string_count(fv.take(i as int)) > 0),
        decreases fields.len() - i,
    {
        assert(fv.take(i + 1).drop_last() =~= fv.take(i as int));
        assert(fv.take(i + 1).last() == fv[i as int]);
        proof {
            lemma_no_strings_no_text(fv.take(i as int));
        }
        match &fields[i].1 {
            Some(t) => {
                let tv = chars_of(t.as_str());
                let st = strip_html_v(&tv);
                let ghost before = out@;
                if any {
                    out.push(' ');
                }
                push_all(&mut out, &st);
                proof {
                    if any {
                        assert(out@ =~= before + seq![' '] + st@);
                    } else {
                        assert(out@ =~= st@);
                    }
                }
                any = true;
            },
            None => {},
        }
        i += 1;
    }
    assert(fv.take(fields.len() as int) =~= fv);
    string_of(&out)
}

proof fn lemma_no_strings_no_text(fields: FieldsView)
    ensures
        string_count(fields) == 0 ==> spec_text_of_fields(fields) == Seq::<char>::empty(),
    decreases fields.len(),
{
    if fields.len() > 0 {
        lemma_no_strings_no_text(fields.drop_last());
    }
}

/// What a note is found by in the full-text index: the text of its fields
/// when its `fields_json` is a JSON object, else nothing.
pub open spec fn spec_extract_text(parsed: Option<FieldsView>) -> Seq<char> {
    match parsed {
        Some(f) => spec_text_of_fields(f),
        None => Seq::empty(),
    }
}

pub fn extract_text_from_fields(fields_json: &str) -> (r: String)
    ensures
        r@ == spec_extract_text(spec_json_object(fields_json@)),
{
    match parse_json_object(fields_json) {
        Some(f) => text_of_fields(&f),
        None => {
            proof {
                reveal_strlit("");
            }
            crate::text::owned("")
        },
    }
}

// ---------------------------------------------------------------------------
// Overview
// ---------------------------------------------------------------------------

pub struct StatsOverview {
    pub total_cards: i64,
    pub new_cards: i64,
    pub learning_cards: i64,
    pub review_cards: i64,
    pub total_decks: i64,
    pub total_reviews_today: i64,
    pub streak_days: i64,
    pub daily_reviews: Vec<DailyReview>,
}

/// Reviews on one day (`YYYY-MM-DD`), by rating.
pub struct DailyReview {
    pub date: String,
    pub count: i64,
    pub again: i64,
    pub hard: i64,
    pub good: i64,
    pub easy: i64,
}

/// Consecutive days studied, counting from `expected` back through the
/// days listed from position `i` on (latest first): a day counts when it is
/// the one expected, and the day before it is expected next.
pub open spec fn streak_from(days: Seq<Seq<char>>, i: int, expected: Seq<char>) -> nat
    decreases days.len() - i,
{
    if i < 0 || i >= days.len() || days[i] != expected {
        0
    } else {
        1 + match spec_previous_day(days[i]) {
            Some(p) => streak_from(days, i + 1, p),
            None => 0nat,
        }
    }
}

pub open spec fn review_days(daily: Seq<DailyReview>) -> Seq<Seq<char>> {
    daily.map_values(|d: DailyReview| d.date@)
}

/// The study streak ending today, from the days with reviews (latest
/// first).
pub fn calculate_streak(today: &str, daily: &Vec<DailyReview>) -> (n: i64)
    requires
        daily@.len() <= i64::MAX,
    ensures
        n as int == streak_from(review_days(daily@), 0, today@) as int,
{
    let ghost days = review_days(daily@);
    let mut expected = crate::text::owned(today);
    let mut streak: i64 = 0;
    let mut i: usize = 0;
    while i < daily.len()
        invariant_except_break
            i <= daily.len(),
            streak as int == i as int,
            streak_from(days, 0, today@) == i + streak_from(days, i as int, expected@),
        invariant
            days == review_days(daily@),
            daily@.len() <= i64::MAX,
        ensures
            streak as int == streak_from(days, 0, today@) as int,
        decreases daily.len() - i,
    {
        assert(days[i as int] == daily@[i as int].date@);
        if daily[i].date != expected {
            assert(streak_from(days, i as int, expected@) == 0);
            break;
        }
        streak = streak + 1;
        match previous_day(daily[i].date.as_str()) {
            Some(p) => {
                assert(streak_from(days, i as int, expected@) == 1 + streak_from(days, i + 1, p@));
                expected = p;
            },
            None => {
                assert(streak_from(days, i as int, expected@) == 1);
                break;
            },
        }
        i += 1;
    }
    streak
}

/// `now % 86400` as Rust computes it: the remainder takes the sign of `now`.
pub open spec fn day_remainder(now: int) -> int {
    if now >= 0 {
        now % 86400
    } else {
        -((-now) % 86400)
    }
}

/// The start (UTC midnight) of the day that `now` falls in; for a time
/// before 1970 the remainder is taken toward zero, as `%` does.
pub open spec fn spec_day_start(now: int) -> int {
    now - day_remainder(now)
}

pub fn day_start(now: i64) -> (r: i64)
    ensures
        r as int == spec_day_start(now as int),
{
    now - (now % 86400)
}

/// Index text holds no tag brackets: what is left of a text after tags are
/// stripped has neither `<` nor `>`.
pub proof fn law_stripped_has_no_brackets(s: Seq<char>, in_tag: bool)
    ensures
        forall|i: int| 0 <= i < strip_from(s, in_tag).len() ==> #[trigger] strip_from(s, in_tag)[i] != '<'
            && strip_from(s, in_tag)[i] != '>',
    decreases s.len(),
{
    if s.len() > 0 {
        let rest = s.drop_first();
        law_stripped_has_no_brackets(rest, true);
        law_stripped_has_no_brackets(rest, false);
        law_stripped_has_no_brackets(rest, in_tag);
        let c = s[0];
        let r = strip_from(s, in_tag);
        if c == '<' {
            assert(r == strip_from(rest, true));
        } else if c == '>' {
            let tail = strip_from(rest, false);
            assert(r == seq![' '] + tail);
            assert forall|i: int| 0 <= i < r.len() implies #[trigger] r[i] != '<' && r[i] != '>' by {
                if i > 0 {
                    assert(r[i] == tail[i - 1]);
                } else {
                    assert(r[0] == ' ');
                }
            }
        } else if !in_tag {
            let tail = strip_from(rest, in_tag);
            assert(r == seq![c] + tail);
            assert forall|i: int| 0 <= i < r.len() implies #[trigger] r[i] != '<' && r[i] != '>' by {
                if i > 0 {
                    assert(r[i] == tail[i - 1]);
                } else {
                    assert(r[0] == c);
                }
            }
        } else {
            assert(r == strip_from(rest, in_tag));
        }
    }
}

/// A streak never counts more days than were listed.
pub proof fn law_streak_at_most_days(days: Seq<Seq<char>>, i: int, expected: Seq<char>)
    requires
        0 <= i <= days.len(),
    ensures
        streak_from(days, i, expected) <= days.len() - i,
    decreases days.len() - i,
{
    if i < days.len() && days[i] == expected {
        match spec_previous_day(days[i]) {
            Some(p) => law_streak_at_most_days(days, i + 1, p),
            None => {},
        }
    }
}

} // verus!
