//! Reviewing cards: the state a card moves to when it is answered, the
//! counts of a day's reviews, when a buried card comes back, and which
//! buried cards a search lists.
use vstd::prelude::*;
use crate::search::spec_day_start;
use crate::text::{chars_of, contains, contains_exec, lowercase, owned, push_str, spec_lowercase, string_of, trim, trim_vec};

verus! {

pub struct AnswerInput {
    pub card_id: String,
    /// 1 again, 2 hard, 3 good, 4 easy
    pub rating: i32,
    pub elapsed_ms: i64,
}

pub struct ReviewStats {
    pub reviewed_today: i64,
    pub again_count: i64,
    pub hard_count: i64,
    pub good_count: i64,
    pub easy_count: i64,
    pub total_time_ms: i64,
}

/// How long each answer would schedule the card for, as shown on the
/// answer buttons.
pub struct IntervalPreview {
    pub again: String,
    pub hard: String,
    pub good: String,
    pub easy: String,
}

/// The row of the starting tables that a rating picks: the rating less
/// one, kept within 0..=3.
pub open spec fn spec_rating_index(rating: i32) -> int {
    if rating - 1 < 0 {
        0
    } else if rating - 1 > 3 {
        3
    } else {
        rating - 1
    }
}

pub fn rating_index(rating: i32) -> (r: usize)
    ensures
        r as int == spec_rating_index(rating),
        r <= 3,
{
    if rating <= 1 {
        0
    } else if rating >= 4 {
        3
    } else {
        (rating - 1) as usize
    }
}

/// The state after an answer: a new card goes to learning when forgotten
/// and to review otherwise; a card already studied goes to relearning when
/// forgotten and to review otherwise.
pub open spec fn spec_next_state(state: Seq<char>, rating: i32) -> Seq<char> {
    if state == "new"@ {
        if rating == 1 {
            "learning"@
        } else {
            "review"@
        }
    } else if rating == 1 {
        "relearning"@
    } else {
        "review"@
    }
}

pub fn next_state(state: &str, rating: i32) -> (r: String)
    ensures
        r@ == spec_next_state(state@, rating),
{
    if crate::text::same_text(state, "new") {
        if rating == 1 {
            owned("learning")
        } else {
            owned("review")
        }
    } else if rating == 1 {
        owned("relearning")
    } else {
        owned("review")
    }
}

/// The lapses an answer adds: one when the card was forgotten.
pub fn lapse_increment(rating: i32) -> (r: i64)
    ensures
        r == (if rating == 1 { 1i64 } else { 0i64 }),
{
    if rating == 1 {
        1
    } else {
        0
    }
}

/// What undoing an answer does to the lapses: one fewer when the answer
/// was a lapse (the store keeps the count from going below zero).
pub fn undo_lapse_delta(rating: i32) -> (r: i64)
    ensures
        r == (if rating == 1 { -1i64 } else { 0i64 }),
{
    if rating == 1 {
        -1
    } else {
        0
    }
}

/// (reviews, again, hard, good, easy, time)
pub type StatsView = (int, int, int, int, int, int);

pub open spec fn count_rating(rows: Seq<(i32, i64)>, r: i32) -> int
    decreases rows.len(),
{
    if rows.len() == 0 {
        0
    } else {
        count_rating(rows.drop_last(), r) + if rows.last().0 == r { 1int } else { 0int }
    }
}

pub open spec fn total_time(rows: Seq<(i32, i64)>) -> int
    decreases rows.len(),
{
    if rows.len() == 0 {
        0
    } else {
        total_time(rows.drop_last()) + rows.last().1
    }
}

/// The time spent over the first rows stays within `i64` all along.
pub open spec fn time_fits(rows: Seq<(i32, i64)>) -> bool {
    forall|k: int| 0 <= k <= rows.len() ==> i64::MIN <= #[trigger] total_time(rows.take(k)) <= i64::MAX
}

pub open spec fn stats_view(s: ReviewStats) -> StatsView {
    (
        s.reviewed_today as int,
        s.again_count as int,
        s.hard_count as int,
        s.good_count as int,
        s.easy_count as int,
        s.total_time_ms as int,
    )
}

/// A day's reviews (rating, time taken): how many, how many of each
/// rating, and the time spent; ratings outside 1..=4 are counted only in
/// the total.
pub open spec fn spec_review_stats(rows: Seq<(i32, i64)>) -> StatsView {
    (rows.len() as int, count_rating(rows, 1), count_rating(rows, 2), count_rating(rows, 3), count_rating(rows, 4), total_time(rows))
}

proof fn lemma_count_le(rows: Seq<(i32, i64)>, r: i32)
    ensures
        0 <= count_rating(rows, r) <= rows.len(),
    decreases rows.len(),
{
    if rows.len() > 0 {
        lemma_count_le(rows.drop_last(), r);
    }
}

pub fn review_stats(rows: &Vec<(i32, i64)>) -> (s: ReviewStats)
    requires
        rows@.len() <= i64::MAX,
        time_fits(rows@),
    ensures
        stats_view(s) == spec_review_stats(rows@),
{
    let mut s = ReviewStats {
        reviewed_today: rows.len() as i64,
        again_count: 0,
        hard_count: 0,
        good_count: 0,
        easy_count: 0,
        total_time_ms: 0,
    };
    let mut i: usize = 0;
    while i < rows.len()
        invariant
            i <= rows.len(),
            rows@.len() <= i64::MAX,
            time_fits(rows@),
            s.reviewed_today as int == rows@.len(),
            s.again_count as int == count_rating(rows@.take(i as int), 1),
            s.hard_count as int == count_rating(rows@.take(i as int), 2),
            s.good_count as int == count_rating(rows@.take(i as int), 3),
            s.easy_count as int == count_rating(rows@.take(i as int), 4),
            s.total_time_ms as int == total_time(rows@.take(i as int)),
        decreases rows.len() - i,
    {
        proof {
            assert(rows@.take(i + 1).drop_last() =~= rows@.take(i as int));
            assert(rows@.take(i + 1).last() == rows@[i as int]);
            assert(i64::MIN <= total_time(rows@.take(i + 1)) <= i64::MAX);
            lemma_count_le(rows@.take(i as int), 1);
            lemma_count_le(rows@.take(i as int), 2);
            lemma_count_le(rows@.take(i as int), 3);
            lemma_count_le(rows@.take(i as int), 4);
        }
        let (rating, elapsed) = rows[i];
        s.total_time_ms = s.total_time_ms + elapsed;
        if rating == 1 {
            s.again_count = s.again_count + 1;
        } else if rating == 2 {
            s.hard_count = s.hard_count + 1;
        } else if rating == 3 {
            s.good_count = s.good_count + 1;
        } else if rating == 4 {
            s.easy_count = s.easy_count + 1;
        }
        i += 1;
    }
    assert(rows@.take(rows.len() as int) =~= rows@);
    s
}

/// The stats of a deck with no decks in its scope.
pub fn empty_review_stats() -> (s: ReviewStats)
    ensures
        stats_view(s) == (0int, 0int, 0int, 0int, 0int, 0int),
{
    ReviewStats { reviewed_today: 0, again_count: 0, hard_count: 0, good_count: 0, easy_count: 0, total_time_ms: 0 }
}

/// The end of the day that `now` falls in: when a card buried now comes
/// back.
pub open spec fn spec_end_of_today(now: int) -> int {
    spec_day_start(now) + 86400
}

pub fn end_of_today(now: i64) -> (r: i64)
    requires
        spec_end_of_today(now as int) <= i64::MAX,
    ensures
        r as int == spec_end_of_today(now as int),
{
    let start = crate::search::day_start(now);
    start + 86400
}

/// A card buried now comes back when the day is over: after `now`, and
/// within a day of it (for times from 1970 on; before that the remainder
/// taken toward zero puts the end of the day further out).
pub proof fn law_bury_until_after_now(now: int)
    ensures
        now < spec_end_of_today(now),
        now >= 0 ==> spec_end_of_today(now) <= now + 86400,
{
}

/// Undoing an answer takes back the lapse the answer added.
pub proof fn law_undo_restores_lapses(rating: i32)
    ensures
        (if rating == 1 { 1int } else { 0int }) + (if rating == 1 { -1int } else { 0int }) == 0,
{
}

// ---------------------------------------------------------------------------
// The list of buried cards
// ---------------------------------------------------------------------------

/// How many buried cards are fetched: as asked (100 when not), at most 500.
pub open spec fn spec_buried_fetch_limit(limit: Option<i64>) -> i64 {
    let l = match limit {
        Some(l) => l,
        None => 100,
    };
    if l < 500 {
        l
    } else {
        500
    }
}

pub fn buried_fetch_limit(limit: Option<i64>) -> (r: i64)
    ensures
        r == spec_buried_fetch_limit(limit),
{
    let l = match limit {
        Some(l) => l,
        None => 100,
    };
    if l < 500 {
        l
    } else {
        500
    }
}

/// The search of the buried-cards list: the query ("" when none) trimmed
/// and lowercased.
pub open spec fn spec_buried_search(query: Option<Seq<char>>) -> Seq<char> {
    spec_lowercase(
        trim(
            match query {
                Some(q) => q,
                None => Seq::empty(),
            },
        ),
    )
}

pub fn buried_search(query: Option<&str>) -> (r: String)
    ensures
        r@ == spec_buried_search(
            match query {
                Some(q) => Some(q@),
                None => None,
            },
        ),
{
    let q = match query {
        Some(q) => chars_of(q),
        None => Vec::new(),
    };
    let t = string_of(&trim_vec(&q));
    lowercase(t.as_str())
}

/// Texts joined by single spaces.
pub open spec fn joined_with_spaces(parts: Seq<Seq<char>>) -> Seq<char>
    decreases parts.len(),
{
    if parts.len() == 0 {
        Seq::empty()
    } else if parts.len() == 1 {
        parts[0]
    } else {
        joined_with_spaces(parts.drop_last()) + seq![' '] + parts.last()
    }
}

pub open spec fn texts_view(parts: Seq<String>) -> Seq<Seq<char>> {
    parts.map_values(|s: String| s@)
}

fn join_with_spaces(parts: &Vec<String>) -> (r: Vec<char>)
    ensures
        r@ == joined_with_spaces(texts_view(parts@)),
{
    let ghost pv = texts_view(parts@);
    let mut out: Vec<char> = Vec::new();
    let mut i: usize = 0;
    assert(pv.take(0) =~= Seq::<Seq<char>>::empty());
    while i < parts.len()
        invariant
            i <= parts.len(),
            pv == texts_view(parts@),
            out@ == joined_with_spaces(pv.take(i as int)),
        decreases parts.len() - i,
    {
        assert(pv.take(i + 1).drop_last() =~= pv.take(i as int));
        assert(pv.take(i + 1).last() == parts@[i as int]@);
        if i > 0 {
            out.push(' ');
        } else {
            assert(out@ =~= Seq::<char>::empty());
        }
        push_str(&mut out, parts[i].as_str());
        proof {
            if i == 0 {
                assert(out@ =~= pv.take(1)[0]);
            }
        }
        i += 1;
    }
    assert(pv.take(parts.len() as int) =~= pv);
    out
}

/// A buried card is listed for a search when the search is empty, or when
/// its deck name, its front, or the text of its fields joined by spaces
/// holds the search, each lowercased.
pub open spec fn spec_buried_card_listed(deck_name: Seq<char>, front_html: Seq<char>, field_texts: Seq<Seq<char>>, search: Seq<char>) -> bool {
    search.len() == 0 || contains(spec_lowercase(deck_name), search) || contains(spec_lowercase(front_html), search)
        || contains(spec_lowercase(joined_with_spaces(field_texts)), search)
}

pub fn buried_card_listed(deck_name: &str, front_html: &str, field_texts: &Vec<String>, search: &str) -> (b: bool)
    ensures
        b == spec_buried_card_listed(deck_name@, front_html@, texts_view(field_texts@), search@),
{
    let needle = chars_of(search);
    if needle.len() == 0 {
        return true;
    }
    if contains_exec(&chars_of(lowercase(deck_name).as_str()), &needle) {
        return true;
    }
    if contains_exec(&chars_of(lowercase(front_html).as_str()), &needle) {
        return true;
    }
    let joined = string_of(&join_with_spaces(field_texts));
    contains_exec(&chars_of(lowercase(joined.as_str()).as_str()), &needle)
}

} // verus!
