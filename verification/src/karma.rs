//! Karma: cents earned for reviewing and adding cards, the daily
//! qualification bonus, and the streak milestone bonus.
use vstd::prelude::*;
use crate::dates::{previous_day, spec_previous_day};
use crate::profiles::ActiveProfile;

verus! {

pub const REVIEW_CENTS_FULL: i64 = 10;
pub const REVIEW_CENTS_MID: i64 = 5;
pub const REVIEW_CENTS_LOW: i64 = 2;
pub const ADD_CENTS_PER_CARD: i64 = 20;
pub const DAILY_QUALIFY_BONUS_CENTS: i64 = 50;
pub const STREAK_MILESTONE_BONUS_CENTS: i64 = 500;
pub const ACTIVE_SECONDS_QUALIFY: i64 = 600;
pub const EFFECTIVE_ACTIONS_QUALIFY: i64 = 15;

#[derive(Debug, Clone)]
pub struct KarmaEarnEvent {
    pub earned_cents: i64,
    pub balance_cents: i64,
    pub streak_days: i64,
    pub bonus_awarded_cents: i64,
    pub qualified_today: bool,
}

#[derive(Debug, Clone)]
pub struct DailyQualified {
    pub day: String,
    pub qualified: bool,
}

#[derive(Debug, Clone)]
pub struct KarmaOverview {
    pub balance_cents: i64,
    pub streak_days: i64,
    pub qualified_today: bool,
    pub today_active_seconds: i64,
    pub today_effective_actions: i64,
    pub daily_qualified: Vec<DailyQualified>,
    pub profile_id: String,
    pub is_admin: bool,
}

/// The undo of a review: the karma it gave back.
#[derive(Debug, Clone)]
pub struct UndoReviewResult {
    pub karma: KarmaEarnEvent,
}

pub open spec fn zero_event(e: KarmaEarnEvent) -> bool {
    &&& e.earned_cents == 0
    &&& e.balance_cents == 0
    &&& e.streak_days == 0
    &&& e.bonus_awarded_cents == 0
    &&& !e.qualified_today
}

/// The admin earns nothing: an all-zero event for the admin, `None` for
/// anyone else.
pub fn admin_no_earn(active: &ActiveProfile) -> (r: Option<KarmaEarnEvent>)
    ensures
        active.is_admin <==> r is Some,
        r matches Some(e) ==> zero_event(e),
{
    if active.is_admin {
        Some(
            KarmaEarnEvent {
                earned_cents: 0,
                balance_cents: 0,
                streak_days: 0,
                bonus_awarded_cents: 0,
                qualified_today: false,
            },
        )
    } else {
        None
    }
}

/// Reviews count once and added cards twice.
pub open spec fn spec_effective_actions(review_count: int, add_count: int) -> int {
    review_count + add_count * 2
}

pub open spec fn fits_i64(x: int) -> bool {
    i64::MIN <= x <= i64::MAX
}

pub fn effective_actions(review_count: i64, add_count: i64) -> (r: i64)
    requires
        fits_i64(spec_effective_actions(review_count as int, add_count as int)),
        fits_i64(add_count * 2),
    ensures
        r == spec_effective_actions(review_count as int, add_count as int),
{
    review_count + add_count * 2
}

/// A day qualifies with ten minutes of activity or fifteen effective actions.
pub open spec fn spec_is_qualified(active_seconds: int, review_count: int, add_count: int) -> bool {
    active_seconds >= ACTIVE_SECONDS_QUALIFY || spec_effective_actions(review_count, add_count)
        >= EFFECTIVE_ACTIONS_QUALIFY
}

pub fn is_qualified(active_seconds: i64, review_count: i64, add_count: i64) -> (b: bool)
    requires
        fits_i64(spec_effective_actions(review_count as int, add_count as int)),
        fits_i64(add_count * 2),
    ensures
        b == spec_is_qualified(active_seconds as int, review_count as int, add_count as int),
{
    active_seconds >= ACTIVE_SECONDS_QUALIFY || effective_actions(review_count, add_count)
        >= EFFECTIVE_ACTIONS_QUALIFY
}

/// Cents for the review that comes after `review_count_before` reviews
/// today: 10 for the first 50, 5 up to the 100th, 2 after that.
pub open spec fn spec_review_earn_cents(review_count_before: int) -> int {
    let n = review_count_before + 1;
    if n <= 50 {
        REVIEW_CENTS_FULL as int
    } else if n <= 100 {
        REVIEW_CENTS_MID as int
    } else {
        REVIEW_CENTS_LOW as int
    }
}

pub fn review_earn_cents(review_count_before: i64) -> (r: i64)
    requires
        review_count_before < i64::MAX,
    ensures
        r == spec_review_earn_cents(review_count_before as int),
{
    let n = review_count_before + 1;
    if n <= 50 {
        REVIEW_CENTS_FULL
    } else if n <= 100 {
        REVIEW_CENTS_MID
    } else {
        REVIEW_CENTS_LOW
    }
}

/// Rust's `/` on integers: the quotient rounded toward zero.
pub open spec fn trunc_div(a: int, b: int) -> int
    recommends
        b > 0,
{
    if a >= 0 {
        a / b
    } else {
        -((-a) / b)
    }
}

/// Active seconds credited for one review: half the milliseconds it took
/// in thousands (two seconds count as one), at most 300.
pub open spec fn spec_review_active_seconds(elapsed_ms: int) -> int {
    let s = trunc_div(elapsed_ms, 2000);
    if s < 300 {
        s
    } else {
        300
    }
}

pub fn review_active_seconds(elapsed_ms: i64) -> (r: i64)
    ensures
        r == spec_review_active_seconds(elapsed_ms as int),
{
    let s = elapsed_ms / 2000;
    if s < 300 {
        s
    } else {
        300
    }
}

/// Cents that undoing a review takes back: what the last review of the
/// day earned; `None` when no review was counted today.
pub open spec fn spec_review_refund(review_count: int) -> Option<int> {
    if review_count <= 0 {
        None
    } else {
        Some(spec_review_earn_cents(review_count - 1))
    }
}

pub fn review_refund(review_count: i64) -> (r: Option<i64>)
    ensures
        match r {
            Some(c) => spec_review_refund(review_count as int) == Some(c as int),
            None => spec_review_refund(review_count as int) is None,
        },
{
    if review_count <= 0 {
        None
    } else {
        Some(review_earn_cents(review_count - 1))
    }
}

/// A stored amount lowered by `delta`, but not below zero (`MAX(x - d, 0)`).
pub open spec fn spec_floor_sub(x: int, delta: int) -> int {
    if x - delta > 0 {
        x - delta
    } else {
        0
    }
}

pub fn floor_sub(x: i64, delta: i64) -> (r: i64)
    requires
        fits_i64(x - delta),
    ensures
        r == spec_floor_sub(x as int, delta as int),
{
    if x - delta > 0 {
        x - delta
    } else {
        0
    }
}

/// Cents for adding cards: 20 per card.
pub open spec fn spec_add_earn_cents(card_count: int) -> int {
    ADD_CENTS_PER_CARD * card_count
}

pub fn add_earn_cents(card_count: i64) -> (r: i64)
    requires
        fits_i64(ADD_CENTS_PER_CARD * card_count),
    ensures
        r == spec_add_earn_cents(card_count as int),
{
    ADD_CENTS_PER_CARD * card_count
}

/// The daily bonus is paid once, on the action that first makes the day
/// qualify.
pub open spec fn spec_daily_qualify_bonus(
    was_qualified: int,
    active_seconds: int,
    review_count: int,
    add_count: int,
) -> int {
    if was_qualified != 0 {
        0
    } else if !spec_is_qualified(active_seconds, review_count, add_count) {
        0
    } else {
        DAILY_QUALIFY_BONUS_CENTS as int
    }
}

pub fn daily_qualify_bonus(was_qualified: i64, active_seconds: i64, review_count: i64, add_count: i64) -> (r: i64)
    requires
        fits_i64(spec_effective_actions(review_count as int, add_count as int)),
        fits_i64(add_count * 2),
    ensures
        r == spec_daily_qualify_bonus(was_qualified as int, active_seconds as int, review_count as int, add_count as int),
{
    if was_qualified != 0 {
        return 0;
    }
    if !is_qualified(active_seconds, review_count, add_count) {
        return 0;
    }
    DAILY_QUALIFY_BONUS_CENTS
}

/// The streak bonus is paid when the streak reaches a multiple of seven
/// days that is above the last streak a bonus was paid for.
pub open spec fn spec_streak_bonus(streak: int, last_bonus_at: int) -> int {
    if streak == 0 || streak % 7 != 0 {
        0
    } else if last_bonus_at >= streak {
        0
    } else {
        STREAK_MILESTONE_BONUS_CENTS as int
    }
}

pub fn streak_bonus(streak: i64, last_bonus_at: i64) -> (r: i64)
    ensures
        r == spec_streak_bonus(streak as int, last_bonus_at as int),
{
    if streak == 0 || streak % 7 != 0 {
        return 0;
    }
    if last_bonus_at >= streak {
        return 0;
    }
    STREAK_MILESTONE_BONUS_CENTS
}

/// Whether today counts as qualified once an earning is recorded.
pub open spec fn spec_qualified_now(
    active_seconds: int,
    review_count: int,
    add_count: int,
    was_qualified: int,
    qualify_bonus: int,
) -> bool {
    spec_is_qualified(active_seconds, review_count, add_count) || was_qualified != 0
        || qualify_bonus > 0
}

/// The event reported after an earning: the base amount plus both bonuses.
pub fn earn_event(
    base_earned: i64,
    qualify_bonus: i64,
    streak: i64,
    streak_bonus: i64,
    balance_cents: i64,
    qualified_now: bool,
) -> (e: KarmaEarnEvent)
    requires
        fits_i64(base_earned + qualify_bonus + streak_bonus),
        fits_i64(base_earned + qualify_bonus),
    ensures
        e.earned_cents == base_earned + qualify_bonus + streak_bonus,
        e.balance_cents == balance_cents,
        e.streak_days == streak,
        e.bonus_awarded_cents == streak_bonus,
        e.qualified_today == qualified_now,
{
    KarmaEarnEvent {
        earned_cents: base_earned + qualify_bonus + streak_bonus,
        balance_cents,
        streak_days: streak,
        bonus_awarded_cents: streak_bonus,
        qualified_today: qualified_now,
    }
}


// ---------------------------------------------------------------------------
// The day's record, step by step
// ---------------------------------------------------------------------------

/// Today's karma row of a profile (active seconds, reviews, added cards,
/// qualified flag, cents earned), with the profile's balance and the streak
/// its last milestone bonus was paid for.
#[derive(Debug, Clone, Copy)]
pub struct KarmaDay {
    pub active_seconds: i64,
    pub review_count: i64,
    pub add_count: i64,
    pub qualified: i64,
    pub earned_cents: i64,
    pub balance_cents: i64,
    pub last_streak_bonus_at: i64,
}

/// `d` with `cents` more earned today and in the balance.
pub open spec fn with_earned(d: KarmaDay, cents: int) -> KarmaDay {
    KarmaDay {
        earned_cents: (d.earned_cents + cents) as i64,
        balance_cents: (d.balance_cents + cents) as i64,
        ..d
    }
}

/// The earnings and balance of `d` can take `cents` more.
pub open spec fn can_earn(d: KarmaDay, cents: int) -> bool {
    fits_i64(d.earned_cents + cents) && fits_i64(d.balance_cents + cents)
}

/// A review: one more review and its time today, and what it earns.
pub open spec fn spec_review_step(d: KarmaDay, elapsed_ms: int) -> (KarmaDay, int) {
    let earn = spec_review_earn_cents(d.review_count as int);
    (
        with_earned(
            KarmaDay {
                active_seconds: (d.active_seconds + spec_review_active_seconds(elapsed_ms)) as i64,
                review_count: (d.review_count + 1) as i64,
                ..d
            },
            earn,
        ),
        earn,
    )
}

/// Undoing a review: one review fewer and its earnings taken back, none of
/// them below zero; nothing when no review was counted today. The second
/// part is what the undo earns (the refund, negated).
pub open spec fn spec_refund_step(d: KarmaDay) -> (KarmaDay, int) {
    match spec_review_refund(d.review_count as int) {
        None => (d, 0),
        Some(refund) => (
            KarmaDay {
                review_count: spec_floor_sub(d.review_count as int, 1) as i64,
                earned_cents: spec_floor_sub(d.earned_cents as int, refund) as i64,
                balance_cents: spec_floor_sub(d.balance_cents as int, refund) as i64,
                ..d
            },
            -refund,
        ),
    }
}

/// Adding cards: the cards counted and what they earn; nothing for no cards.
pub open spec fn spec_add_step(d: KarmaDay, card_count: int) -> (KarmaDay, int) {
    if card_count <= 0 {
        (d, 0)
    } else {
        let earn = spec_add_earn_cents(card_count);
        (with_earned(KarmaDay { add_count: (d.add_count + card_count) as i64, ..d }, earn), earn)
    }
}

/// The daily bonus, when this earning first makes the day qualify: the day
/// is marked qualified and the bonus earned.
pub open spec fn spec_qualify_step(d: KarmaDay) -> (KarmaDay, int) {
    let bonus = spec_daily_qualify_bonus(d.qualified as int, d.active_seconds as int, d.review_count as int, d.add_count as int);
    if bonus == 0 {
        (d, 0)
    } else {
        (with_earned(KarmaDay { qualified: 1, ..d }, bonus), bonus)
    }
}

/// The streak bonus for a `streak` of qualified days: earned, and the
/// streak remembered as the last one paid for.
pub open spec fn spec_streak_step(d: KarmaDay, streak: int) -> (KarmaDay, int) {
    let bonus = spec_streak_bonus(streak, d.last_streak_bonus_at as int);
    if bonus == 0 {
        (d, 0)
    } else {
        (with_earned(KarmaDay { last_streak_bonus_at: streak as i64, ..d }, bonus), bonus)
    }
}

/// Active study time: `seconds` more today; nothing for none.
pub open spec fn spec_activity_step(d: KarmaDay, seconds: int) -> KarmaDay {
    if seconds <= 0 {
        d
    } else {
        KarmaDay { active_seconds: (d.active_seconds + seconds) as i64, ..d }
    }
}

pub fn activity_step(d: KarmaDay, seconds: i64) -> (r: KarmaDay)
    requires
        seconds > 0 ==> fits_i64(d.active_seconds + seconds),
    ensures
        r == spec_activity_step(d, seconds as int),
{
    if seconds <= 0 {
        return d;
    }
    KarmaDay {
        active_seconds: d.active_seconds + seconds,
        review_count: d.review_count,
        add_count: d.add_count,
        qualified: d.qualified,
        earned_cents: d.earned_cents,
        balance_cents: d.balance_cents,
        last_streak_bonus_at: d.last_streak_bonus_at,
    }
}

pub fn review_step(d: KarmaDay, elapsed_ms: i64) -> (r: (KarmaDay, i64))
    requires
        fits_i64(d.active_seconds + spec_review_active_seconds(elapsed_ms as int)),
        fits_i64(d.review_count + 1),
        can_earn(d, REVIEW_CENTS_FULL as int),
    ensures
        r.0 == spec_review_step(d, elapsed_ms as int).0,
        r.1 == spec_review_step(d, elapsed_ms as int).1,
{
    let earn = review_earn_cents(d.review_count);
    let day = KarmaDay {
        active_seconds: d.active_seconds + review_active_seconds(elapsed_ms),
        review_count: d.review_count + 1,
        add_count: d.add_count,
        qualified: d.qualified,
        earned_cents: d.earned_cents + earn,
        balance_cents: d.balance_cents + earn,
        last_streak_bonus_at: d.last_streak_bonus_at,
    };
    (day, earn)
}

pub fn refund_step(d: KarmaDay) -> (r: (KarmaDay, i64))
    ensures
        r.0 == spec_refund_step(d).0,
        r.1 == spec_refund_step(d).1,
{
    match review_refund(d.review_count) {
        None => (d, 0),
        Some(refund) => {
            let day = KarmaDay {
                active_seconds: d.active_seconds,
                review_count: floor_sub(d.review_count, 1),
                add_count: d.add_count,
                qualified: d.qualified,
                earned_cents: if d.earned_cents < refund { 0 } else { floor_sub(d.earned_cents, refund) },
                balance_cents: if d.balance_cents < refund { 0 } else { floor_sub(d.balance_cents, refund) },
                last_streak_bonus_at: d.last_streak_bonus_at,
            };
            (day, -refund)
        },
    }
}

pub fn add_step(d: KarmaDay, card_count: i64) -> (r: (KarmaDay, i64))
    requires
        card_count > 0 ==> fits_i64(d.add_count + card_count),
        card_count > 0 ==> fits_i64(ADD_CENTS_PER_CARD * card_count),
        card_count > 0 ==> can_earn(d, spec_add_earn_cents(card_count as int)),
    ensures
        r.0 == spec_add_step(d, card_count as int).0,
        r.1 == spec_add_step(d, card_count as int).1,
{
    if card_count <= 0 {
        return (d, 0);
    }
    let earn = add_earn_cents(card_count);
    let day = KarmaDay {
        active_seconds: d.active_seconds,
        review_count: d.review_count,
        add_count: d.add_count + card_count,
        qualified: d.qualified,
        earned_cents: d.earned_cents + earn,
        balance_cents: d.balance_cents + earn,
        last_streak_bonus_at: d.last_streak_bonus_at,
    };
    (day, earn)
}

/// The daily bonus step, and whether the day counts as qualified after it.
pub fn qualify_step(d: KarmaDay) -> (r: (KarmaDay, i64, bool))
    requires
        fits_i64(spec_effective_actions(d.review_count as int, d.add_count as int)),
        fits_i64(d.add_count * 2),
        can_earn(d, DAILY_QUALIFY_BONUS_CENTS as int),
    ensures
        r.0 == spec_qualify_step(d).0,
        r.1 == spec_qualify_step(d).1,
        r.2 == spec_qualified_now(d.active_seconds as int, d.review_count as int, d.add_count as int, d.qualified as int, r.1 as int),
{
    let bonus = daily_qualify_bonus(d.qualified, d.active_seconds, d.review_count, d.add_count);
    let now = is_qualified(d.active_seconds, d.review_count, d.add_count) || d.qualified != 0 || bonus > 0;
    if bonus == 0 {
        return (d, 0, now);
    }
    let day = KarmaDay {
        active_seconds: d.active_seconds,
        review_count: d.review_count,
        add_count: d.add_count,
        qualified: 1,
        earned_cents: d.earned_cents + bonus,
        balance_cents: d.balance_cents + bonus,
        last_streak_bonus_at: d.last_streak_bonus_at,
    };
    (day, bonus, now)
}

pub fn streak_step(d: KarmaDay, streak: i64) -> (r: (KarmaDay, i64))
    requires
        can_earn(d, STREAK_MILESTONE_BONUS_CENTS as int),
    ensures
        r.0 == spec_streak_step(d, streak as int).0,
        r.1 == spec_streak_step(d, streak as int).1,
{
    let bonus = streak_bonus(streak, d.last_streak_bonus_at);
    if bonus == 0 {
        return (d, 0);
    }
    let day = KarmaDay {
        active_seconds: d.active_seconds,
        review_count: d.review_count,
        add_count: d.add_count,
        qualified: d.qualified,
        earned_cents: d.earned_cents + bonus,
        balance_cents: d.balance_cents + bonus,
        last_streak_bonus_at: streak,
    };
    (day, bonus)
}

/// Undoing a review right after it, when settling the review paid no
/// bonus, gives back the day's review count, earnings and balance as they
/// were before the review; the time the review added stays, and the undo
/// takes back exactly what the review earned.
pub proof fn law_refund_restores_day(d: KarmaDay, elapsed_ms: int, streak: int)
    requires
        d.review_count >= 0,
        d.earned_cents >= 0,
        d.balance_cents >= 0,
        fits_i64(d.active_seconds + spec_review_active_seconds(elapsed_ms)),
        fits_i64(d.review_count + 1),
        can_earn(d, REVIEW_CENTS_FULL as int),
        spec_qualify_step(spec_review_step(d, elapsed_ms).0).1 == 0,
        spec_streak_step(spec_review_step(d, elapsed_ms).0, streak).1 == 0,
    ensures
        ({
            let (reviewed, earned) = spec_review_step(d, elapsed_ms);
            let settled = spec_streak_step(spec_qualify_step(reviewed).0, streak).0;
            let (undone, taken) = spec_refund_step(settled);
            &&& undone.review_count == d.review_count
            &&& undone.earned_cents == d.earned_cents
            &&& undone.balance_cents == d.balance_cents
            &&& undone.active_seconds == reviewed.active_seconds
            &&& undone.add_count == d.add_count
            &&& taken == -earned
        }),
{
}

// ---------------------------------------------------------------------------
// Streak of qualified days
// ---------------------------------------------------------------------------

/// The `qualified` value stored for `day` (the first entry for it).
pub open spec fn day_flag(days: Seq<(Seq<char>, i64)>, day: Seq<char>) -> Option<i64>
    decreases days.len(),
{
    if days.len() == 0 {
        None
    } else if days[0].0 == day {
        Some(days[0].1)
    } else {
        day_flag(days.drop_first(), day)
    }
}

/// Consecutive qualified days counted back from `day`: each day must be
/// stored with `qualified` = 1; at most `fuel` days are counted.
pub open spec fn spec_qualified_streak(days: Seq<(Seq<char>, i64)>, day: Seq<char>, fuel: nat) -> nat
    decreases fuel,
{
    if fuel == 0 {
        0
    } else if day_flag(days, day) == Some(1i64) {
        1 + match spec_previous_day(day) {
            Some(p) => spec_qualified_streak(days, p, (fuel - 1) as nat),
            None => 0,
        }
    } else {
        0
    }
}

pub open spec fn daily_rows_view(days: Seq<(String, i64)>) -> Seq<(Seq<char>, i64)> {
    days.map_values(|d: (String, i64)| (d.0@, d.1))
}

fn lookup_day(days: &Vec<(String, i64)>, day: &String) -> (r: Option<i64>)
    ensures
        r == day_flag(daily_rows_view(days@), day@),
{
    let mut k: usize = 0;
    assert(daily_rows_view(days@).skip(0) =~= daily_rows_view(days@));
    while k < days.len()
        invariant
            k <= days.len(),
            day_flag(daily_rows_view(days@), day@) == day_flag(daily_rows_view(days@).skip(k as int), day@),
        decreases days.len() - k,
    {
        let ghost v = daily_rows_view(days@);
        assert(v.skip(k as int).drop_first() =~= v.skip(k + 1));
        assert(v.skip(k as int)[0] == (days@[k as int].0@, days@[k as int].1));
        if days[k].0 == *day {
            return Some(days[k].1);
        }
        k += 1;
    }
    None
}

/// The karma streak for a profile: qualified days counted back from
/// `today` through the stored daily rows `(day, qualified)`.
pub fn qualified_streak(today: &String, days: &Vec<(String, i64)>) -> (n: i64)
    requires
        days.len() < i64::MAX,
    ensures
        n == spec_qualified_streak(daily_rows_view(days@), today@, days.len() as nat),
{
    let mut streak: i64 = 0;
    let mut expected = today.clone();
    let mut fuel: usize = days.len();
    let ghost total = spec_qualified_streak(daily_rows_view(days@), today@, days.len() as nat);
    loop
        invariant
            fuel <= days.len() < i64::MAX,
            streak + fuel <= days.len(),
            total == streak + spec_qualified_streak(daily_rows_view(days@), expected@, fuel as nat),
            total == spec_qualified_streak(daily_rows_view(days@), today@, days.len() as nat),
        decreases fuel,
    {
        let ghost rows = daily_rows_view(days@);
        if fuel == 0 {
            assert(spec_qualified_streak(rows, expected@, 0) == 0);
            return streak;
        }
        assert(spec_qualified_streak(rows, expected@, fuel as nat) == if day_flag(rows, expected@)
            == Some(1i64) {
            1 + match spec_previous_day(expected@) {
                Some(p) => spec_qualified_streak(rows, p, (fuel - 1) as nat),
                None => 0,
            }
        } else {
            0
        });
        match lookup_day(days, &expected) {
            Some(1) => {
                streak += 1;
                match previous_day(expected.as_str()) {
                    Some(p) => {
                        expected = p;
                        fuel -= 1;
                    },
                    None => {
                        return streak;
                    },
                }
            },
            _ => {
                return streak;
            },
        }
    }
}

/// The overview a profile sees: nothing for the admin; otherwise today's
/// row, the streak and the recent qualified days.
pub fn karma_overview(
    active: &ActiveProfile,
    active_seconds: i64,
    review_count: i64,
    add_count: i64,
    qualified: i64,
    balance_cents: i64,
    streak: i64,
    daily_qualified: Vec<DailyQualified>,
) -> (o: KarmaOverview)
    requires
        fits_i64(spec_effective_actions(review_count as int, add_count as int)),
        fits_i64(add_count * 2),
    ensures
        o.profile_id@ == active.id@,
        o.is_admin == active.is_admin,
        active.is_admin ==> o.balance_cents == 0 && o.streak_days == 0 && !o.qualified_today
            && o.today_active_seconds == 0 && o.today_effective_actions == 0
            && o.daily_qualified@.len() == 0,
        !active.is_admin ==> o.balance_cents == balance_cents && o.streak_days == streak
            && o.qualified_today == (qualified != 0 || spec_is_qualified(active_seconds as int, review_count as int, add_count as int))
            && o.today_active_seconds == active_seconds
            && o.today_effective_actions == spec_effective_actions(review_count as int, add_count as int)
            && o.daily_qualified@ == daily_qualified@,
{
    if active.is_admin {
        return KarmaOverview {
            balance_cents: 0,
            streak_days: 0,
            qualified_today: false,
            today_active_seconds: 0,
            today_effective_actions: 0,
            daily_qualified: Vec::new(),
            profile_id: active.id.clone(),
            is_admin: true,
        };
    }
    KarmaOverview {
        balance_cents,
        streak_days: streak,
        qualified_today: qualified != 0 || is_qualified(active_seconds, review_count, add_count),
        today_active_seconds: active_seconds,
        today_effective_actions: effective_actions(review_count, add_count),
        daily_qualified,
        profile_id: active.id.clone(),
        is_admin: false,
    }
}

// ---------------------------------------------------------------------------
// Laws
// ---------------------------------------------------------------------------

/// Undoing a review takes back exactly what that review earned.
pub proof fn law_refund_undoes_review(review_count_before: int)
    requires
        review_count_before >= 0,
    ensures
        spec_review_refund(review_count_before + 1) == Some(spec_review_earn_cents(review_count_before)),
{
}

/// Review earnings never rise as the day's reviews grow, and are always
/// one of the three tiers.
pub proof fn law_review_earn_diminishes(a: int, b: int)
    requires
        a <= b,
    ensures
        spec_review_earn_cents(b) <= spec_review_earn_cents(a),
        spec_review_earn_cents(a) == 10 || spec_review_earn_cents(a) == 5 || spec_review_earn_cents(a) == 2,
{
}

/// More activity never makes a qualified day unqualified.
pub proof fn law_qualified_monotone(s1: int, r1: int, a1: int, s2: int, r2: int, a2: int)
    requires
        s1 <= s2,
        r1 <= r2,
        a1 <= a2,
        spec_is_qualified(s1, r1, a1),
    ensures
        spec_is_qualified(s2, r2, a2),
{
}

/// The daily bonus is paid at most once a day: once the day is marked
/// qualified, no further bonus.
pub proof fn law_daily_bonus_once(active_seconds: int, review_count: int, add_count: int)
    ensures
        spec_daily_qualify_bonus(1, active_seconds, review_count, add_count) == 0,
        spec_daily_qualify_bonus(0, active_seconds, review_count, add_count)
            == (if spec_is_qualified(active_seconds, review_count, add_count) { 50int } else { 0int }),
{
}

/// A streak milestone is paid once: after paying at `streak` (which records
/// `streak` as the last milestone), the same streak pays nothing.
pub proof fn law_streak_bonus_once(streak: int)
    ensures
        spec_streak_bonus(streak, streak) == 0,
        streak > 0 && streak % 7 == 0 ==> spec_streak_bonus(streak, 0) == 500,
{
}

} // verus!
