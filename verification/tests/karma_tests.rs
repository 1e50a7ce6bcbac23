use samsmrti::karma::{
    add_earn_cents, admin_no_earn, daily_qualify_bonus, earn_event, effective_actions, floor_sub, is_qualified,
    qualified_streak, review_active_seconds, review_earn_cents, review_refund, streak_bonus,
    DAILY_QUALIFY_BONUS_CENTS, STREAK_MILESTONE_BONUS_CENTS, add_step, qualify_step, refund_step, review_step,
    streak_step, activity_step, KarmaDay,
};
use samsmrti::profiles::ActiveProfile;

#[test]
fn diminishing_review_tiers() {
    assert_eq!(review_earn_cents(0), 10);
    assert_eq!(review_earn_cents(49), 10);
    assert_eq!(review_earn_cents(50), 5);
    assert_eq!(review_earn_cents(99), 5);
    assert_eq!(review_earn_cents(100), 2);
}

#[test]
fn qualification_or_threshold() {
    assert!(!is_qualified(599, 0, 0));
    assert!(is_qualified(600, 0, 0));
    assert!(is_qualified(0, 10, 3)); // 10 + 6 = 16 effective
    assert!(!is_qualified(0, 5, 2)); // 5 + 4 = 9
}

#[test]
fn admin_gets_an_all_zero_event() {
    let admin = ActiveProfile { id: "profile_admin".to_string(), is_admin: true };
    let ev = admin_no_earn(&admin).unwrap();
    assert_eq!(ev.earned_cents, 0);
    assert_eq!(ev.balance_cents, 0);
    assert_eq!(ev.streak_days, 0);
    assert!(!ev.qualified_today);
    let user = ActiveProfile { id: "user_a".to_string(), is_admin: false };
    assert!(admin_no_earn(&user).is_none());
}

#[test]
fn adding_cards_earns_twenty_cents_each() {
    assert_eq!(add_earn_cents(1), 20);
    assert_eq!(add_earn_cents(3), 60);
    assert_eq!(effective_actions(10, 3), 16);
}

#[test]
fn refund_gives_back_what_the_last_review_earned() {
    assert_eq!(review_refund(0), None);
    assert_eq!(review_refund(1), Some(10));
    assert_eq!(review_refund(51), Some(5));
    assert_eq!(review_refund(101), Some(2));
    for before in [0i64, 49, 50, 99, 100, 500] {
        assert_eq!(review_refund(before + 1), Some(review_earn_cents(before)));
    }
}

#[test]
fn active_seconds_per_review_are_capped() {
    assert_eq!(review_active_seconds(1000), 0);
    assert_eq!(review_active_seconds(4500), 2);
    assert_eq!(review_active_seconds(600_000), 300);
    assert_eq!(review_active_seconds(-5000), -2);
}

#[test]
fn balances_do_not_go_below_zero() {
    assert_eq!(floor_sub(10, 3), 7);
    assert_eq!(floor_sub(2, 10), 0);
}

#[test]
fn daily_bonus_only_once_and_only_when_qualified() {
    assert_eq!(daily_qualify_bonus(0, 600, 0, 0), DAILY_QUALIFY_BONUS_CENTS);
    assert_eq!(daily_qualify_bonus(1, 600, 0, 0), 0);
    assert_eq!(daily_qualify_bonus(0, 10, 1, 1), 0);
}

#[test]
fn streak_bonus_at_each_seventh_day_once() {
    assert_eq!(streak_bonus(7, 0), STREAK_MILESTONE_BONUS_CENTS);
    assert_eq!(streak_bonus(7, 7), 0);
    assert_eq!(streak_bonus(6, 0), 0);
    assert_eq!(streak_bonus(0, 0), 0);
    assert_eq!(streak_bonus(14, 7), STREAK_MILESTONE_BONUS_CENTS);
}

#[test]
fn earn_event_adds_the_bonuses() {
    let ev = earn_event(10, 50, 7, 500, 1234, true);
    assert_eq!(ev.earned_cents, 560);
    assert_eq!(ev.balance_cents, 1234);
    assert_eq!(ev.streak_days, 7);
    assert_eq!(ev.bonus_awarded_cents, 500);
    assert!(ev.qualified_today);
}

#[test]
fn qualified_streak_counts_back_through_calendar_days() {
    let days = vec![
        ("2024-03-01".to_string(), 1i64),
        ("2024-02-29".to_string(), 1),
        ("2024-02-28".to_string(), 1),
        ("2024-02-27".to_string(), 0),
        ("2024-02-26".to_string(), 1),
    ];
    assert_eq!(qualified_streak(&"2024-03-01".to_string(), &days), 3);
    assert_eq!(qualified_streak(&"2024-02-26".to_string(), &days), 1);
    assert_eq!(qualified_streak(&"2024-03-02".to_string(), &days), 0);
}

fn day(review_count: i64, earned_cents: i64, balance_cents: i64) -> KarmaDay {
    KarmaDay {
        active_seconds: 100,
        review_count,
        add_count: 0,
        qualified: 0,
        earned_cents,
        balance_cents,
        last_streak_bonus_at: 0,
    }
}

#[test]
fn undoing_a_review_restores_the_day() {
    let d = day(60, 300, 1234);
    let (reviewed, earned) = review_step(d, 10_000);
    assert_eq!(earned, 5);
    assert_eq!(reviewed.review_count, 61);
    assert_eq!(reviewed.active_seconds, 105);
    assert_eq!(reviewed.earned_cents, 305);
    assert_eq!(reviewed.balance_cents, 1239);
    let (undone, taken) = refund_step(reviewed);
    assert_eq!(taken, -5);
    assert_eq!(undone.review_count, 60);
    assert_eq!(undone.earned_cents, 300);
    assert_eq!(undone.balance_cents, 1234);
    assert_eq!(undone.active_seconds, 105);
}

#[test]
fn undo_without_reviews_changes_nothing_and_never_goes_below_zero() {
    let (same, taken) = refund_step(day(0, 40, 40));
    assert_eq!((same.review_count, same.earned_cents, same.balance_cents, taken), (0, 40, 40, 0));
    let (floored, taken) = refund_step(day(3, 4, 0));
    assert_eq!((floored.review_count, floored.earned_cents, floored.balance_cents, taken), (2, 0, 0, -10));
}

#[test]
fn add_step_counts_cards_and_earnings() {
    let (added, earn) = add_step(day(0, 0, 10), 3);
    assert_eq!(earn, 60);
    assert_eq!((added.add_count, added.earned_cents, added.balance_cents), (3, 60, 70));
    let (same, none) = add_step(day(0, 0, 10), 0);
    assert_eq!((same.add_count, same.balance_cents, none), (0, 10, 0));
}

#[test]
fn qualify_and_streak_steps_pay_once() {
    let mut d = day(15, 150, 150);
    d.active_seconds = 0;
    let (q, bonus, now) = qualify_step(d);
    assert_eq!(bonus, 50);
    assert!(now);
    assert_eq!((q.qualified, q.earned_cents, q.balance_cents), (1, 200, 200));
    let (again, second, still) = qualify_step(q);
    assert_eq!((second, again.balance_cents), (0, 200));
    assert!(still);
    let (s, sb) = streak_step(q, 7);
    assert_eq!((sb, s.last_streak_bonus_at, s.balance_cents, s.earned_cents), (500, 7, 700, 700));
    let (_, sb2) = streak_step(s, 7);
    assert_eq!(sb2, 0);
}

#[test]
fn activity_step_adds_only_positive_time() {
    let d = day(0, 0, 0);
    assert_eq!(activity_step(d, 30).active_seconds, 130);
    assert_eq!(activity_step(d, 0).active_seconds, 100);
    assert_eq!(activity_step(d, -5).active_seconds, 100);
}
