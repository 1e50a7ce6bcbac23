use samsmrti::profiles::{check_deletion, copy_profile, new_profile, profile_name, ActiveProfile, ADMIN_PROFILE_ID};
use samsmrti::window_profiles::{window_titles, WindowProfiles};

fn profile(id: &str, admin: bool) -> ActiveProfile {
    ActiveProfile { id: id.to_string(), is_admin: admin }
}

#[test]
fn profile_names_are_trimmed_and_required() {
    assert_eq!(profile_name("  Ada  "), Ok("Ada".to_string()));
    assert_eq!(profile_name("   "), Err("Profile name cannot be empty".to_string()));
    let p = new_profile("profile_1", "Ada", 42);
    assert_eq!(p.id, "profile_1");
    assert_eq!(p.display_name, "Ada");
    assert!(!p.is_admin);
    assert_eq!(p.created_at, 42);
}

#[test]
fn deletion_rules_in_order() {
    assert_eq!(check_deletion(ADMIN_PROFILE_ID, 5, true), Err("Cannot delete the Admin profile".to_string()));
    assert_eq!(check_deletion("profile_x", 1, true), Err("Cannot delete the last profile".to_string()));
    assert_eq!(check_deletion("profile_x", 3, false), Err("Profile not found".to_string()));
    assert_eq!(check_deletion("profile_x", 3, true), Ok(()));
}

#[test]
fn each_window_keeps_its_own_profile() {
    let mut w = WindowProfiles::new();
    w.register("main", profile("a", false));
    w.register("second", profile("b", false));
    w.set_for_label("second", profile("c", true));
    assert_eq!(w.for_label("main").unwrap().id, "a");
    let s = w.for_label("second").unwrap();
    assert_eq!(s.id, "c");
    assert!(s.is_admin);
    w.unregister("second");
    assert_eq!(w.for_label("second").unwrap_err(), "No profile session for window \"second\"");
    assert_eq!(w.for_label("main").unwrap().id, "a");
}

#[test]
fn replacing_a_deleted_profile_everywhere() {
    let mut w = WindowProfiles::new();
    w.register("one", profile("gone", false));
    w.register("two", profile("stays", false));
    w.replace_profile_id("gone", profile("fallback", false));
    assert_eq!(w.for_label("one").unwrap().id, "fallback");
    assert_eq!(w.for_label("two").unwrap().id, "stays");
    w.set_all(profile("all", true));
    assert_eq!(w.for_label("one").unwrap().id, "all");
    assert_eq!(w.for_label("two").unwrap().id, "all");
    let c = copy_profile(&profile("x", true));
    assert_eq!(c.id, "x");
}

#[test]
fn duplicate_names_get_numbered_titles() {
    let entries = vec![
        ("a".to_string(), "Ada".to_string()),
        ("b".to_string(), "Bo".to_string()),
        ("c".to_string(), "Ada".to_string()),
        ("d".to_string(), "Ada".to_string()),
    ];
    assert_eq!(
        window_titles(&entries),
        vec![
            ("a".to_string(), "Ada".to_string()),
            ("b".to_string(), "Bo".to_string()),
            ("c".to_string(), "Ada (2)".to_string()),
            ("d".to_string(), "Ada (3)".to_string()),
        ]
    );
}
