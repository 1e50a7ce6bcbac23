//! Study profiles: who is studying in a window, and whether that is the admin.
use vstd::prelude::*;
use crate::text::{chars_of, owned, string_of, trim, trim_vec};

verus! {

pub const ADMIN_PROFILE_ID: &'static str = "profile_admin";

#[derive(Debug, Clone)]
pub struct Profile {
    pub id: String,
    pub display_name: String,
    pub is_admin: bool,
    pub created_at: i64,
}

#[derive(Debug, Clone)]
pub struct ActiveProfile {
    pub id: String,
    pub is_admin: bool,
}

/// A copy of an active profile with the same id and admin flag.
pub fn copy_profile(p: &ActiveProfile) -> (r: ActiveProfile)
    ensures
        r.id@ == p.id@,
        r.is_admin == p.is_admin,
{
    ActiveProfile { id: p.id.clone(), is_admin: p.is_admin }
}

/// The name a new profile gets: the display name trimmed, which must not
/// be empty.
pub open spec fn spec_profile_name(display_name: Seq<char>) -> Result<Seq<char>, Seq<char>> {
    if trim(display_name).len() == 0 {
        Err("Profile name cannot be empty"@)
    } else {
        Ok(trim(display_name))
    }
}

pub fn profile_name(display_name: &str) -> (r: Result<String, String>)
    ensures
        match (r, spec_profile_name(display_name@)) {
            (Ok(n), Ok(m)) => n@ == m,
            (Err(e), Err(m)) => e@ == m,
            _ => false,
        },
{
    let v = chars_of(display_name);
    let t = trim_vec(&v);
    if t.len() == 0 {
        Err(owned("Profile name cannot be empty"))
    } else {
        Ok(string_of(&t))
    }
}

/// A profile made by hand: never the admin.
pub fn new_profile(id: &str, name: &str, now: i64) -> (p: Profile)
    ensures
        p.id@ == id@,
        p.display_name@ == name@,
        !p.is_admin,
        p.created_at == now,
{
    Profile { id: owned(id), display_name: owned(name), is_admin: false, created_at: now }
}

/// Whether a profile may be deleted, given how many profiles there are and
/// whether it is one of them: never the admin, never the last one.
pub open spec fn spec_check_deletion(profile_id: Seq<char>, total: int, exists: bool) -> Result<(), Seq<char>> {
    if profile_id == ADMIN_PROFILE_ID@ {
        Err("Cannot delete the Admin profile"@)
    } else if total <= 1 {
        Err("Cannot delete the last profile"@)
    } else if !exists {
        Err("Profile not found"@)
    } else {
        Ok(())
    }
}

pub fn check_deletion(profile_id: &str, total: i64, exists: bool) -> (r: Result<(), String>)
    ensures
        match (r, spec_check_deletion(profile_id@, total as int, exists)) {
            (Ok(()), Ok(())) => true,
            (Err(e), Err(m)) => e@ == m,
            _ => false,
        },
{
    if crate::text::same_text(profile_id, ADMIN_PROFILE_ID) {
        Err(owned("Cannot delete the Admin profile"))
    } else if total <= 1 {
        Err(owned("Cannot delete the last profile"))
    } else if !exists {
        Err(owned("Profile not found"))
    } else {
        Ok(())
    }
}

} // verus!
