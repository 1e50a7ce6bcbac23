//! Which profile each app window is studying as, and the window titles
//! made from the profiles' names.
use vstd::prelude::*;
use crate::profiles::{copy_profile, ActiveProfile};
use crate::text::{chars_of, decimal, push_all, push_decimal, push_str, same_text, string_of};

verus! {

/// A profile as the contracts see it: its id and whether it is the admin.
pub open spec fn profile_view(p: ActiveProfile) -> (Seq<char>, bool) {
    (p.id@, p.is_admin)
}

pub type EntryView = (Seq<char>, (Seq<char>, bool));

pub open spec fn entry_view(e: (String, ActiveProfile)) -> EntryView {
    (e.0@, profile_view(e.1))
}

pub open spec fn entries_view(e: Seq<(String, ActiveProfile)>) -> Seq<EntryView> {
    e.map_values(|x: (String, ActiveProfile)| entry_view(x))
}

/// The window label to profile map that a list of entries stands for; a
/// later entry for a label overrides an earlier one.
pub open spec fn entries_map(e: Seq<EntryView>) -> Map<Seq<char>, (Seq<char>, bool)>
    decreases e.len(),
{
    if e.len() == 0 {
        Map::empty()
    } else {
        entries_map(e.drop_last()).insert(e.last().0, e.last().1)
    }
}

/// The entries whose label is not `label`, in order.
pub open spec fn without_label(e: Seq<EntryView>, label: Seq<char>) -> Seq<EntryView>
    decreases e.len(),
{
    if e.len() == 0 {
        e
    } else if e.last().0 == label {
        without_label(e.drop_last(), label)
    } else {
        without_label(e.drop_last(), label).push(e.last())
    }
}

/// The entries with every profile replaced by what `f` makes of it.
pub open spec fn map_profiles(e: Seq<EntryView>, f: spec_fn((Seq<char>, bool)) -> (Seq<char>, bool)) -> Seq<EntryView> {
    e.map_values(|x: EntryView| (x.0, f(x.1)))
}

/// The profile session of each open window, by window label.
pub struct WindowProfiles {
    entries: Vec<(String, ActiveProfile)>,
}

impl View for WindowProfiles {
    type V = Map<Seq<char>, (Seq<char>, bool)>;

    closed spec fn view(&self) -> Map<Seq<char>, (Seq<char>, bool)> {
        entries_map(entries_view(self.entries@))
    }
}

pub open spec fn no_session_message(label: Seq<char>) -> Seq<char> {
    "No profile session for window \""@ + label + "\""@
}

proof fn lemma_without_label(e: Seq<EntryView>, label: Seq<char>)
    ensures
        entries_map(without_label(e, label)) == entries_map(e).remove(label),
    decreases e.len(),
{
    if e.len() == 0 {
        assert(entries_map(without_label(e, label)) =~= entries_map(e).remove(label));
    } else {
        let init = e.drop_last();
        lemma_without_label(init, label);
        let k = without_label(e, label);
        if e.last().0 == label {
            assert(entries_map(k) =~= entries_map(e).remove(label));
        } else {
            assert(k.drop_last() =~= without_label(init, label));
            assert(entries_map(k) =~= entries_map(e).remove(label));
        }
    }
}

proof fn lemma_map_profiles(e: Seq<EntryView>, f: spec_fn((Seq<char>, bool)) -> (Seq<char>, bool))
    ensures
        entries_map(map_profiles(e, f)).dom() == entries_map(e).dom(),
        forall|l: Seq<char>| #[trigger] entries_map(e).dom().contains(l) ==> entries_map(map_profiles(e, f))[l] == f(entries_map(e)[l]),
    decreases e.len(),
{
    if e.len() > 0 {
        let init = e.drop_last();
        lemma_map_profiles(init, f);
        assert(map_profiles(e, f).drop_last() =~= map_profiles(init, f));
        assert(entries_map(map_profiles(e, f)).dom() =~= entries_map(e).dom());
    } else {
        assert(entries_map(map_profiles(e, f)).dom() =~= entries_map(e).dom());
    }
}

/// The profile for `label` is the one in its last entry.
proof fn lemma_last_entry(e: Seq<EntryView>, k: int, label: Seq<char>)
    requires
        0 <= k <= e.len(),
        forall|j: int| k <= j < e.len() ==> #[trigger] e[j].0 != label,
    ensures
        entries_map(e).dom().contains(label) == entries_map(e.take(k)).dom().contains(label),
        entries_map(e).dom().contains(label) ==> entries_map(e)[label] == entries_map(e.take(k))[label],
    decreases e.len() - k,
{
    if k < e.len() {
        lemma_last_entry(e, k + 1, label);
        assert(e.take(k + 1).drop_last() =~= e.take(k));
    } else {
        assert(e.take(k) =~= e);
    }
}

impl WindowProfiles {
    pub fn new() -> (w: WindowProfiles)
        ensures
            w@ == Map::<Seq<char>, (Seq<char>, bool)>::empty(),
    {
        WindowProfiles { entries: Vec::new() }
    }

    /// Drops the session of `label`.
    pub fn unregister(&mut self, label: &str)
        ensures
            final(self)@ == old(self)@.remove(label@),
    {
        let mut kept: Vec<(String, ActiveProfile)> = Vec::new();
        let mut old_entries: Vec<(String, ActiveProfile)> = Vec::new();
        std::mem::swap(&mut old_entries, &mut self.entries);
        let mut i: usize = 0;
        while i < old_entries.len()
            invariant
                i <= old_entries.len(),
                entries_view(kept@) == without_label(entries_view(old_entries@).take(i as int), label@),
            decreases old_entries.len() - i,
        {
            let e = &old_entries[i];
            proof {
                let ov = entries_view(old_entries@);
                assert(ov.take(i + 1).drop_last() =~= ov.take(i as int));
                assert(ov.take(i + 1).last() == entry_view(old_entries@[i as int]));
            }
            if !same_text(e.0.as_str(), label) {
                let ghost before = entries_view(kept@);
                kept.push((e.0.clone(), copy_profile(&e.1)));
                assert(entries_view(kept@) =~= before.push(entry_view(old_entries@[i as int])));
            }
            i += 1;
        }
        proof {
            assert(entries_view(old_entries@).take(old_entries.len() as int) =~= entries_view(old_entries@));
            lemma_without_label(entries_view(old_entries@), label@);
        }
        self.entries = kept;
    }

    /// Sets the session of `label` to `profile`.
    pub fn register(&mut self, label: &str, profile: ActiveProfile)
        ensures
            final(self)@ == old(self)@.insert(label@, profile_view(profile)),
    {
        self.unregister(label);
        let ghost before = entries_view(self.entries@);
        self.entries.push((label.to_owned(), profile));
        assert(entries_view(self.entries@).drop_last() =~= before);
        assert(self@ =~= old(self)@.insert(label@, profile_view(profile)));
    }

    /// Sets the session of `label` to `profile` (the same as `register`).
    pub fn set_for_label(&mut self, label: &str, profile: ActiveProfile)
        ensures
            final(self)@ == old(self)@.insert(label@, profile_view(profile)),
    {
        self.register(label, profile);
    }

    /// The session of `label`.
    pub fn for_label(&self, label: &str) -> (r: Result<ActiveProfile, String>)
        ensures
            match r {
                Ok(p) => self@.dom().contains(label@) && self@[label@] == profile_view(p),
                Err(e) => !self@.dom().contains(label@) && e@ == no_session_message(label@),
            },
    {
        let ghost ev = entries_view(self.entries@);
        let mut k: usize = self.entries.len();
        while k > 0
            invariant
                k <= self.entries.len(),
                ev == entries_view(self.entries@),
                forall|j: int| k <= j < ev.len() ==> #[trigger] ev[j].0 != label@,
            decreases k,
        {
            let e = &self.entries[k - 1];
            if same_text(e.0.as_str(), label) {
                proof {
                    lemma_last_entry(ev, k as int, label@);
                    assert(ev.take(k as int).drop_last() =~= ev.take(k - 1));
                    assert(ev.take(k as int).last() == entry_view(self.entries@[k - 1]));
                }
                return Ok(copy_profile(&e.1));
            }
            k -= 1;
        }
        proof {
            lemma_last_entry(ev, 0, label@);
            assert(ev.take(0) =~= Seq::<EntryView>::empty());
        }
        let mut msg = chars_of("No profile session for window \"");
        push_str(&mut msg, label);
        push_str(&mut msg, "\"");
        Err(string_of(&msg))
    }

    /// Every window's session set to `profile`.
    pub fn set_all(&mut self, profile: ActiveProfile)
        ensures
            final(self)@.dom() == old(self)@.dom(),
            forall|l: Seq<char>| #[trigger] final(self)@.dom().contains(l) ==> final(self)@[l] == profile_view(profile),
    {
        let ghost f = |p: (Seq<char>, bool)| profile_view(profile);
        let mut old_entries: Vec<(String, ActiveProfile)> = Vec::new();
        std::mem::swap(&mut old_entries, &mut self.entries);
        let mut out: Vec<(String, ActiveProfile)> = Vec::new();
        let mut i: usize = 0;
        while i < old_entries.len()
            invariant
                i <= old_entries.len(),
                out.len() == i,
                forall|p: (Seq<char>, bool)| #[trigger] f(p) == profile_view(profile),
                entries_view(out@) == map_profiles(entries_view(old_entries@).take(i as int), f),
            decreases old_entries.len() - i,
        {
            let ghost before = entries_view(out@);
            out.push((old_entries[i].0.clone(), copy_profile(&profile)));
            proof {
                let ov = entries_view(old_entries@);
                assert(ov.take(i + 1) =~= ov.take(i as int).push(ov[i as int]));
                assert(ov[i as int] == entry_view(old_entries@[i as int]));
                assert(out@.len() == i + 1);
                assert(ov[i as int] == entry_view(old_entries@[i as int]));
                assert(out@[i as int].0@ == old_entries@[i as int].0@);
                assert(profile_view(out@[i as int].1) == f(ov[i as int].1));
                assert(entry_view(out@[i as int]) == (ov[i as int].0, f(ov[i as int].1)));
                assert(entries_view(out@) =~= before.push((ov[i as int].0, f(ov[i as int].1))));
                assert(map_profiles(ov.take(i + 1), f) =~= map_profiles(ov.take(i as int), f).push((ov[i as int].0, f(ov[i as int].1))));
                assert(entries_view(out@) =~= map_profiles(ov.take(i + 1), f));
            }
            i += 1;
        }
        proof {
            assert(entries_view(old_entries@).take(old_entries.len() as int) =~= entries_view(old_entries@));
            lemma_map_profiles(entries_view(old_entries@), f);
        }
        self.entries = out;
    }

    /// Every window studying as profile `old_id` switched to `new_profile`.
    pub fn replace_profile_id(&mut self, old_id: &str, new_profile: ActiveProfile)
        ensures
            final(self)@.dom() == old(self)@.dom(),
            forall|l: Seq<char>| #[trigger] final(self)@.dom().contains(l) ==> final(self)@[l] == (
                if old(self)@[l].0 == old_id@ {
                    profile_view(new_profile)
                } else {
                    old(self)@[l]
                }),
    {
        let ghost f = |p: (Seq<char>, bool)| if p.0 == old_id@ {
            profile_view(new_profile)
        } else {
            p
        };
        let mut old_entries: Vec<(String, ActiveProfile)> = Vec::new();
        std::mem::swap(&mut old_entries, &mut self.entries);
        let mut out: Vec<(String, ActiveProfile)> = Vec::new();
        let mut i: usize = 0;
        while i < old_entries.len()
            invariant
                i <= old_entries.len(),
                out.len() == i,
                forall|p: (Seq<char>, bool)| #[trigger] f(p) == (if p.0 == old_id@ {
                    profile_view(new_profile)
                } else {
                    p
                }),
                entries_view(out@) == map_profiles(entries_view(old_entries@).take(i as int), f),
            decreases old_entries.len() - i,
        {
            let ghost before = entries_view(out@);
            let e = &old_entries[i];
            if same_text(e.1.id.as_str(), old_id) {
                out.push((e.0.clone(), copy_profile(&new_profile)));
            } else {
                out.push((e.0.clone(), copy_profile(&e.1)));
            }
            proof {
                let ov = entries_view(old_entries@);
                assert(ov.take(i + 1) =~= ov.take(i as int).push(ov[i as int]));
                assert(ov[i as int] == entry_view(old_entries@[i as int]));
                assert(out@.len() == i + 1);
                assert(ov[i as int] == entry_view(old_entries@[i as int]));
                assert(out@[i as int].0@ == old_entries@[i as int].0@);
                assert(profile_view(out@[i as int].1) == f(ov[i as int].1));
                assert(entry_view(out@[i as int]) == (ov[i as int].0, f(ov[i as int].1)));
                assert(entries_view(out@) =~= before.push((ov[i as int].0, f(ov[i as int].1))));
                assert(map_profiles(ov.take(i + 1), f) =~= map_profiles(ov.take(i as int), f).push((ov[i as int].0, f(ov[i as int].1))));
                assert(entries_view(out@) =~= map_profiles(ov.take(i + 1), f));
            }
            i += 1;
        }
        proof {
            assert(entries_view(old_entries@).take(old_entries.len() as int) =~= entries_view(old_entries@));
            lemma_map_profiles(entries_view(old_entries@), f);
        }
        self.entries = out;
    }
}


// ---------------------------------------------------------------------------
// Window titles
// ---------------------------------------------------------------------------

/// How many entries carry `name`.
pub open spec fn name_count(e: Seq<(Seq<char>, Seq<char>)>, name: Seq<char>) -> nat
    decreases e.len(),
{
    if e.len() == 0 {
        0
    } else {
        name_count(e.drop_last(), name) + if e.last().1 == name {
            1nat
        } else {
            0nat
        }
    }
}

/// The title of window `i`: its profile's name, and when several windows
/// share that name, ` (k)` after it for the k-th of them from the second on.
pub open spec fn title_at(e: Seq<(Seq<char>, Seq<char>)>, i: int) -> Seq<char> {
    let name = e[i].1;
    if name_count(e, name) <= 1 {
        name
    } else {
        let k = name_count(e.take(i + 1), name);
        if k == 1 {
            name
        } else {
            name + " ("@ + decimal(k) + ")"@
        }
    }
}

pub open spec fn spec_window_titles(e: Seq<(Seq<char>, Seq<char>)>) -> Seq<(Seq<char>, Seq<char>)> {
    Seq::new(e.len(), |i: int| (e[i].0, title_at(e, i)))
}

pub open spec fn pairs_view(v: Seq<(String, String)>) -> Seq<(Seq<char>, Seq<char>)> {
    v.map_values(|x: (String, String)| (x.0@, x.1@))
}

fn count_name_upto(e: &Vec<(String, String)>, name: &String, upto: usize) -> (n: usize)
    requires
        upto <= e.len(),
    ensures
        n == name_count(pairs_view(e@).take(upto as int), name@),
        n <= upto,
{
    let mut n: usize = 0;
    let mut j: usize = 0;
    while j < upto
        invariant
            j <= upto <= e.len(),
            n <= j,
            n == name_count(pairs_view(e@).take(j as int), name@),
        decreases upto - j,
    {
        proof {
            let pv = pairs_view(e@);
            assert(pv.take(j + 1).drop_last() =~= pv.take(j as int));
            assert(pv.take(j + 1).last() == (e@[j as int].0@, e@[j as int].1@));
        }
        if e[j].1 == *name {
            n += 1;
        }
        j += 1;
    }
    n
}

/// Titles for the windows `(label, profile name)`, in the order given
/// (the app gives them sorted by label).
pub fn window_titles(entries: &Vec<(String, String)>) -> (r: Vec<(String, String)>)
    ensures
        pairs_view(r@) == spec_window_titles(pairs_view(entries@)),
{
    let ghost ev = pairs_view(entries@);
    let mut out: Vec<(String, String)> = Vec::new();
    let mut i: usize = 0;
    while i < entries.len()
        invariant
            i <= entries.len(),
            ev == pairs_view(entries@),
            pairs_view(out@) == spec_window_titles(ev).take(i as int),
        decreases entries.len() - i,
    {
        let label = &entries[i].0;
        let name = &entries[i].1;
        let total = count_name_upto(entries, name, entries.len());
        assert(ev.take(entries.len() as int) =~= ev);
        let title: String = if total <= 1 {
            name.clone()
        } else {
            let k = count_name_upto(entries, name, i + 1);
            if k == 1 {
                name.clone()
            } else {
                let mut t = chars_of(name.as_str());
                push_str(&mut t, " (");
                push_decimal(&mut t, k);
                push_str(&mut t, ")");
                string_of(&t)
            }
        };
        let ghost before = pairs_view(out@);
        out.push((label.clone(), title));
        proof {
            assert(ev[i as int] == (entries@[i as int].0@, entries@[i as int].1@));
            assert(pairs_view(out@) =~= before.push((ev[i as int].0, title_at(ev, i as int))));
            assert(spec_window_titles(ev).take(i + 1) =~= spec_window_titles(ev).take(i as int).push(
                (ev[i as int].0, title_at(ev, i as int)),
            ));
        }
        i += 1;
    }
    assert(spec_window_titles(ev).take(entries.len() as int) =~= spec_window_titles(ev));
    out
}

// ---------------------------------------------------------------------------
// Laws
// ---------------------------------------------------------------------------

/// After a window is registered with a profile, looking it up gives that
/// profile; other windows keep theirs.
pub proof fn law_register_then_lookup(
    sessions: Map<Seq<char>, (Seq<char>, bool)>,
    label: Seq<char>,
    other: Seq<char>,
    p: (Seq<char>, bool),
)
    requires
        other != label,
    ensures
        sessions.insert(label, p).dom().contains(label),
        sessions.insert(label, p)[label] == p,
        sessions.insert(label, p).dom().contains(other) == sessions.dom().contains(other),
        sessions.dom().contains(other) ==> sessions.insert(label, p)[other] == sessions[other],
{
}

/// After a window is unregistered, looking it up fails; other windows keep
/// their profiles.
pub proof fn law_unregister_then_lookup(
    sessions: Map<Seq<char>, (Seq<char>, bool)>,
    label: Seq<char>,
    other: Seq<char>,
)
    requires
        other != label,
    ensures
        !sessions.remove(label).dom().contains(label),
        sessions.remove(label).dom().contains(other) == sessions.dom().contains(other),
        sessions.dom().contains(other) ==> sessions.remove(label)[other] == sessions[other],
{
}

/// Windows whose profile names are all different are titled by the names.
pub proof fn law_distinct_names_are_titles(e: Seq<(Seq<char>, Seq<char>)>, i: int)
    requires
        0 <= i < e.len(),
        forall|a: int, b: int| 0 <= a < e.len() && 0 <= b < e.len() && a != b ==> e[a].1 != e[b].1,
    ensures
        spec_window_titles(e)[i] == (e[i].0, e[i].1),
{
    lemma_count_unique(e, e[i].1, i);
}

proof fn lemma_count_unique(e: Seq<(Seq<char>, Seq<char>)>, name: Seq<char>, i: int)
    requires
        0 <= i < e.len(),
        e[i].1 == name,
        forall|b: int| 0 <= b < e.len() && b != i ==> e[b].1 != name,
    ensures
        name_count(e, name) == 1,
    decreases e.len(),
{
    if e.len() - 1 == i {
        lemma_count_none(e.drop_last(), name);
    } else {
        let init = e.drop_last();
        lemma_count_unique(init, name, i);
    }
}

proof fn lemma_count_none(e: Seq<(Seq<char>, Seq<char>)>, name: Seq<char>)
    requires
        forall|b: int| 0 <= b < e.len() ==> e[b].1 != name,
    ensures
        name_count(e, name) == 0,
    decreases e.len(),
{
    if e.len() > 0 {
        lemma_count_none(e.drop_last(), name);
    }
}

} // verus!
