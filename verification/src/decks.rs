//! Decks: the records, a new deck's defaults, what an update changes, the
//! counts shown with each deck, and the order a deck tree is deleted in.
use vstd::prelude::*;
use crate::deck_tree::{counts_view, direct_view, parents_view, rollup, rollup_deck_counts, str_view, sums_fit};
use crate::text::owned;

verus! {

pub struct Deck {
    pub id: String,
    pub name: String,
    pub parent_id: Option<String>,
    pub description: String,
    pub new_per_day: i64,
    pub max_reviews: i64,
    pub created_at: i64,
    pub updated_at: i64,
}

pub struct DeckWithCounts {
    pub deck: Deck,
    pub total_cards: i64,
    pub due_cards: i64,
    pub new_cards: i64,
}

pub struct CreateDeckInput {
    pub name: String,
    pub parent_id: Option<String>,
    pub description: Option<String>,
}

pub struct UpdateDeckInput {
    pub id: String,
    pub name: Option<String>,
    /// `Some(None)` moves the deck to the top level.
    pub parent_id: Option<Option<String>>,
    pub description: Option<String>,
    pub new_per_day: Option<i64>,
    pub max_reviews: Option<i64>,
}

pub open spec fn opt_view(o: Option<String>) -> Option<Seq<char>> {
    match o {
        Some(s) => Some(s@),
        None => None,
    }
}

/// (id, name, parent, description, new per day, max reviews, created, updated)
pub type DeckView = (Seq<char>, Seq<char>, Option<Seq<char>>, Seq<char>, i64, i64, i64, i64);

pub open spec fn deck_view(d: Deck) -> DeckView {
    (d.id@, d.name@, opt_view(d.parent_id), d.description@, d.new_per_day, d.max_reviews, d.created_at, d.updated_at)
}

fn clone_opt(o: &Option<String>) -> (r: Option<String>)
    ensures
        opt_view(r) == opt_view(*o),
{
    match o {
        Some(s) => Some(s.clone()),
        None => None,
    }
}

pub fn clone_deck(d: &Deck) -> (r: Deck)
    ensures
        deck_view(r) == deck_view(*d),
{
    Deck {
        id: d.id.clone(),
        name: d.name.clone(),
        parent_id: clone_opt(&d.parent_id),
        description: d.description.clone(),
        new_per_day: d.new_per_day,
        max_reviews: d.max_reviews,
        created_at: d.created_at,
        updated_at: d.updated_at,
    }
}

/// A new deck: no description unless one is given, 20 new cards and 200
/// reviews a day, created and updated now.
pub fn new_deck(id: &str, input: &CreateDeckInput, now: i64) -> (d: Deck)
    ensures
        deck_view(d) == (
            id@,
            input.name@,
            opt_view(input.parent_id),
            match input.description {
                Some(s) => s@,
                None => ""@,
            },
            20i64,
            200i64,
            now,
            now,
        ),
{
    let description = match &input.description {
        Some(s) => s.clone(),
        None => owned(""),
    };
    Deck {
        id: owned(id),
        name: input.name.clone(),
        parent_id: clone_opt(&input.parent_id),
        description,
        new_per_day: 20,
        max_reviews: 200,
        created_at: now,
        updated_at: now,
    }
}

/// The deck after an update: each field given replaces the current one,
/// the others stay; the creation time stays and the update time is now.
pub open spec fn spec_updated_deck(current: Deck, input: UpdateDeckInput, now: i64) -> DeckView {
    (
        input.id@,
        match input.name {
            Some(n) => n@,
            None => current.name@,
        },
        match input.parent_id {
            Some(p) => opt_view(p),
            None => opt_view(current.parent_id),
        },
        match input.description {
            Some(d) => d@,
            None => current.description@,
        },
        match input.new_per_day {
            Some(n) => n,
            None => current.new_per_day,
        },
        match input.max_reviews {
            Some(n) => n,
            None => current.max_reviews,
        },
        current.created_at,
        now,
    )
}

pub fn apply_deck_update(current: &Deck, input: &UpdateDeckInput, now: i64) -> (d: Deck)
    ensures
        deck_view(d) == spec_updated_deck(*current, *input, now),
{
    Deck {
        id: input.id.clone(),
        name: match &input.name {
            Some(n) => n.clone(),
            None => current.name.clone(),
        },
        parent_id: match &input.parent_id {
            Some(p) => clone_opt(p),
            None => clone_opt(&current.parent_id),
        },
        description: match &input.description {
            Some(s) => s.clone(),
            None => current.description.clone(),
        },
        new_per_day: match input.new_per_day {
            Some(n) => n,
            None => current.new_per_day,
        },
        max_reviews: match input.max_reviews {
            Some(n) => n,
            None => current.max_reviews,
        },
        created_at: current.created_at,
        updated_at: now,
    }
}

pub open spec fn deck_ids(decks: Seq<Deck>) -> Seq<Seq<char>> {
    decks.map_values(|d: Deck| d.id@)
}

pub open spec fn deck_parents(decks: Seq<Deck>) -> Seq<(Seq<char>, Option<Seq<char>>)> {
    decks.map_values(|d: Deck| (d.id@, opt_view(d.parent_id)))
}

/// A deck's (total, due, new) counts with those of all its subdecks.
pub open spec fn deck_counts(decks: Seq<Deck>, direct: Seq<(String, (i64, i64, i64))>, id: Seq<char>) -> (int, int, int) {
    rollup(deck_ids(decks), deck_parents(decks), direct_view(direct), id, decks.len())
}

/// Every sum formed in rolling up the counts of deck `id` fits in `i64`.
pub open spec fn deck_sums_fit(decks: Seq<Deck>, direct: Seq<(String, (i64, i64, i64))>, id: Seq<char>) -> bool {
    sums_fit(deck_ids(decks), deck_parents(decks), direct_view(direct), id, decks.len())
}

/// Each deck with its rolled-up counts, in the order given.
pub fn decks_with_counts(decks: &Vec<Deck>, direct: &Vec<(String, (i64, i64, i64))>) -> (r: Vec<DeckWithCounts>)
    requires
        forall|i: int| 0 <= i < decks@.len() ==> #[trigger] deck_sums_fit(decks@, direct@, decks@[i].id@),
    ensures
        r@.len() == decks@.len(),
        forall|i: int| 0 <= i < r@.len() ==> deck_view((#[trigger] r@[i]).deck) == deck_view(decks@[i]) && (
            r@[i].total_cards as int,
            r@[i].due_cards as int,
            r@[i].new_cards as int,
        ) == deck_counts(decks@, direct@, decks@[i].id@),
{
    let mut ids: Vec<String> = Vec::new();
    let mut parents: Vec<(String, Option<String>)> = Vec::new();
    let mut i: usize = 0;
    while i < decks.len()
        invariant
            i <= decks.len(),
            str_view(ids@) == deck_ids(decks@).take(i as int),
            parents_view(parents@) == deck_parents(decks@).take(i as int),
        decreases decks.len() - i,
    {
        let ghost iv = str_view(ids@);
        let ghost pv = parents_view(parents@);
        let id = decks[i].id.clone();
        let id2 = decks[i].id.clone();
        let par = clone_opt(&decks[i].parent_id);
        ids.push(id);
        parents.push((id2, par));
        assert(str_view(ids@) =~= iv.push(decks@[i as int].id@));
        assert(parents_view(parents@) =~= pv.push((decks@[i as int].id@, opt_view(decks@[i as int].parent_id))));
        assert(deck_ids(decks@).take(i + 1) =~= deck_ids(decks@).take(i as int).push(decks@[i as int].id@));
        assert(deck_parents(decks@).take(i + 1) =~= deck_parents(decks@).take(i as int).push((decks@[i as int].id@, opt_view(decks@[i as int].parent_id))));
        assert(str_view(ids@) =~= deck_ids(decks@).take(i + 1));
        assert(parents_view(parents@) =~= deck_parents(decks@).take(i + 1));
        i += 1;
    }
    assert(str_view(ids@) =~= deck_ids(decks@));
    assert(parents_view(parents@) =~= deck_parents(decks@));
    assert forall|j: int| 0 <= j < ids@.len() implies #[trigger] sums_fit(
        str_view(ids@),
        parents_view(parents@),
        direct_view(direct@),
        ids@[j]@,
        ids@.len() as nat,
    ) by {
        assert(ids@[j]@ == deck_ids(decks@)[j]);
        assert(deck_sums_fit(decks@, direct@, decks@[j].id@));
    }
    let rolled = rollup_deck_counts(&ids, &parents, direct);
    let mut out: Vec<DeckWithCounts> = Vec::new();
    let mut k: usize = 0;
    while k < decks.len()
        invariant
            k <= decks.len(),
            rolled@.len() == decks@.len(),
            ids@.len() == decks@.len(),
            str_view(ids@) == deck_ids(decks@),
            parents_view(parents@) == deck_parents(decks@),
            forall|j: int| 0 <= j < rolled@.len() ==> (#[trigger] rolled@[j]).0@ == ids@[j]@ && counts_view(rolled@[j].1)
                == rollup(str_view(ids@), parents_view(parents@), direct_view(direct@), ids@[j]@, ids@.len() as nat),
            out@.len() == k,
            forall|j: int| 0 <= j < k ==> deck_view((#[trigger] out@[j]).deck) == deck_view(decks@[j]) && (
                out@[j].total_cards as int,
                out@[j].due_cards as int,
                out@[j].new_cards as int,
            ) == deck_counts(decks@, direct@, decks@[j].id@),
        decreases decks.len() - k,
    {
        assert(ids@[k as int]@ == deck_ids(decks@)[k as int]);
        let c = rolled[k].1;
        out.push(DeckWithCounts { deck: clone_deck(&decks[k]), total_cards: c.0, due_cards: c.1, new_cards: c.2 });
        k += 1;
    }
    out
}

// ---------------------------------------------------------------------------
// Deleting a deck tree
// ---------------------------------------------------------------------------

/// Where a stable insertion puts a deck of depth `d` among decks sorted
/// deepest first: after every deck at least as deep.
pub open spec fn depth_slot(sorted: Seq<(usize, Seq<char>)>, d: usize) -> int
    decreases sorted.len(),
{
    if sorted.len() == 0 {
        0
    } else if sorted[0].0 < d {
        0
    } else {
        1 + depth_slot(sorted.drop_first(), d)
    }
}

/// The decks sorted deepest first; decks of equal depth keep their order.
pub open spec fn deepest_first(s: Seq<(usize, Seq<char>)>) -> Seq<(usize, Seq<char>)>
    decreases s.len(),
{
    if s.len() == 0 {
        Seq::empty()
    } else {
        let r = deepest_first(s.drop_last());
        r.insert(depth_slot(r, s.last().0), s.last())
    }
}

pub open spec fn depths_view(v: Seq<(usize, String)>) -> Seq<(usize, Seq<char>)> {
    v.map_values(|e: (usize, String)| (e.0, e.1@))
}

/// The decks of a tree with their depths, in the order they are deleted:
/// the deepest first, so that a deck goes before its parent.
pub fn deletion_order(by_depth: &Vec<(usize, String)>) -> (r: Vec<(usize, String)>)
    ensures
        depths_view(r@) == deepest_first(depths_view(by_depth@)),
{
    let ghost all = depths_view(by_depth@);
    let mut out: Vec<(usize, String)> = Vec::new();
    let mut i: usize = 0;
    while i < by_depth.len()
        invariant
            i <= by_depth.len(),
            all == depths_view(by_depth@),
            depths_view(out@) == deepest_first(all.take(i as int)),
        decreases by_depth.len() - i,
    {
        let d = by_depth[i].0;
        let ghost ov = depths_view(out@);
        let mut j: usize = 0;
        assert(ov.skip(0) =~= ov);
        while j < out.len() && out[j].0 >= d
            invariant
                j <= out.len(),
                ov == depths_view(out@),
                depth_slot(ov, d) == j + depth_slot(ov.skip(j as int), d),
            decreases out.len() - j,
        {
            assert(ov.skip(j as int)[0] == ov[j as int]);
            assert(ov.skip(j as int).drop_first() =~= ov.skip(j + 1));
            j += 1;
        }
        proof {
            if j < out.len() {
                assert(ov.skip(j as int)[0] == ov[j as int]);
            }
            assert(all.take(i + 1).drop_last() =~= all.take(i as int));
            assert(all.take(i + 1).last() == (d, by_depth@[i as int].1@));
        }
        out.insert(j, (d, by_depth[i].1.clone()));
        assert(depths_view(out@) =~= ov.insert(j as int, (d, by_depth@[i as int].1@)));
        i += 1;
    }
    assert(all.take(by_depth.len() as int) =~= all);
    out
}

pub open spec fn deepest_sorted(s: Seq<(usize, Seq<char>)>) -> bool {
    forall|i: int, j: int| 0 <= i < j < s.len() ==> #[trigger] s[i].0 >= #[trigger] s[j].0
}

proof fn lemma_depth_slot(r: Seq<(usize, Seq<char>)>, d: usize)
    ensures
        0 <= depth_slot(r, d) <= r.len(),
        forall|k: int| 0 <= k < depth_slot(r, d) ==> #[trigger] r[k].0 >= d,
        depth_slot(r, d) < r.len() ==> r[depth_slot(r, d)].0 < d,
    decreases r.len(),
{
    if r.len() > 0 && r[0].0 >= d {
        let t = r.drop_first();
        lemma_depth_slot(t, d);
        assert forall|k: int| 0 <= k < depth_slot(r, d) implies #[trigger] r[k].0 >= d by {
            if k > 0 {
                assert(r[k] == t[k - 1]);
            }
        }
        if depth_slot(r, d) < r.len() {
            assert(r[depth_slot(r, d)] == t[depth_slot(t, d)]);
        }
    }
}

/// The deletion order goes deepest first: no deck comes after a deck less
/// deep than it, so every subdeck goes before its parent.
pub proof fn law_deletion_deepest_first(s: Seq<(usize, Seq<char>)>)
    ensures
        deepest_sorted(deepest_first(s)),
    decreases s.len(),
{
    if s.len() > 0 {
        law_deletion_deepest_first(s.drop_last());
        let r = deepest_first(s.drop_last());
        let x = s.last();
        let p = depth_slot(r, x.0);
        lemma_depth_slot(r, x.0);
        let out = r.insert(p, x);
        assert forall|i: int, j: int| 0 <= i < j < out.len() implies #[trigger] out[i].0 >= #[trigger] out[j].0 by {
            if j < p {
                assert(out[i] == r[i] && out[j] == r[j]);
            } else if j == p {
                assert(out[j] == x);
                assert(out[i] == r[i]);
            } else if i < p {
                assert(out[i] == r[i] && out[j] == r[j - 1]);
            } else if i == p {
                assert(out[i] == x && out[j] == r[j - 1]);
                if p < r.len() {
                    assert(r[p].0 >= r[j - 1].0 || p == j - 1);
                }
            } else {
                assert(out[i] == r[i - 1] && out[j] == r[j - 1]);
            }
        }
        assert(out == deepest_first(s));
    }
}

/// The deletion order deletes each deck of the tree once.
pub proof fn law_deletion_keeps_decks(s: Seq<(usize, Seq<char>)>)
    ensures
        deepest_first(s).to_multiset() == s.to_multiset(),
    decreases s.len(),
{
    if s.len() > 0 {
        law_deletion_keeps_decks(s.drop_last());
        let r = deepest_first(s.drop_last());
        let x = s.last();
        let p = depth_slot(r, x.0);
        lemma_depth_slot(r, x.0);
        vstd::seq_lib::to_multiset_insert(r, p, x);
        s.drop_last().to_multiset_ensures();
        assert(s =~= s.drop_last().push(x));
        assert(deepest_first(s) == r.insert(p, x));
        assert(s.drop_last().push(x).to_multiset() =~= s.drop_last().to_multiset().insert(x));
        assert(r.insert(p, x).to_multiset() == r.to_multiset().insert(x));
        assert(deepest_first(s).to_multiset() =~= s.to_multiset());
    } else {
        assert(deepest_first(s) =~= s);
    }
}

/// An update that names a parent puts the deck under exactly that parent
/// (`Some(None)`: at the top level), whatever parent the deck had; one that
/// names none keeps the deck's parent. The same holds of every other field:
/// what the input gives is taken, the rest is kept.
pub proof fn law_update_takes_given_fields(current: Deck, input: UpdateDeckInput, now: i64)
    ensures
        ({
            let d = spec_updated_deck(current, input, now);
            &&& d.0 == input.id@
            &&& input.parent_id matches Some(Some(p)) ==> d.2 == Some(p@)
            &&& input.parent_id matches Some(None) ==> d.2 is None
            &&& input.parent_id is None ==> d.2 == (match current.parent_id {
                Some(p) => Some(p@),
                None => None,
            })
            &&& input.name matches Some(n) ==> d.1 == n@
            &&& input.name is None ==> d.1 == current.name@
            &&& input.description matches Some(s) ==> d.3 == s@
            &&& input.description is None ==> d.3 == current.description@
            &&& input.new_per_day matches Some(n) ==> d.4 == n
            &&& input.new_per_day is None ==> d.4 == current.new_per_day
            &&& input.max_reviews matches Some(n) ==> d.5 == n
            &&& input.max_reviews is None ==> d.5 == current.max_reviews
            &&& d.6 == current.created_at
            &&& d.7 == now
        }),
{
}

/// Two decks given the same update that names a parent end up under the
/// same parent, whatever parents they had before.
pub proof fn law_requested_parent_ignores_current(a: Deck, b: Deck, input: UpdateDeckInput, now: i64)
    requires
        input.parent_id is Some,
    ensures
        spec_updated_deck(a, input, now).2 == spec_updated_deck(b, input, now).2,
{
}

} // verus!
