//! The deck tree: counts rolled up from subdecks into their ancestors.
use vstd::prelude::*;

verus! {

pub type Counts = (int, int, int);

pub open spec fn counts_view(c: (i64, i64, i64)) -> Counts {
    (c.0 as int, c.1 as int, c.2 as int)
}

pub open spec fn add_counts(a: Counts, b: Counts) -> Counts {
    (a.0 + b.0, a.1 + b.1, a.2 + b.2)
}

/// The parent that the last entry for `id` records (a later entry
/// overrides an earlier one, as a map insert does).
pub open spec fn parent_lookup(parent_of: Seq<(Seq<char>, Option<Seq<char>>)>, id: Seq<char>) -> Option<Option<Seq<char>>>
    decreases parent_of.len(),
{
    if parent_of.len() == 0 {
        None
    } else if parent_of.last().0 == id {
        Some(parent_of.last().1)
    } else {
        parent_lookup(parent_of.drop_last(), id)
    }
}

/// A deck's own counts (zeros when it has none).
pub open spec fn direct_lookup(direct: Seq<(Seq<char>, Counts)>, id: Seq<char>) -> Counts
    decreases direct.len(),
{
    if direct.len() == 0 {
        (0, 0, 0)
    } else if direct.last().0 == id {
        direct.last().1
    } else {
        direct_lookup(direct.drop_last(), id)
    }
}

/// The decks in `ids` whose parent is `id`, in order (a deck listed twice
/// counts twice).
pub open spec fn children(ids: Seq<Seq<char>>, parent_of: Seq<(Seq<char>, Option<Seq<char>>)>, id: Seq<char>) -> Seq<Seq<char>>
    decreases ids.len(),
{
    if ids.len() == 0 {
        Seq::empty()
    } else {
        let rest = children(ids.drop_last(), parent_of, id);
        if parent_lookup(parent_of, ids.last()) == Some(Some(id)) {
            rest.push(ids.last())
        } else {
            rest
        }
    }
}

/// A deck's counts plus those of its subdecks down to `depth` levels.
pub open spec fn rollup(
    ids: Seq<Seq<char>>,
    parent_of: Seq<(Seq<char>, Option<Seq<char>>)>,
    direct: Seq<(Seq<char>, Counts)>,
    id: Seq<char>,
    depth: nat,
) -> Counts
    decreases depth, 0nat,
{
    if depth == 0 {
        direct_lookup(direct, id)
    } else {
        add_counts(
            direct_lookup(direct, id),
            rollup_all(ids, parent_of, direct, children(ids, parent_of, id), (depth - 1) as nat),
        )
    }
}

/// The rolled-up counts of several decks added together.
pub open spec fn rollup_all(
    ids: Seq<Seq<char>>,
    parent_of: Seq<(Seq<char>, Option<Seq<char>>)>,
    direct: Seq<(Seq<char>, Counts)>,
    decks: Seq<Seq<char>>,
    depth: nat,
) -> Counts
    decreases depth, 1nat, decks.len(),
{
    if decks.len() == 0 {
        (0, 0, 0)
    } else {
        add_counts(
            rollup_all(ids, parent_of, direct, decks.drop_last(), depth),
            rollup(ids, parent_of, direct, decks.last(), depth),
        )
    }
}

/// Following parents from `id` through the listed decks ends within
/// `fuel` steps (the deck tree has no cycle above `id`).
pub open spec fn reaches_top(ids: Seq<Seq<char>>, parent_of: Seq<(Seq<char>, Option<Seq<char>>)>, id: Seq<char>, fuel: nat) -> bool
    decreases fuel,
{
    fuel > 0 && match parent_lookup(parent_of, id) {
        Some(Some(p)) => if ids.contains(p) {
            reaches_top(ids, parent_of, p, (fuel - 1) as nat)
        } else {
            true
        },
        _ => true,
    }
}

pub open spec fn nonneg(c: Counts) -> bool {
    c.0 >= 0 && c.1 >= 0 && c.2 >= 0
}

pub open spec fn fits(c: Counts) -> bool {
    c.0 <= i64::MAX && c.1 <= i64::MAX && c.2 <= i64::MAX
}

pub open spec fn str_view(v: Seq<String>) -> Seq<Seq<char>> {
    v.map_values(|s: String| s@)
}

pub open spec fn parents_view(v: Seq<(String, Option<String>)>) -> Seq<(Seq<char>, Option<Seq<char>>)> {
    v.map_values(|e: (String, Option<String>)| (e.0@, match e.1 {
        Some(p) => Some(p@),
        None => None,
    }))
}

pub open spec fn direct_view(v: Seq<(String, (i64, i64, i64))>) -> Seq<(Seq<char>, Counts)> {
    v.map_values(|e: (String, (i64, i64, i64))| (e.0@, counts_view(e.1)))
}


pub open spec fn all_direct_nonneg(direct: Seq<(Seq<char>, Counts)>) -> bool {
    forall|i: int| 0 <= i < direct.len() ==> nonneg(#[trigger] direct[i].1)
}

proof fn lemma_direct_nonneg(direct: Seq<(Seq<char>, Counts)>, id: Seq<char>)
    requires
        all_direct_nonneg(direct),
    ensures
        nonneg(direct_lookup(direct, id)),
    decreases direct.len(),
{
    if direct.len() > 0 && direct.last().0 != id {
        let init = direct.drop_last();
        assert forall|i: int| 0 <= i < init.len() implies nonneg(#[trigger] init[i].1) by {
            assert(init[i] == direct[i]);
        }
        lemma_direct_nonneg(init, id);
    }
}

proof fn lemma_rollup_nonneg(
    ids: Seq<Seq<char>>,
    parent_of: Seq<(Seq<char>, Option<Seq<char>>)>,
    direct: Seq<(Seq<char>, Counts)>,
    id: Seq<char>,
    depth: nat,
)
    requires
        all_direct_nonneg(direct),
    ensures
        nonneg(rollup(ids, parent_of, direct, id, depth)),
    decreases depth, 0nat,
{
    lemma_direct_nonneg(direct, id);
    if depth > 0 {
        lemma_rollup_all_mono(ids, parent_of, direct, children(ids, parent_of, id), (depth - 1) as nat, 0);
    }
}

/// With no negative counts, the sum over a prefix of decks is at most the
/// sum over all of them (and never negative).
proof fn lemma_rollup_all_mono(
    ids: Seq<Seq<char>>,
    parent_of: Seq<(Seq<char>, Option<Seq<char>>)>,
    direct: Seq<(Seq<char>, Counts)>,
    decks: Seq<Seq<char>>,
    depth: nat,
    k: int,
)
    requires
        all_direct_nonneg(direct),
        0 <= k <= decks.len(),
    ensures
        nonneg(rollup_all(ids, parent_of, direct, decks.take(k), depth)),
        nonneg(rollup_all(ids, parent_of, direct, decks, depth)),
        rollup_all(ids, parent_of, direct, decks.take(k), depth).0 <= rollup_all(ids, parent_of, direct, decks, depth).0,
        rollup_all(ids, parent_of, direct, decks.take(k), depth).1 <= rollup_all(ids, parent_of, direct, decks, depth).1,
        rollup_all(ids, parent_of, direct, decks.take(k), depth).2 <= rollup_all(ids, parent_of, direct, decks, depth).2,
    decreases depth, 1nat, decks.len(),
{
    if decks.len() == 0 {
        assert(decks.take(k) =~= decks);
    } else if k == decks.len() {
        assert(decks.take(k) =~= decks);
        lemma_rollup_all_mono(ids, parent_of, direct, decks.drop_last(), depth, 0);
        lemma_rollup_nonneg(ids, parent_of, direct, decks.last(), depth);
    } else {
        let init = decks.drop_last();
        lemma_rollup_all_mono(ids, parent_of, direct, init, depth, k);
        assert(init.take(k) =~= decks.take(k));
        lemma_rollup_nonneg(ids, parent_of, direct, decks.last(), depth);
    }
}

pub open spec fn in_i64(c: Counts) -> bool {
    i64::MIN <= c.0 <= i64::MAX && i64::MIN <= c.1 <= i64::MAX && i64::MIN <= c.2 <= i64::MAX
}

/// Every sum that rolling up `id` forms fits in `i64`: the deck's own
/// counts plus the roll-ups of its first `k` subdecks, for each `k`, and
/// the same for each subdeck below it.
pub open spec fn sums_fit(
    ids: Seq<Seq<char>>,
    parent_of: Seq<(Seq<char>, Option<Seq<char>>)>,
    direct: Seq<(Seq<char>, Counts)>,
    id: Seq<char>,
    depth: nat,
) -> bool
    decreases depth, 0nat,
{
    if depth == 0 {
        true
    } else {
        &&& forall|k: int| 0 <= k <= children(ids, parent_of, id).len() ==> in_i64(add_counts(
            direct_lookup(direct, id),
            #[trigger] rollup_all(ids, parent_of, direct, children(ids, parent_of, id).take(k), (depth - 1) as nat),
        ))
        &&& all_sums_fit(ids, parent_of, direct, children(ids, parent_of, id), (depth - 1) as nat)
    }
}

/// `sums_fit` for each of several decks.
pub open spec fn all_sums_fit(
    ids: Seq<Seq<char>>,
    parent_of: Seq<(Seq<char>, Option<Seq<char>>)>,
    direct: Seq<(Seq<char>, Counts)>,
    decks: Seq<Seq<char>>,
    depth: nat,
) -> bool
    decreases depth, 1nat, decks.len(),
{
    decks.len() == 0 || (all_sums_fit(ids, parent_of, direct, decks.drop_last(), depth) && sums_fit(
        ids,
        parent_of,
        direct,
        decks.last(),
        depth,
    ))
}

proof fn lemma_all_sums_fit_index(
    ids: Seq<Seq<char>>,
    parent_of: Seq<(Seq<char>, Option<Seq<char>>)>,
    direct: Seq<(Seq<char>, Counts)>,
    decks: Seq<Seq<char>>,
    depth: nat,
    k: int,
)
    requires
        all_sums_fit(ids, parent_of, direct, decks, depth),
        0 <= k < decks.len(),
    ensures
        sums_fit(ids, parent_of, direct, decks[k], depth),
    decreases decks.len(),
{
    if k < decks.len() - 1 {
        lemma_all_sums_fit_index(ids, parent_of, direct, decks.drop_last(), depth, k);
    }
}

/// With no negative counts, every sum fits once the whole roll-up fits.
proof fn lemma_nonneg_sums_fit(
    ids: Seq<Seq<char>>,
    parent_of: Seq<(Seq<char>, Option<Seq<char>>)>,
    direct: Seq<(Seq<char>, Counts)>,
    id: Seq<char>,
    depth: nat,
)
    requires
        all_direct_nonneg(direct),
        fits(rollup(ids, parent_of, direct, id, depth)),
    ensures
        sums_fit(ids, parent_of, direct, id, depth),
    decreases depth, 0nat,
{
    if depth > 0 {
        let kids = children(ids, parent_of, id);
        lemma_direct_nonneg(direct, id);
        assert forall|k: int| 0 <= k <= kids.len() implies in_i64(add_counts(
            direct_lookup(direct, id),
            #[trigger] rollup_all(ids, parent_of, direct, kids.take(k), (depth - 1) as nat),
        )) by {
            lemma_rollup_all_mono(ids, parent_of, direct, kids, (depth - 1) as nat, k);
        }
        lemma_rollup_all_mono(ids, parent_of, direct, kids, (depth - 1) as nat, 0);
        lemma_nonneg_all_sums_fit(ids, parent_of, direct, kids, (depth - 1) as nat);
    }
}

proof fn lemma_nonneg_all_sums_fit(
    ids: Seq<Seq<char>>,
    parent_of: Seq<(Seq<char>, Option<Seq<char>>)>,
    direct: Seq<(Seq<char>, Counts)>,
    decks: Seq<Seq<char>>,
    depth: nat,
)
    requires
        all_direct_nonneg(direct),
        fits(rollup_all(ids, parent_of, direct, decks, depth)),
    ensures
        all_sums_fit(ids, parent_of, direct, decks, depth),
    decreases depth, 1nat, decks.len(),
{
    if decks.len() > 0 {
        lemma_rollup_all_mono(ids, parent_of, direct, decks.drop_last(), depth, 0);
        lemma_rollup_nonneg(ids, parent_of, direct, decks.last(), depth);
        lemma_nonneg_all_sums_fit(ids, parent_of, direct, decks.drop_last(), depth);
        lemma_nonneg_sums_fit(ids, parent_of, direct, decks.last(), depth);
    }
}


fn parent_of_exec(parent_of: &Vec<(String, Option<String>)>, id: &String) -> (r: Option<Option<String>>)
    ensures
        match r {
            None => parent_lookup(parents_view(parent_of@), id@) is None,
            Some(None) => parent_lookup(parents_view(parent_of@), id@) == Some(None::<Seq<char>>),
            Some(Some(p)) => parent_lookup(parents_view(parent_of@), id@) == Some(Some(p@)),
        },
{
    let ghost pv = parents_view(parent_of@);
    let mut k = parent_of.len();
    assert(pv.take(k as int) =~= pv);
    while k > 0
        invariant
            k <= parent_of.len(),
            pv == parents_view(parent_of@),
            parent_lookup(pv, id@) == parent_lookup(pv.take(k as int), id@),
        decreases k,
    {
        proof {
            assert(pv.take(k as int).drop_last() =~= pv.take(k - 1));
        }
        if parent_of[k - 1].0 == *id {
            return Some(parent_of[k - 1].1.clone());
        }
        k -= 1;
    }
    None
}

fn direct_of(direct: &Vec<(String, (i64, i64, i64))>, id: &String) -> (r: (i64, i64, i64))
    ensures
        counts_view(r) == direct_lookup(direct_view(direct@), id@),
{
    let ghost dv = direct_view(direct@);
    let mut k = direct.len();
    assert(dv.take(k as int) =~= dv);
    while k > 0
        invariant
            k <= direct.len(),
            dv == direct_view(direct@),
            direct_lookup(dv, id@) == direct_lookup(dv.take(k as int), id@),
        decreases k,
    {
        proof {
            assert(dv.take(k as int).drop_last() =~= dv.take(k - 1));
        }
        if direct[k - 1].0 == *id {
            return direct[k - 1].1;
        }
        k -= 1;
    }
    (0, 0, 0)
}

fn children_exec(ids: &Vec<String>, parent_of: &Vec<(String, Option<String>)>, id: &String) -> (r: Vec<String>)
    ensures
        str_view(r@) == children(str_view(ids@), parents_view(parent_of@), id@),
{
    let ghost iv = str_view(ids@);
    let mut out: Vec<String> = Vec::new();
    let mut i: usize = 0;
    while i < ids.len()
        invariant
            i <= ids.len(),
            iv == str_view(ids@),
            str_view(out@) == children(iv.take(i as int), parents_view(parent_of@), id@),
        decreases ids.len() - i,
    {
        proof {
            assert(iv.take(i + 1).drop_last() =~= iv.take(i as int));
        }
        match parent_of_exec(parent_of, &ids[i]) {
            Some(Some(p)) => {
                if p == *id {
                    let ghost before = str_view(out@);
                    out.push(ids[i].clone());
                    assert(str_view(out@) =~= before.push(ids@[i as int]@));
                }
            },
            _ => {},
        }
        i += 1;
    }
    assert(iv.take(ids.len() as int) =~= iv);
    out
}

fn rollup_exec(
    ids: &Vec<String>,
    parent_of: &Vec<(String, Option<String>)>,
    direct: &Vec<(String, (i64, i64, i64))>,
    id: &String,
    depth: usize,
) -> (r: (i64, i64, i64))
    requires
        sums_fit(str_view(ids@), parents_view(parent_of@), direct_view(direct@), id@, depth as nat),
    ensures
        counts_view(r) == rollup(str_view(ids@), parents_view(parent_of@), direct_view(direct@), id@, depth as nat),
    decreases depth,
{
    let ghost iv = str_view(ids@);
    let ghost pv = parents_view(parent_of@);
    let ghost dv = direct_view(direct@);
    let d = direct_of(direct, id);
    if depth == 0 {
        return d;
    }
    let kids = children_exec(ids, parent_of, id);
    let ghost kv = str_view(kids@);
    let mut total: (i64, i64, i64) = d;
    let mut k: usize = 0;
    assert(kv.take(0) =~= Seq::<Seq<char>>::empty());
    while k < kids.len()
        invariant
            k <= kids.len(),
            depth > 0,
            iv == str_view(ids@),
            pv == parents_view(parent_of@),
            dv == direct_view(direct@),
            kv == str_view(kids@),
            kv == children(iv, pv, id@),
            sums_fit(iv, pv, dv, id@, depth as nat),
            counts_view(total) == add_counts(direct_lookup(dv, id@), rollup_all(iv, pv, dv, kv.take(k as int), (depth - 1) as nat)),
        decreases kids.len() - k,
    {
        proof {
            lemma_all_sums_fit_index(iv, pv, dv, kv, (depth - 1) as nat, k as int);
            assert(kv.take(k + 1).drop_last() =~= kv.take(k as int));
            assert(kv.take(k + 1).last() == kids@[k as int]@);
            assert(in_i64(add_counts(direct_lookup(dv, id@), rollup_all(iv, pv, dv, kv.take(k + 1), (depth - 1) as nat))));
        }
        let c = rollup_exec(ids, parent_of, direct, &kids[k], depth - 1);
        total = (total.0 + c.0, total.1 + c.1, total.2 + c.2);
        k += 1;
    }
    assert(kv.take(kids.len() as int) =~= kv);
    total
}

/// The first count of a deck's roll-up when it is at most `cap`; `None`
/// when it is larger (with no negative counts, a partial sum that passes
/// `cap` shows this early).
pub fn rollup_first_capped(
    ids: &Vec<String>,
    parent_of: &Vec<(String, Option<String>)>,
    direct: &Vec<(String, (i64, i64, i64))>,
    id: &String,
    depth: usize,
    cap: i64,
) -> (r: Option<i64>)
    requires
        all_direct_nonneg(direct_view(direct@)),
        cap >= 0,
    ensures
        match r {
            Some(v) => v as int == rollup(str_view(ids@), parents_view(parent_of@), direct_view(direct@), id@, depth as nat).0
                && v <= cap,
            None => rollup(str_view(ids@), parents_view(parent_of@), direct_view(direct@), id@, depth as nat).0 > cap,
        },
    decreases depth,
{
    let ghost iv = str_view(ids@);
    let ghost pv = parents_view(parent_of@);
    let ghost dv = direct_view(direct@);
    let d = direct_of(direct, id);
    proof {
        lemma_direct_nonneg(dv, id@);
        if depth > 0 {
            lemma_rollup_all_mono(iv, pv, dv, children(iv, pv, id@), (depth - 1) as nat, 0);
        }
    }
    if d.0 > cap {
        return None;
    }
    if depth == 0 {
        return Some(d.0);
    }
    let kids = children_exec(ids, parent_of, id);
    let ghost kv = str_view(kids@);
    assert(rollup(iv, pv, dv, id@, depth as nat) == add_counts(direct_lookup(dv, id@), rollup_all(iv, pv, dv, kv, (depth - 1) as nat)));
    let mut total: i64 = d.0;
    let mut k: usize = 0;
    assert(kv.take(0) =~= Seq::<Seq<char>>::empty());
    while k < kids.len()
        invariant
            k <= kids.len(),
            depth > 0,
            cap >= 0,
            iv == str_view(ids@),
            pv == parents_view(parent_of@),
            dv == direct_view(direct@),
            kv == str_view(kids@),
            kv == children(iv, pv, id@),
            all_direct_nonneg(dv),
            total as int == direct_lookup(dv, id@).0 + rollup_all(iv, pv, dv, kv.take(k as int), (depth - 1) as nat).0,
            total <= cap,
            nonneg(direct_lookup(dv, id@)),
            rollup(iv, pv, dv, id@, depth as nat) == add_counts(direct_lookup(dv, id@), rollup_all(iv, pv, dv, kv, (depth - 1) as nat)),
        decreases kids.len() - k,
    {
        proof {
            lemma_rollup_all_mono(iv, pv, dv, kv, (depth - 1) as nat, k + 1);
            lemma_rollup_all_mono(iv, pv, dv, kv.take(k + 1), (depth - 1) as nat, k as int);
            assert(kv.take(k + 1).drop_last() =~= kv.take(k as int));
            assert(kv.take(k + 1).take(k as int) =~= kv.take(k as int));
            assert(kv.take(k + 1).last() == kids@[k as int]@);
            lemma_rollup_nonneg(iv, pv, dv, kids@[k as int]@, (depth - 1) as nat);
            assert(rollup_all(iv, pv, dv, kv.take(k + 1), (depth - 1) as nat) == add_counts(
                rollup_all(iv, pv, dv, kv.take(k as int), (depth - 1) as nat),
                rollup(iv, pv, dv, kids@[k as int]@, (depth - 1) as nat),
            ));
        }
        match rollup_first_capped(ids, parent_of, direct, &kids[k], depth - 1, cap) {
            None => {
                return None;
            },
            Some(c) => {
                if c > cap - total {
                    return None;
                }
                total = total + c;
            },
        }
        k += 1;
    }
    assert(kv.take(kids.len() as int) =~= kv);
    Some(total)
}

/// Every deck's counts with those of all its subdecks added in. Subdecks
/// are followed to a depth of as many levels as there are decks, which
/// reaches every subdeck of a tree without cycles.
pub fn rollup_deck_counts(
    deck_ids: &Vec<String>,
    parent_of: &Vec<(String, Option<String>)>,
    direct: &Vec<(String, (i64, i64, i64))>,
) -> (r: Vec<(String, (i64, i64, i64))>)
    requires
        forall|i: int| 0 <= i < deck_ids@.len() ==> #[trigger] sums_fit(
            str_view(deck_ids@),
            parents_view(parent_of@),
            direct_view(direct@),
            deck_ids@[i]@,
            deck_ids@.len() as nat,
        ),
    ensures
        r@.len() == deck_ids@.len(),
        forall|i: int| 0 <= i < r@.len() ==> (#[trigger] r@[i]).0@ == deck_ids@[i]@ && counts_view(r@[i].1)
            == rollup(str_view(deck_ids@), parents_view(parent_of@), direct_view(direct@), deck_ids@[i]@, deck_ids@.len() as nat),
{
    let mut out: Vec<(String, (i64, i64, i64))> = Vec::new();
    let mut i: usize = 0;
    while i < deck_ids.len()
        invariant
            i <= deck_ids.len(),
            out@.len() == i,
            forall|j: int| 0 <= j < deck_ids@.len() ==> #[trigger] sums_fit(
                str_view(deck_ids@),
                parents_view(parent_of@),
                direct_view(direct@),
                deck_ids@[j]@,
                deck_ids@.len() as nat,
            ),
            forall|j: int| 0 <= j < i ==> (#[trigger] out@[j]).0@ == deck_ids@[j]@ && counts_view(out@[j].1)
                == rollup(str_view(deck_ids@), parents_view(parent_of@), direct_view(direct@), deck_ids@[j]@, deck_ids@.len() as nat),
        decreases deck_ids.len() - i,
    {
        let id = &deck_ids[i];
        let c = rollup_exec(deck_ids, parent_of, direct, id, deck_ids.len());
        out.push((id.clone(), c));
        i += 1;
    }
    out
}

/// Rolled-up note counts: the same roll-up with one count per deck.
pub fn rollup_note_counts(
    deck_ids: &Vec<String>,
    parent_of: &Vec<(String, Option<String>)>,
    direct: &Vec<(String, usize)>,
) -> (r: Vec<(String, usize)>)
    requires
        forall|i: int| 0 <= i < direct@.len() ==> (#[trigger] direct@[i]).1 <= i64::MAX,
        forall|i: int| 0 <= i < deck_ids@.len() ==> #[trigger] rollup(
            str_view(deck_ids@),
            parents_view(parent_of@),
            note_counts_view(direct@),
            deck_ids@[i]@,
            deck_ids@.len() as nat,
        ).0 <= i64::MAX,
        forall|i: int| 0 <= i < deck_ids@.len() ==> #[trigger] rollup(
            str_view(deck_ids@),
            parents_view(parent_of@),
            note_counts_view(direct@),
            deck_ids@[i]@,
            deck_ids@.len() as nat,
        ).0 <= usize::MAX,
    ensures
        r@.len() == deck_ids@.len(),
        forall|i: int| 0 <= i < r@.len() ==> (#[trigger] r@[i]).0@ == deck_ids@[i]@ && r@[i].1 as int
            == rollup(str_view(deck_ids@), parents_view(parent_of@), note_counts_view(direct@), deck_ids@[i]@, deck_ids@.len() as nat).0,
{
    let mut tuples: Vec<(String, (i64, i64, i64))> = Vec::new();
    let mut i: usize = 0;
    while i < direct.len()
        invariant
            i <= direct.len(),
            forall|j: int| 0 <= j < direct@.len() ==> (#[trigger] direct@[j]).1 <= i64::MAX,
            tuples@.len() == i,
            direct_view(tuples@) == note_counts_view(direct@).take(i as int),
        decreases direct.len() - i,
    {
        let ghost before = direct_view(tuples@);
        let n = direct[i].1;
        assert(n <= i64::MAX);
        let c: i64 = n as i64;
        assert(c as int == n as int);
        tuples.push((direct[i].0.clone(), (c, 0, 0)));
        assert(direct_view(tuples@)[i as int] == note_counts_view(direct@)[i as int]);
        assert(direct_view(tuples@) =~= note_counts_view(direct@).take(i + 1));
        i += 1;
    }
    assert(note_counts_view(direct@).take(direct.len() as int) =~= note_counts_view(direct@));
    proof {
        assert forall|k: int| 0 <= k < direct_view(tuples@).len() implies nonneg(#[trigger] direct_view(tuples@)[k].1) by {}
        assert forall|j: int| 0 <= j < deck_ids@.len() implies #[trigger] sums_fit(
            str_view(deck_ids@),
            parents_view(parent_of@),
            direct_view(tuples@),
            deck_ids@[j]@,
            deck_ids@.len() as nat,
        ) by {
            lemma_rollup_zero_tail(str_view(deck_ids@), parents_view(parent_of@), direct_view(tuples@), deck_ids@[j]@, deck_ids@.len() as nat);
            lemma_nonneg_sums_fit(str_view(deck_ids@), parents_view(parent_of@), direct_view(tuples@), deck_ids@[j]@, deck_ids@.len() as nat);
        }
    }
    let rolled = rollup_deck_counts(deck_ids, parent_of, &tuples);
    let mut out: Vec<(String, usize)> = Vec::new();
    let mut k: usize = 0;
    while k < rolled.len()
        invariant
            k <= rolled.len(),
            rolled@.len() == deck_ids@.len(),
            direct_view(tuples@) == note_counts_view(direct@),
            forall|i: int| 0 <= i < deck_ids@.len() ==> #[trigger] rollup(
                str_view(deck_ids@),
                parents_view(parent_of@),
                note_counts_view(direct@),
                deck_ids@[i]@,
                deck_ids@.len() as nat,
            ).0 <= usize::MAX,
            all_direct_nonneg(direct_view(tuples@)),
            out@.len() == k,
            forall|j: int| 0 <= j < rolled@.len() ==> (#[trigger] rolled@[j]).0@ == deck_ids@[j]@ && counts_view(rolled@[j].1)
                == rollup(str_view(deck_ids@), parents_view(parent_of@), direct_view(tuples@), deck_ids@[j]@, deck_ids@.len() as nat),
            forall|j: int| 0 <= j < k ==> (#[trigger] out@[j]).0@ == deck_ids@[j]@ && out@[j].1 as int
                == rollup(str_view(deck_ids@), parents_view(parent_of@), note_counts_view(direct@), deck_ids@[j]@, deck_ids@.len() as nat).0,
        decreases rolled.len() - k,
    {
        proof {
            lemma_rollup_nonneg(str_view(deck_ids@), parents_view(parent_of@), direct_view(tuples@), deck_ids@[k as int]@, deck_ids@.len() as nat);
        }
        out.push((rolled[k].0.clone(), rolled[k].1.0 as usize));
        k += 1;
    }
    out
}

pub open spec fn note_counts_view(v: Seq<(String, usize)>) -> Seq<(Seq<char>, Counts)> {
    v.map_values(|e: (String, usize)| (e.0@, (e.1 as int, 0int, 0int)))
}

/// With only the first count set, the other two roll up to zero.
proof fn lemma_rollup_zero_tail(
    ids: Seq<Seq<char>>,
    parent_of: Seq<(Seq<char>, Option<Seq<char>>)>,
    direct: Seq<(Seq<char>, Counts)>,
    id: Seq<char>,
    depth: nat,
)
    requires
        forall|i: int| 0 <= i < direct.len() ==> (#[trigger] direct[i]).1.1 == 0 && direct[i].1.2 == 0,
    ensures
        rollup(ids, parent_of, direct, id, depth).1 == 0,
        rollup(ids, parent_of, direct, id, depth).2 == 0,
    decreases depth, 0nat,
{
    lemma_direct_zero_tail(direct, id);
    if depth > 0 {
        lemma_rollup_all_zero_tail(ids, parent_of, direct, children(ids, parent_of, id), (depth - 1) as nat);
    }
}

proof fn lemma_rollup_all_zero_tail(
    ids: Seq<Seq<char>>,
    parent_of: Seq<(Seq<char>, Option<Seq<char>>)>,
    direct: Seq<(Seq<char>, Counts)>,
    decks: Seq<Seq<char>>,
    depth: nat,
)
    requires
        forall|i: int| 0 <= i < direct.len() ==> (#[trigger] direct[i]).1.1 == 0 && direct[i].1.2 == 0,
    ensures
        rollup_all(ids, parent_of, direct, decks, depth).1 == 0,
        rollup_all(ids, parent_of, direct, decks, depth).2 == 0,
    decreases depth, 1nat, decks.len(),
{
    if decks.len() > 0 {
        lemma_rollup_all_zero_tail(ids, parent_of, direct, decks.drop_last(), depth);
        lemma_rollup_zero_tail(ids, parent_of, direct, decks.last(), depth);
    }
}

proof fn lemma_direct_zero_tail(direct: Seq<(Seq<char>, Counts)>, id: Seq<char>)
    requires
        forall|i: int| 0 <= i < direct.len() ==> (#[trigger] direct[i]).1.1 == 0 && direct[i].1.2 == 0,
    ensures
        direct_lookup(direct, id).1 == 0,
        direct_lookup(direct, id).2 == 0,
    decreases direct.len(),
{
    if direct.len() > 0 && direct.last().0 != id {
        let init = direct.drop_last();
        assert forall|i: int| 0 <= i < init.len() implies (#[trigger] init[i]).1.1 == 0 && init[i].1.2 == 0 by {
            assert(init[i] == direct[i]);
        }
        lemma_direct_zero_tail(init, id);
    }
}


// ---------------------------------------------------------------------------
// Subtrees and moving decks
// ---------------------------------------------------------------------------

/// `x` is a stored deck and, following parents through stored decks within
/// `fuel` steps, reaches `root`: `x` is in the subtree of `root`.
pub open spec fn in_subtree(decks: Seq<(Seq<char>, Option<Seq<char>>)>, root: Seq<char>, x: Seq<char>, fuel: nat) -> bool
    decreases fuel,
{
    fuel > 0 && parent_lookup(decks, x) is Some && (x == root || match parent_lookup(decks, x) {
        Some(Some(p)) => in_subtree(decks, root, p, (fuel - 1) as nat),
        _ => false,
    })
}

/// Whether `deck_id` is `ancestor_id` or one of its subdecks, among the
/// stored decks `(id, parent)`.
pub open spec fn spec_is_ancestor_of(decks: Seq<(Seq<char>, Option<Seq<char>>)>, ancestor_id: Seq<char>, deck_id: Seq<char>) -> bool {
    ancestor_id == deck_id || in_subtree(decks, ancestor_id, deck_id, decks.len() as nat)
}

pub fn is_ancestor_of(ancestor_id: &str, deck_id: &str, decks: &Vec<(String, Option<String>)>) -> (b: bool)
    ensures
        b == spec_is_ancestor_of(parents_view(decks@), ancestor_id@, deck_id@),
{
    if crate::text::same_text(ancestor_id, deck_id) {
        return true;
    }
    let root = crate::text::owned(ancestor_id);
    let mut x = crate::text::owned(deck_id);
    let mut fuel: usize = decks.len();
    let ghost dv = parents_view(decks@);
    loop
        invariant
            dv == parents_view(decks@),
            root@ == ancestor_id@,
            ancestor_id@ != deck_id@,
            in_subtree(dv, ancestor_id@, deck_id@, decks.len() as nat) == in_subtree(dv, root@, x@, fuel as nat),
        decreases fuel,
    {
        if fuel == 0 {
            return false;
        }
        match parent_of_exec(decks, &x) {
            None => {
                return false;
            },
            Some(parent) => {
                if x == root {
                    return true;
                }
                match parent {
                    Some(p) => {
                        x = p;
                        fuel -= 1;
                    },
                    None => {
                        return false;
                    },
                }
            },
        }
    }
}

/// Whether a deck may get `parent_id` as its parent: not itself, a parent
/// that exists, and not one of its own subdecks. The errors are the
/// messages shown to the user.
pub open spec fn spec_validate_parent(decks: Seq<(Seq<char>, Option<Seq<char>>)>, deck_id: Seq<char>, parent_id: Option<Seq<char>>) -> Result<(), Seq<char>> {
    match parent_id {
        None => Ok(()),
        Some(parent) => if parent == deck_id {
            Err("A deck cannot be its own parent."@)
        } else if parent_lookup(decks, parent) is None {
            Err("Parent deck not found."@)
        } else if spec_is_ancestor_of(decks, deck_id, parent) {
            Err("Cannot move a deck under one of its subdecks."@)
        } else {
            Ok(())
        },
    }
}

pub fn validate_parent(deck_id: &str, parent_id: Option<&str>, decks: &Vec<(String, Option<String>)>) -> (r: Result<(), String>)
    ensures
        match r {
            Ok(()) => spec_validate_parent(parents_view(decks@), deck_id@, match parent_id {
                Some(p) => Some(p@),
                None => None,
            }) == Ok::<(), Seq<char>>(()),
            Err(e) => spec_validate_parent(parents_view(decks@), deck_id@, match parent_id {
                Some(p) => Some(p@),
                None => None,
            }) == Err::<(), Seq<char>>(e@),
        },
{
    let parent = match parent_id {
        None => {
            return Ok(());
        },
        Some(p) => p,
    };
    if crate::text::same_text(parent, deck_id) {
        return Err(crate::text::owned("A deck cannot be its own parent."));
    }
    let ps = crate::text::owned(parent);
    if parent_of_exec(decks, &ps).is_none() {
        return Err(crate::text::owned("Parent deck not found."));
    }
    if is_ancestor_of(deck_id, parent, decks) {
        return Err(crate::text::owned("Cannot move a deck under one of its subdecks."));
    }
    Ok(())
}

/// A deck's rolled-up counts include those of each of its subdecks (with
/// no negative counts).
pub proof fn law_rollup_includes_subdeck(
    ids: Seq<Seq<char>>,
    parent_of: Seq<(Seq<char>, Option<Seq<char>>)>,
    direct: Seq<(Seq<char>, Counts)>,
    parent: Seq<char>,
    k: int,
    depth: nat,
)
    requires
        all_direct_nonneg(direct),
        0 <= k < children(ids, parent_of, parent).len(),
    ensures
        ({
            let child = children(ids, parent_of, parent)[k];
            let p = rollup(ids, parent_of, direct, parent, depth + 1);
            let c = rollup(ids, parent_of, direct, child, depth);
            p.0 >= c.0 && p.1 >= c.1 && p.2 >= c.2
        }),
{
    let kids = children(ids, parent_of, parent);
    lemma_direct_nonneg(direct, parent);
    lemma_rollup_all_mono(ids, parent_of, direct, kids, depth, k + 1);
    lemma_rollup_all_mono(ids, parent_of, direct, kids.take(k + 1), depth, k);
    assert(kids.take(k + 1).drop_last() =~= kids.take(k));
    assert(kids.take(k + 1).take(k) =~= kids.take(k));
    assert(kids.take(k + 1).last() == kids[k]);
}

// ---------------------------------------------------------------------------
// Moving a deck keeps the decks a forest
// ---------------------------------------------------------------------------

/// The parent of `x` when `x` is a stored deck that has one.
pub open spec fn parent_step(decks: Seq<(Seq<char>, Option<Seq<char>>)>, x: Seq<char>) -> Option<Seq<char>> {
    match parent_lookup(decks, x) {
        Some(Some(p)) => Some(p),
        _ => None,
    }
}

/// The deck reached from `x` after `i` steps up the parents; the walk
/// stays where it is once no parent is stored.
pub open spec fn walk_up(decks: Seq<(Seq<char>, Option<Seq<char>>)>, x: Seq<char>, i: nat) -> Seq<char>
    decreases i,
{
    if i == 0 {
        x
    } else {
        let y = walk_up(decks, x, (i - 1) as nat);
        match parent_step(decks, y) {
            Some(p) => p,
            None => y,
        }
    }
}

/// After `f` steps up from `x` the walk is at a deck without a stored parent.
pub open spec fn ends_within(decks: Seq<(Seq<char>, Option<Seq<char>>)>, x: Seq<char>, f: nat) -> bool {
    parent_step(decks, walk_up(decks, x, f)) is None
}

/// Following parents from `x` comes to an end.
pub open spec fn parents_end(decks: Seq<(Seq<char>, Option<Seq<char>>)>, x: Seq<char>) -> bool {
    exists|f: nat| #[trigger] ends_within(decks, x, f)
}

/// No chain of parents goes round in a circle: the decks form a forest.
pub open spec fn is_forest(decks: Seq<(Seq<char>, Option<Seq<char>>)>) -> bool {
    forall|x: Seq<char>| #[trigger] parents_end(decks, x)
}

/// The decks after the deck `deck_id` gets `parent_id` as its parent.
pub open spec fn with_parent(
    decks: Seq<(Seq<char>, Option<Seq<char>>)>,
    deck_id: Seq<char>,
    parent_id: Option<Seq<char>>,
) -> Seq<(Seq<char>, Option<Seq<char>>)> {
    decks.map_values(|e: (Seq<char>, Option<Seq<char>>)| if e.0 == deck_id { (e.0, parent_id) } else { e })
}

proof fn lemma_with_parent_lookup(
    decks: Seq<(Seq<char>, Option<Seq<char>>)>,
    d: Seq<char>,
    p: Option<Seq<char>>,
    y: Seq<char>,
)
    ensures
        parent_lookup(with_parent(decks, d, p), y) == (if y == d {
            if parent_lookup(decks, y) is Some { Some(p) } else { None }
        } else {
            parent_lookup(decks, y)
        }),
    decreases decks.len(),
{
    if decks.len() > 0 {
        assert(with_parent(decks, d, p).drop_last() =~= with_parent(decks.drop_last(), d, p));
        lemma_with_parent_lookup(decks.drop_last(), d, p, y);
    }
}

proof fn lemma_walk_shift(decks: Seq<(Seq<char>, Option<Seq<char>>)>, x: Seq<char>, p: Seq<char>, j: nat)
    requires
        parent_step(decks, x) == Some(p),
    ensures
        walk_up(decks, x, j + 1) == walk_up(decks, p, j),
    decreases j,
{
    if j > 0 {
        lemma_walk_shift(decks, x, p, (j - 1) as nat);
        assert(((j + 1) - 1) as nat == j);
        assert(walk_up(decks, x, j) == walk_up(decks, p, (j - 1) as nat));
    } else {
        assert(walk_up(decks, x, 0) == x);
    }
}

proof fn lemma_walk_compose(decks: Seq<(Seq<char>, Option<Seq<char>>)>, x: Seq<char>, a: nat, b: nat)
    ensures
        walk_up(decks, x, a + b) == walk_up(decks, walk_up(decks, x, a), b),
    decreases b,
{
    if b > 0 {
        lemma_walk_compose(decks, x, a, (b - 1) as nat);
        assert((a + b - 1) as nat == a + (b - 1) as nat);
    }
}

proof fn lemma_end_stays(decks: Seq<(Seq<char>, Option<Seq<char>>)>, x: Seq<char>, f: nat, g: nat)
    requires
        ends_within(decks, x, f),
        f <= g,
    ensures
        ends_within(decks, x, g),
        walk_up(decks, x, g) == walk_up(decks, x, f),
    decreases g - f,
{
    if f < g {
        lemma_end_stays(decks, x, f, (g - 1) as nat);
    }
}

/// The first step at which the walk from `x` ends.
proof fn lemma_first_end(decks: Seq<(Seq<char>, Option<Seq<char>>)>, x: Seq<char>, f: nat) -> (m: nat)
    requires
        ends_within(decks, x, f),
    ensures
        m <= f,
        ends_within(decks, x, m),
        forall|j: nat| j < m ==> !#[trigger] ends_within(decks, x, j),
    decreases f,
{
    if f > 0 && ends_within(decks, x, (f - 1) as nat) {
        lemma_first_end(decks, x, (f - 1) as nat)
    } else {
        assert forall|j: nat| j < f implies !#[trigger] ends_within(decks, x, j) by {
            if ends_within(decks, x, j) {
                lemma_end_stays(decks, x, j, (f - 1) as nat);
            }
        }
        f
    }
}

/// Up to its first end, a walk never comes back to a deck it has passed.
proof fn lemma_walk_distinct(decks: Seq<(Seq<char>, Option<Seq<char>>)>, x: Seq<char>, m: nat, i: nat, j: nat)
    requires
        ends_within(decks, x, m),
        forall|k: nat| k < m ==> !#[trigger] ends_within(decks, x, k),
        i < j <= m,
    ensures
        walk_up(decks, x, i) != walk_up(decks, x, j),
{
    if walk_up(decks, x, i) == walk_up(decks, x, j) {
        let t = (m - j) as nat;
        lemma_walk_compose(decks, x, i, t);
        lemma_walk_compose(decks, x, j, t);
        assert(j + t == m);
        assert(ends_within(decks, x, i + t));
    }
}

proof fn lemma_stored_index(decks: Seq<(Seq<char>, Option<Seq<char>>)>, y: Seq<char>)
    requires
        parent_lookup(decks, y) is Some,
    ensures
        decks.map_values(|e: (Seq<char>, Option<Seq<char>>)| e.0).contains(y),
    decreases decks.len(),
{
    let ids = decks.map_values(|e: (Seq<char>, Option<Seq<char>>)| e.0);
    if decks.last().0 == y {
        assert(ids[decks.len() - 1] == y);
    } else {
        lemma_stored_index(decks.drop_last(), y);
        let rest = decks.drop_last().map_values(|e: (Seq<char>, Option<Seq<char>>)| e.0);
        let k = choose|k: int| 0 <= k < rest.len() && rest[k] == y;
        assert(ids[k] == y);
    }
}

/// A walk that passes only stored decks up to step `k` has taken fewer
/// steps than there are decks.
proof fn lemma_walk_fits(decks: Seq<(Seq<char>, Option<Seq<char>>)>, x: Seq<char>, m: nat, k: nat)
    requires
        ends_within(decks, x, m),
        forall|j: nat| j < m ==> !#[trigger] ends_within(decks, x, j),
        k <= m,
        parent_lookup(decks, walk_up(decks, x, k)) is Some,
    ensures
        k < decks.len(),
{
    let nodes = Seq::new((k + 1) as nat, |i: int| walk_up(decks, x, i as nat));
    let ids = decks.map_values(|e: (Seq<char>, Option<Seq<char>>)| e.0);
    assert forall|a: int, b: int| 0 <= a < nodes.len() && 0 <= b < nodes.len() && a != b implies nodes[a] != nodes[b] by {
        if a < b {
            lemma_walk_distinct(decks, x, m, a as nat, b as nat);
        } else {
            lemma_walk_distinct(decks, x, m, b as nat, a as nat);
        }
    }
    nodes.unique_seq_to_set();
    assert forall|y: Seq<char>| nodes.to_set().contains(y) implies ids.to_set().contains(y) by {
        let a = choose|a: int| 0 <= a < nodes.len() && nodes[a] == y;
        if (a as nat) < k {
            assert(!ends_within(decks, x, a as nat));
        }
        lemma_stored_index(decks, y);
    }
    vstd::seq_lib::seq_to_set_is_finite(ids);
    vstd::set_lib::lemma_len_subset(nodes.to_set(), ids.to_set());
    ids.lemma_cardinality_of_set();
}

/// A walk from `x` that reaches the stored deck `root` within fewer than
/// `fuel` steps puts `x` in the subtree of `root`.
proof fn lemma_walk_in_subtree(
    decks: Seq<(Seq<char>, Option<Seq<char>>)>,
    root: Seq<char>,
    x: Seq<char>,
    k: nat,
    fuel: nat,
)
    requires
        forall|j: nat| j < k ==> parent_step(decks, #[trigger] walk_up(decks, x, j)) is Some,
        walk_up(decks, x, k) == root,
        parent_lookup(decks, root) is Some,
        k < fuel,
    ensures
        in_subtree(decks, root, x, fuel),
    decreases k,
{
    if k > 0 && x != root {
        assert(parent_step(decks, walk_up(decks, x, 0)) is Some);
        let p = parent_step(decks, x)->0;
        assert forall|j: nat| j < (k - 1) as nat implies parent_step(decks, #[trigger] walk_up(decks, p, j)) is Some by {
            lemma_walk_shift(decks, x, p, j);
            assert(parent_step(decks, walk_up(decks, x, j + 1)) is Some);
        }
        lemma_walk_shift(decks, x, p, (k - 1) as nat);
        lemma_walk_in_subtree(decks, root, p, (k - 1) as nat, (fuel - 1) as nat);
    }
}

/// Where a walk does not pass `d`, moving `d` does not change it.
proof fn lemma_walk_unmoved(
    decks: Seq<(Seq<char>, Option<Seq<char>>)>,
    d: Seq<char>,
    p: Option<Seq<char>>,
    x: Seq<char>,
    n: nat,
)
    requires
        forall|j: nat| j < n ==> #[trigger] walk_up(decks, x, j) != d,
    ensures
        walk_up(with_parent(decks, d, p), x, n) == walk_up(decks, x, n),
    decreases n,
{
    if n > 0 {
        let y = walk_up(decks, x, (n - 1) as nat);
        lemma_walk_unmoved(decks, d, p, x, (n - 1) as nat);
        lemma_with_parent_lookup(decks, d, p, y);
    }
}

proof fn lemma_moved_walk_ends(
    decks: Seq<(Seq<char>, Option<Seq<char>>)>,
    d: Seq<char>,
    p: Option<Seq<char>>,
    x: Seq<char>,
)
    requires
        is_forest(decks),
        spec_validate_parent(decks, d, p) is Ok,
    ensures
        parents_end(with_parent(decks, d, p), x),
{
    let nd = with_parent(decks, d, p);
    assert(parents_end(decks, x));
    let f = choose|f: nat| ends_within(decks, x, f);
    let m = lemma_first_end(decks, x, f);
    if exists|k: nat| k <= m && #[trigger] walk_up(decks, x, k) == d {
        let k = choose|k: nat| k <= m && #[trigger] walk_up(decks, x, k) == d;
        assert forall|j: nat| j < k implies #[trigger] walk_up(decks, x, j) != d by {
            lemma_walk_distinct(decks, x, m, j, k);
        }
        lemma_walk_unmoved(decks, d, p, x, k);
        lemma_with_parent_lookup(decks, d, p, d);
        match p {
            None => {
                assert(ends_within(nd, x, k));
            },
            Some(q) => {
                if parent_lookup(decks, d) is None {
                    assert(ends_within(nd, x, k));
                } else {
                    assert(parents_end(decks, q));
                    let fq = choose|fq: nat| ends_within(decks, q, fq);
                    let mq = lemma_first_end(decks, q, fq);
                    assert forall|j: nat| j <= mq implies #[trigger] walk_up(decks, q, j) != d by {
                        if walk_up(decks, q, j) == d {
                            lemma_walk_fits(decks, q, mq, j);
                            assert forall|i: nat| i < j implies parent_step(decks, #[trigger] walk_up(decks, q, i)) is Some by {
                                assert(!ends_within(decks, q, i));
                            }
                            lemma_walk_in_subtree(decks, d, q, j, decks.len() as nat);
                        }
                    }
                    lemma_walk_unmoved(decks, d, p, q, mq);
                    let z = walk_up(decks, q, mq);
                    lemma_with_parent_lookup(decks, d, p, z);
                    assert(ends_within(nd, q, mq));
                    assert(walk_up(nd, x, k + 1) == q);
                    lemma_walk_compose(nd, x, k + 1, mq);
                    assert(ends_within(nd, x, k + 1 + mq));
                }
            },
        }
    } else {
        lemma_walk_unmoved(decks, d, p, x, m);
        lemma_with_parent_lookup(decks, d, p, walk_up(decks, x, m));
        assert(ends_within(nd, x, m));
    }
}

/// Moving a deck to a parent that `validate_parent` accepts keeps the decks
/// a forest: if every chain of parents came to an end before the move,
/// every chain still does after it.
pub proof fn law_valid_move_keeps_forest(
    decks: Seq<(Seq<char>, Option<Seq<char>>)>,
    deck_id: Seq<char>,
    parent_id: Option<Seq<char>>,
)
    requires
        is_forest(decks),
        spec_validate_parent(decks, deck_id, parent_id) is Ok,
    ensures
        is_forest(with_parent(decks, deck_id, parent_id)),
{
    assert forall|x: Seq<char>| #[trigger] parents_end(with_parent(decks, deck_id, parent_id), x) by {
        lemma_moved_walk_ends(decks, deck_id, parent_id, x);
    }
}

} // verus!
