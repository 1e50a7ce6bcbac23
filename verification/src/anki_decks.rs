//! Anki deck paths: `Parent::Child` (or `Parent\x1fChild`) names.
use vstd::prelude::*;
use crate::text::{chars_of, contains, contains_exec, split, split_vec, string_of, trim, trim_vec, views};

verus! {

/// The pieces trimmed, empty ones dropped.
pub open spec fn trimmed_nonempty(pieces: Seq<Seq<char>>) -> Seq<Seq<char>>
    decreases pieces.len(),
{
    if pieces.len() == 0 {
        Seq::empty()
    } else {
        let rest = trimmed_nonempty(pieces.drop_last());
        let t = trim(pieces.last());
        if t.len() > 0 {
            rest.push(t)
        } else {
            rest
        }
    }
}

/// The deck names along an Anki deck path: split at the unit separator
/// `\x1f` when the name has one, else at `::`; pieces trimmed and empty
/// ones dropped. A name with neither is one deck (trimmed, even if empty).
pub open spec fn spec_split_anki_deck_path(name: Seq<char>) -> Seq<Seq<char>> {
    if contains(name, seq!['\u{1f}']) {
        trimmed_nonempty(split(name, seq!['\u{1f}']))
    } else if contains(name, "::"@) {
        trimmed_nonempty(split(name, "::"@))
    } else {
        seq![trim(name)]
    }
}

pub open spec fn strings_view(v: Seq<String>) -> Seq<Seq<char>> {
    v.map_values(|s: String| s@)
}

pub fn trimmed_nonempty_exec(pieces: &Vec<Vec<char>>) -> (r: Vec<String>)
    ensures
        strings_view(r@) == trimmed_nonempty(views(pieces@)),
{
    let mut out: Vec<String> = Vec::new();
    let mut i: usize = 0;
    while i < pieces.len()
        invariant
            i <= pieces.len(),
            strings_view(out@) == trimmed_nonempty(views(pieces@).take(i as int)),
        decreases pieces.len() - i,
    {
        proof {
            let pv = views(pieces@);
            assert(pv.take(i + 1).drop_last() =~= pv.take(i as int));
            assert(pv.take(i + 1).last() == pieces@[i as int]@);
        }
        let t = trim_vec(&pieces[i]);
        if t.len() > 0 {
            let ghost before = strings_view(out@);
            out.push(string_of(&t));
            assert(strings_view(out@) =~= before.push(t@));
        }
        i += 1;
    }
    assert(views(pieces@).take(pieces.len() as int) =~= views(pieces@));
    out
}

pub fn split_anki_deck_path(name: &str) -> (r: Vec<String>)
    ensures
        strings_view(r@) == spec_split_anki_deck_path(name@),
{
    let n = chars_of(name);
    let mut us: Vec<char> = Vec::new();
    us.push('\u{1f}');
    assert(us@ =~= seq!['\u{1f}']);
    if contains_exec(&n, &us) {
        let pieces = split_vec(&n, &us);
        return trimmed_nonempty_exec(&pieces);
    }
    let dc = chars_of("::");
    proof {
        reveal_strlit("::");
    }
    if contains_exec(&n, &dc) {
        let pieces = split_vec(&n, &dc);
        return trimmed_nonempty_exec(&pieces);
    }
    let t = trim_vec(&n);
    let mut out: Vec<String> = Vec::new();
    out.push(string_of(&t));
    assert(strings_view(out@) =~= seq![t@]);
    out
}

/// The key under which a deck path is cached: the segments so far joined
/// by `/` (no `/` after a key that is still empty).
pub open spec fn path_key(segments: Seq<Seq<char>>) -> Seq<char>
    decreases segments.len(),
{
    if segments.len() == 0 {
        Seq::empty()
    } else {
        let k = path_key(segments.drop_last());
        if k.len() > 0 {
            k + "/"@ + segments.last()
        } else {
            segments.last()
        }
    }
}

/// The cache keys of every prefix of a deck path, shortest first (what the
/// importer looks up, segment by segment, before creating a deck).
pub fn path_keys(segments: &Vec<String>) -> (r: Vec<String>)
    ensures
        r@.len() == segments@.len(),
        forall|i: int| 0 <= i < r@.len() ==> #[trigger] r@[i]@ == path_key(strings_view(segments@).take(i + 1)),
{
    let mut out: Vec<String> = Vec::new();
    let mut key: Vec<char> = Vec::new();
    let mut i: usize = 0;
    while i < segments.len()
        invariant
            i <= segments.len(),
            out@.len() == i,
            key@ == path_key(strings_view(segments@).take(i as int)),
            forall|j: int| 0 <= j < i ==> #[trigger] out@[j]@ == path_key(strings_view(segments@).take(j + 1)),
        decreases segments.len() - i,
    {
        let ghost sv = strings_view(segments@);
        if key.len() > 0 {
            key.push('/');
        }
        let seg = chars_of(segments[i].as_str());
        crate::text::push_all(&mut key, &seg);
        proof {
            reveal_strlit("/");
            assert(sv.take(i + 1).drop_last() =~= sv.take(i as int));
            assert(sv.take(i + 1).last() == segments@[i as int]@);
        }
        assert(key@ == path_key(sv.take(i + 1)));
        out.push(string_of(&key));
        i += 1;
    }
    out
}

} // verus!
