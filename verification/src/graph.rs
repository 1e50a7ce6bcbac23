//! The knowledge graph: entities, relation types and triples, the mind map
//! drawn around one entity, and the cards suggested from uncovered triples.
use vstd::prelude::*;
use crate::text::{chars_of, join_str, lowercase, owned, spec_lowercase, spec_upper_char, string_of, trim, trim_vec, upper_char};

verus! {

// ---------------------------------------------------------------------------
// Records
// ---------------------------------------------------------------------------

pub struct Entity {
    pub id: String,
    pub name: String,
    pub entity_type: Option<String>,
    pub description: String,
    pub created_at: i64,
    pub tags: Vec<String>,
}

pub struct CreateEntityInput {
    pub name: String,
    pub entity_type: Option<String>,
    pub description: Option<String>,
    pub tags: Option<Vec<String>>,
}

pub struct UpdateEntityInput {
    pub id: String,
    pub name: Option<String>,
    pub entity_type: Option<String>,
    pub description: Option<String>,
    pub tags: Option<Vec<String>>,
}

pub struct RelationType {
    pub id: String,
    pub name: String,
    pub inverse_name: Option<String>,
    pub created_at: i64,
    pub tags: Vec<String>,
}

pub struct CreateRelationTypeInput {
    pub name: String,
    pub inverse_name: Option<String>,
    pub tags: Option<Vec<String>>,
}

pub struct Triple {
    pub id: String,
    pub subject_id: String,
    pub relation_type_id: String,
    pub object_id: String,
    pub created_at: i64,
    pub subject_name: String,
    pub relation_name: String,
    pub object_name: String,
}

pub struct CreateTripleInput {
    pub subject_id: String,
    pub relation_type_id: String,
    pub object_id: String,
}

pub struct BatchCreateTriplesInput {
    pub subject_id: String,
    pub relation_type_id: String,
    pub object_ids: Vec<String>,
}

pub struct UpdateTripleInput {
    pub id: String,
    pub subject_id: Option<String>,
    pub relation_type_id: Option<String>,
    pub object_id: Option<String>,
}

pub struct EreReviewEntity {
    pub entity_id: String,
    pub entity_name: String,
    pub due_count: i64,
}

pub open spec fn opt_str(o: Option<String>) -> Option<Seq<char>> {
    match o {
        Some(s) => Some(s@),
        None => None,
    }
}

// ---------------------------------------------------------------------------
// Entity types
// ---------------------------------------------------------------------------

/// An entity type as stored: trimmed, its first character uppercased and
/// the rest lowercased; empty when nothing is left after trimming.
pub open spec fn spec_normalize_type(t: Seq<char>) -> Seq<char> {
    let s = trim(t);
    if s.len() == 0 {
        Seq::empty()
    } else {
        spec_upper_char(s[0]) + spec_lowercase(s.drop_first())
    }
}

pub fn normalize_type(t: &str) -> (r: String)
    ensures
        r@ == spec_normalize_type(t@),
{
    let v = chars_of(t);
    let s = trim_vec(&v);
    if s.len() == 0 {
        proof {
            reveal_strlit("");
        }
        return owned("");
    }
    let first = upper_char(s[0]);
    let mut rest_v: Vec<char> = Vec::new();
    let mut i: usize = 1;
    while i < s.len()
        invariant
            1 <= i <= s.len(),
            rest_v@ == s@.subrange(1, i as int),
        decreases s.len() - i,
    {
        rest_v.push(s[i]);
        assert(s@.subrange(1, i + 1) =~= s@.subrange(1, i as int).push(s@[i as int]));
        i += 1;
    }
    assert(rest_v@ =~= s@.drop_first());
    let rest_s = string_of(&rest_v);
    let rest = lowercase(rest_s.as_str());
    join_str(first.as_str(), rest.as_str())
}

/// The type stored for an entity: the normalized type, or none when it
/// normalizes to nothing.
pub open spec fn spec_entity_type(t: Option<Seq<char>>) -> Option<Seq<char>> {
    match t {
        Some(s) => if spec_normalize_type(s).len() == 0 {
            None
        } else {
            Some(spec_normalize_type(s))
        },
        None => None,
    }
}

pub fn entity_type_of(t: Option<&str>) -> (r: Option<String>)
    ensures
        opt_str(r) == spec_entity_type(match t { Some(s) => Some(s@), None => None }),
{
    match t {
        None => None,
        Some(s) => {
            let n = normalize_type(s);
            let nv = chars_of(n.as_str());
            if nv.len() == 0 {
                None
            } else {
                Some(n)
            }
        },
    }
}

// ---------------------------------------------------------------------------
// Mind map
// ---------------------------------------------------------------------------

pub struct MindMapNode {
    pub id: String,
    pub label: String,
    /// "root", "relation" or "entity"
    pub node_type: String,
    pub entity_type: Option<String>,
    /// "reviewed", "due" or "none"
    pub card_status: String,
    pub triple_count: i64,
}

pub struct MindMapEdge {
    pub source: String,
    pub target: String,
}

pub struct MindMapData {
    pub nodes: Vec<MindMapNode>,
    pub edges: Vec<MindMapEdge>,
}

/// (id, label, node type, entity type, card status, triple count)
pub type NodeView = (Seq<char>, Seq<char>, Seq<char>, Option<Seq<char>>, Seq<char>, int);

pub type EdgeView = (Seq<char>, Seq<char>);

impl View for MindMapNode {
    type V = NodeView;

    open spec fn view(&self) -> NodeView {
        (self.id@, self.label@, self.node_type@, opt_str(self.entity_type), self.card_status@, self.triple_count as int)
    }
}

impl View for MindMapEdge {
    type V = EdgeView;

    open spec fn view(&self) -> EdgeView {
        (self.source@, self.target@)
    }
}

pub open spec fn nodes_view(v: Seq<MindMapNode>) -> Seq<NodeView> {
    v.map_values(|n: MindMapNode| n@)
}

pub open spec fn edges_view(v: Seq<MindMapEdge>) -> Seq<EdgeView> {
    v.map_values(|e: MindMapEdge| e@)
}

/// A triple with the entity as its subject, as read for the mind map,
/// with the card status of the triple.
pub struct OutgoingTriple {
    pub relation_type_id: String,
    pub relation_name: String,
    pub object_id: String,
    pub object_name: String,
    pub object_type: Option<String>,
    pub triple_id: String,
    pub card_status: String,
}

/// A triple with the entity as its object.
pub struct IncomingTriple {
    pub relation_type_id: String,
    pub relation_name: String,
    pub inverse_name: Option<String>,
    pub subject_id: String,
    pub subject_name: String,
    pub subject_type: Option<String>,
    pub triple_id: String,
    pub card_status: String,
}

/// The card status of a triple from the number of its cards and of those
/// due (`None` when the count could not be read).
pub open spec fn spec_card_status(counts: Option<(i64, i64)>) -> Seq<char> {
    match counts {
        Some((total, due)) => if total > 0 && due > 0 {
            "due"@
        } else if total > 0 {
            "reviewed"@
        } else {
            "none"@
        },
        None => "none"@,
    }
}

pub fn card_status(counts: Option<(i64, i64)>) -> (r: String)
    ensures
        r@ == spec_card_status(counts),
{
    match counts {
        Some((total, due)) => {
            if total > 0 && due > 0 {
                owned("due")
            } else if total > 0 {
                owned("reviewed")
            } else {
                owned("none")
            }
        },
        None => owned("none"),
    }
}

/// Nodes, edges, relation nodes placed, entity nodes placed.
pub type MapState = (Seq<NodeView>, Seq<EdgeView>, Seq<Seq<char>>, Seq<Seq<char>>);

pub open spec fn count_out(rows: Seq<OutgoingTriple>, rt: Seq<char>) -> nat
    decreases rows.len(),
{
    if rows.len() == 0 {
        0
    } else {
        count_out(rows.drop_last(), rt) + if rows.last().relation_type_id@ == rt { 1nat } else { 0nat }
    }
}

pub open spec fn count_in(rows: Seq<IncomingTriple>, rt: Seq<char>) -> nat
    decreases rows.len(),
{
    if rows.len() == 0 {
        0
    } else {
        count_in(rows.drop_last(), rt) + if rows.last().relation_type_id@ == rt { 1nat } else { 0nat }
    }
}

/// One relation node per relation type (linked from the root, counting the
/// triples of that type), one entity node per entity the first time it
/// shows up, and an edge from the relation node to the entity.
pub open spec fn link_step(
    st: MapState,
    root: Seq<char>,
    rel: Seq<char>,
    rel_label: Seq<char>,
    count: int,
    ent: Seq<char>,
    ent_label: Seq<char>,
    ent_type: Option<Seq<char>>,
    status: Seq<char>,
) -> MapState {
    let st1 = if st.2.contains(rel) {
        st
    } else {
        (st.0.push((rel, rel_label, "relation"@, None, "none"@, count)), st.1.push((root, rel)), st.2.push(rel), st.3)
    };
    let st2 = if st1.3.contains(ent) {
        st1
    } else {
        (st1.0.push((ent, ent_label, "entity"@, ent_type, status, 0int)), st1.1, st1.2, st1.3.push(ent))
    };
    (st2.0, st2.1.push((rel, ent)), st2.2, st2.3)
}

pub open spec fn out_node_id(rt: Seq<char>) -> Seq<char> {
    "rel_out_"@ + rt
}

pub open spec fn in_node_id(rt: Seq<char>) -> Seq<char> {
    "rel_in_"@ + rt
}

/// The label of an incoming relation: its inverse name, else "(inv) " and
/// its name.
pub open spec fn in_label(r: IncomingTriple) -> Seq<char> {
    match r.inverse_name {
        Some(n) => n@,
        None => "(inv) "@ + r.relation_name@,
    }
}

pub open spec fn out_fold(st: MapState, root: Seq<char>, rows: Seq<OutgoingTriple>, k: nat) -> MapState
    decreases k,
{
    if k == 0 || k > rows.len() {
        st
    } else {
        let r = rows[k - 1];
        link_step(
            out_fold(st, root, rows, (k - 1) as nat),
            root,
            out_node_id(r.relation_type_id@),
            r.relation_name@,
            count_out(rows, r.relation_type_id@) as int,
            r.object_id@,
            r.object_name@,
            opt_str(r.object_type),
            r.card_status@,
        )
    }
}

pub open spec fn in_fold(st: MapState, root: Seq<char>, rows: Seq<IncomingTriple>, k: nat) -> MapState
    decreases k,
{
    if k == 0 || k > rows.len() {
        st
    } else {
        let r = rows[k - 1];
        link_step(
            in_fold(st, root, rows, (k - 1) as nat),
            root,
            in_node_id(r.relation_type_id@),
            in_label(r),
            count_in(rows, r.relation_type_id@) as int,
            r.subject_id@,
            r.subject_name@,
            opt_str(r.subject_type),
            r.card_status@,
        )
    }
}

/// The mind map of an entity: the root, then the outgoing triples, then the
/// incoming ones.
pub open spec fn spec_mindmap(
    root: Seq<char>,
    root_name: Seq<char>,
    root_type: Option<Seq<char>>,
    out_rows: Seq<OutgoingTriple>,
    in_rows: Seq<IncomingTriple>,
) -> MapState {
    let init: MapState = (seq![(root, root_name, "root"@, root_type, "none"@, 0int)], Seq::empty(), Seq::empty(), Seq::empty());
    in_fold(out_fold(init, root, out_rows, out_rows.len()), root, in_rows, in_rows.len())
}

fn contains_str(pool: &Vec<String>, v: &String) -> (b: bool)
    ensures
        b == pool@.map_values(|s: String| s@).contains(v@),
{
    let ghost pv = pool@.map_values(|s: String| s@);
    let mut k: usize = 0;
    while k < pool.len()
        invariant
            k <= pool.len(),
            pv == pool@.map_values(|s: String| s@),
            forall|j: int| 0 <= j < k ==> pv[j] != v@,
        decreases pool.len() - k,
    {
        if pool[k] == *v {
            assert(pv[k as int] == v@);
            return true;
        }
        k += 1;
    }
    assert(!pv.contains(v@)) by {
        if pv.contains(v@) {
            let j = choose|j: int| 0 <= j < pv.len() && pv[j] == v@;
            assert(pv[j] != v@);
        }
    }
    false
}

fn count_out_exec(rows: &Vec<OutgoingTriple>, rt: &String) -> (n: usize)
    ensures
        n as nat == count_out(rows@, rt@),
        n <= rows@.len(),
{
    let mut n: usize = 0;
    let mut j: usize = 0;
    while j < rows.len()
        invariant
            j <= rows.len(),
            n <= j,
            n as nat == count_out(rows@.take(j as int), rt@),
        decreases rows.len() - j,
    {
        assert(rows@.take(j + 1).drop_last() =~= rows@.take(j as int));
        if rows[j].relation_type_id == *rt {
            n += 1;
        }
        j += 1;
    }
    assert(rows@.take(rows.len() as int) =~= rows@);
    n
}

fn count_in_exec(rows: &Vec<IncomingTriple>, rt: &String) -> (n: usize)
    ensures
        n as nat == count_in(rows@, rt@),
        n <= rows@.len(),
{
    let mut n: usize = 0;
    let mut j: usize = 0;
    while j < rows.len()
        invariant
            j <= rows.len(),
            n <= j,
            n as nat == count_in(rows@.take(j as int), rt@),
        decreases rows.len() - j,
    {
        assert(rows@.take(j + 1).drop_last() =~= rows@.take(j as int));
        if rows[j].relation_type_id == *rt {
            n += 1;
        }
        j += 1;
    }
    assert(rows@.take(rows.len() as int) =~= rows@);
    n
}

pub open spec fn state_of(nodes: Seq<MindMapNode>, edges: Seq<MindMapEdge>, rels: Seq<String>, ents: Seq<String>) -> MapState {
    (nodes_view(nodes), edges_view(edges), rels.map_values(|s: String| s@), ents.map_values(|s: String| s@))
}

/// Applies one link step to the vectors that hold the map.
fn apply_link(
    nodes: &mut Vec<MindMapNode>,
    edges: &mut Vec<MindMapEdge>,
    rels: &mut Vec<String>,
    ents: &mut Vec<String>,
    root: &String,
    rel: String,
    rel_label: String,
    count: i64,
    ent: &String,
    ent_label: &String,
    ent_type: &Option<String>,
    status: &String,
)
    ensures
        state_of(final(nodes)@, final(edges)@, final(rels)@, final(ents)@) == link_step(
            state_of(old(nodes)@, old(edges)@, old(rels)@, old(ents)@),
            root@,
            rel@,
            rel_label@,
            count as int,
            ent@,
            ent_label@,
            opt_str(*ent_type),
            status@,
        ),
{
    let ghost st = state_of(nodes@, edges@, rels@, ents@);
    if !contains_str(rels, &rel) {
        let n = MindMapNode {
            id: rel.clone(),
            label: rel_label,
            node_type: owned("relation"),
            entity_type: None,
            card_status: owned("none"),
            triple_count: count,
        };
        let ghost nv = n@;
        nodes.push(n);
        edges.push(MindMapEdge { source: root.clone(), target: rel.clone() });
        rels.push(rel.clone());
        proof {
            assert(nodes_view(nodes@) =~= st.0.push(nv));
            assert(edges_view(edges@) =~= st.1.push((root@, rel@)));
            assert(rels@.map_values(|s: String| s@) =~= st.2.push(rel@));
        }
    }
    let ghost st1 = state_of(nodes@, edges@, rels@, ents@);
    if !contains_str(ents, ent) {
        let n = MindMapNode {
            id: ent.clone(),
            label: ent_label.clone(),
            node_type: owned("entity"),
            entity_type: ent_type.clone(),
            card_status: status.clone(),
            triple_count: 0,
        };
        let ghost nv = n@;
        nodes.push(n);
        ents.push(ent.clone());
        proof {
            assert(nodes_view(nodes@) =~= st1.0.push(nv));
            assert(ents@.map_values(|s: String| s@) =~= st1.3.push(ent@));
        }
    }
    let ghost st2 = state_of(nodes@, edges@, rels@, ents@);
    edges.push(MindMapEdge { source: rel, target: ent.clone() });
    assert(edges_view(edges@) =~= st2.1.push((rel@, ent@)));
}

fn clone_opt(o: &Option<String>) -> (r: Option<String>)
    ensures
        opt_str(r) == opt_str(*o),
{
    match o {
        Some(s) => Some(s.clone()),
        None => None,
    }
}

/// The mind map around one entity, from its name and type and the triples
/// that lead out of it and into it (each with its card status).
pub fn build_mindmap(
    entity_id: &String,
    root_name: &String,
    root_type: &Option<String>,
    out_rows: &Vec<OutgoingTriple>,
    in_rows: &Vec<IncomingTriple>,
) -> (r: MindMapData)
    requires
        out_rows@.len() <= i64::MAX,
        in_rows@.len() <= i64::MAX,
    ensures
        (nodes_view(r.nodes@), edges_view(r.edges@)) == ({
            let st = spec_mindmap(entity_id@, root_name@, opt_str(*root_type), out_rows@, in_rows@);
            (st.0, st.1)
        }),
{
    let mut nodes: Vec<MindMapNode> = Vec::new();
    let mut edges: Vec<MindMapEdge> = Vec::new();
    let mut rels: Vec<String> = Vec::new();
    let mut ents: Vec<String> = Vec::new();
    let root_node = MindMapNode {
        id: entity_id.clone(),
        label: root_name.clone(),
        node_type: owned("root"),
        entity_type: clone_opt(root_type),
        card_status: owned("none"),
        triple_count: 0,
    };
    let ghost rn = root_node@;
    nodes.push(root_node);
    let ghost init: MapState = (seq![(entity_id@, root_name@, "root"@, opt_str(*root_type), "none"@, 0int)], Seq::empty(), Seq::empty(), Seq::empty());
    assert(state_of(nodes@, edges@, rels@, ents@) =~= init);
    let mut i: usize = 0;
    while i < out_rows.len()
        invariant
            i <= out_rows.len(),
            out_rows@.len() <= i64::MAX,
            state_of(nodes@, edges@, rels@, ents@) == out_fold(init, entity_id@, out_rows@, i as nat),
        decreases out_rows.len() - i,
    {
        let r = &out_rows[i];
        let rel = join_str("rel_out_", r.relation_type_id.as_str());
        let c = count_out_exec(out_rows, &r.relation_type_id);
        apply_link(
            &mut nodes, &mut edges, &mut rels, &mut ents, entity_id, rel, r.relation_name.clone(), c as i64,
            &r.object_id, &r.object_name, &r.object_type, &r.card_status,
        );
        i += 1;
    }
    let ghost mid = out_fold(init, entity_id@, out_rows@, out_rows@.len());
    let mut k: usize = 0;
    while k < in_rows.len()
        invariant
            k <= in_rows.len(),
            in_rows@.len() <= i64::MAX,
            state_of(nodes@, edges@, rels@, ents@) == in_fold(mid, entity_id@, in_rows@, k as nat),
        decreases in_rows.len() - k,
    {
        let r = &in_rows[k];
        let rel = join_str("rel_in_", r.relation_type_id.as_str());
        let label = match &r.inverse_name {
            Some(n) => n.clone(),
            None => join_str("(inv) ", r.relation_name.as_str()),
        };
        let c = count_in_exec(in_rows, &r.relation_type_id);
        apply_link(
            &mut nodes, &mut edges, &mut rels, &mut ents, entity_id, rel, label, c as i64,
            &r.subject_id, &r.subject_name, &r.subject_type, &r.card_status,
        );
        k += 1;
    }
    MindMapData { nodes, edges }
}

// ---------------------------------------------------------------------------
// Card suggestions
// ---------------------------------------------------------------------------

/// A triple not yet on any card, with the names around it.
pub struct TripleRow {
    pub triple_id: String,
    pub subject_id: String,
    pub relation_type_id: String,
    pub object_id: String,
    pub subject_name: String,
    pub relation_name: String,
    pub inverse_name: Option<String>,
    pub object_name: String,
}

pub struct CardSuggestion {
    pub triple_ids: Vec<String>,
    pub front: String,
    pub back: String,
    /// "forward" or "reverse"
    pub suggestion_type: String,
}

/// (triple ids, front, back, type)
pub type SuggestionView = (Seq<Seq<char>>, Seq<char>, Seq<char>, Seq<char>);

impl View for CardSuggestion {
    type V = SuggestionView;

    open spec fn view(&self) -> SuggestionView {
        (self.triple_ids@.map_values(|s: String| s@), self.front@, self.back@, self.suggestion_type@)
    }
}

pub open spec fn suggestions_view(v: Seq<CardSuggestion>) -> Seq<SuggestionView> {
    v.map_values(|c: CardSuggestion| c@)
}

/// Two rows fall in one group: the same subject and relation (forward), or
/// the same object and relation (reverse).
pub open spec fn same_group(a: TripleRow, b: TripleRow, reverse: bool) -> bool {
    a.relation_type_id@ == b.relation_type_id@ && if reverse {
        a.object_id@ == b.object_id@
    } else {
        a.subject_id@ == b.subject_id@
    }
}

/// The rows of the group that `r` belongs to, in order.
pub open spec fn group_of(rows: Seq<TripleRow>, r: TripleRow, reverse: bool) -> Seq<TripleRow>
    decreases rows.len(),
{
    if rows.len() == 0 {
        Seq::empty()
    } else if same_group(rows.last(), r, reverse) {
        group_of(rows.drop_last(), r, reverse).push(rows.last())
    } else {
        group_of(rows.drop_last(), r, reverse)
    }
}

/// Row `i` is the first of its group.
pub open spec fn opens_group(rows: Seq<TripleRow>, i: int, reverse: bool) -> bool {
    forall|j: int| 0 <= j < i ==> !same_group(#[trigger] rows[j], rows[i], reverse)
}

/// The parts joined with `sep` between them.
pub open spec fn join_sep(parts: Seq<Seq<char>>, sep: Seq<char>) -> Seq<char>
    decreases parts.len(),
{
    if parts.len() == 0 {
        Seq::empty()
    } else if parts.len() == 1 {
        parts[0]
    } else {
        join_sep(parts.drop_last(), sep) + sep + parts.last()
    }
}

pub open spec fn member_name(r: TripleRow, reverse: bool) -> Seq<char> {
    if reverse {
        r.subject_name@
    } else {
        r.object_name@
    }
}

/// The card suggested for the group that row `r` opens: forward, "What
/// <relation> does <subject> have?" answered by the objects; reverse,
/// "<object> <inverse> which?" answered by the subjects.
pub open spec fn suggestion_for(rows: Seq<TripleRow>, r: TripleRow, reverse: bool) -> SuggestionView {
    let g = group_of(rows, r, reverse);
    (
        g.map_values(|x: TripleRow| x.triple_id@),
        if reverse {
            r.object_name@ + " "@ + (match r.inverse_name {
                Some(n) => n@,
                None => "relates to"@,
            }) + " which?"@
        } else {
            "What "@ + r.relation_name@ + " does "@ + r.subject_name@ + " have?"@
        },
        join_sep(g.map_values(|x: TripleRow| member_name(x, reverse)), ", "@),
        if reverse {
            "reverse"@
        } else {
            "forward"@
        },
    )
}

/// One suggestion per group, in the order the groups first show up among
/// the first `k` rows.
pub open spec fn suggestions_upto(rows: Seq<TripleRow>, k: nat, reverse: bool) -> Seq<SuggestionView>
    decreases k,
{
    if k == 0 || k > rows.len() {
        Seq::empty()
    } else {
        let rest = suggestions_upto(rows, (k - 1) as nat, reverse);
        if opens_group(rows, k - 1, reverse) {
            rest.push(suggestion_for(rows, rows[k - 1], reverse))
        } else {
            rest
        }
    }
}

/// The rows whose relation has an inverse name, in order.
pub open spec fn with_inverse(rows: Seq<TripleRow>) -> Seq<TripleRow>
    decreases rows.len(),
{
    if rows.len() == 0 {
        Seq::empty()
    } else if rows.last().inverse_name is Some {
        with_inverse(rows.drop_last()).push(rows.last())
    } else {
        with_inverse(rows.drop_last())
    }
}

/// Forward suggestions for every group of subject and relation, then
/// reverse ones for every group of object and relation that has an inverse
/// name; groups in the order they first show up.
pub open spec fn spec_suggest_cards(rows: Seq<TripleRow>) -> Seq<SuggestionView> {
    suggestions_upto(rows, rows.len(), false) + suggestions_upto(with_inverse(rows), with_inverse(rows).len(), true)
}

fn same_group_exec(a: &TripleRow, b: &TripleRow, reverse: bool) -> (r: bool)
    ensures
        r == same_group(*a, *b, reverse),
{
    a.relation_type_id == b.relation_type_id && if reverse {
        a.object_id == b.object_id
    } else {
        a.subject_id == b.subject_id
    }
}

fn clone_row(r: &TripleRow) -> (c: TripleRow)
    ensures
        c == *r,
{
    TripleRow {
        triple_id: r.triple_id.clone(),
        subject_id: r.subject_id.clone(),
        relation_type_id: r.relation_type_id.clone(),
        object_id: r.object_id.clone(),
        subject_name: r.subject_name.clone(),
        relation_name: r.relation_name.clone(),
        inverse_name: match &r.inverse_name {
            Some(n) => Some(n.clone()),
            None => None,
        },
        object_name: r.object_name.clone(),
    }
}

/// The suggestion for the group that row `i` opens.
fn suggestion_exec(rows: &Vec<TripleRow>, i: usize, reverse: bool) -> (s: CardSuggestion)
    requires
        i < rows@.len(),
        reverse ==> rows@[i as int].inverse_name is Some,
    ensures
        s@ == suggestion_for(rows@, rows@[i as int], reverse),
{
    let r = &rows[i];
    let mut ids: Vec<String> = Vec::new();
    let mut back: Vec<char> = Vec::new();
    let ghost sep = ", "@;
    let mut j: usize = 0;
    while j < rows.len()
        invariant
            j <= rows.len(),
            i < rows@.len(),
            *r == rows@[i as int],
            ids@.map_values(|s: String| s@) == group_of(rows@.take(j as int), *r, reverse).map_values(|x: TripleRow| x.triple_id@),
            back@ == join_sep(group_of(rows@.take(j as int), *r, reverse).map_values(|x: TripleRow| member_name(x, reverse)), ", "@),
        decreases rows.len() - j,
    {
        let ghost g0 = group_of(rows@.take(j as int), *r, reverse);
        assert(rows@.take(j + 1).drop_last() =~= rows@.take(j as int));
        assert(rows@.take(j + 1).last() == rows@[j as int]);
        if same_group_exec(&rows[j], r, reverse) {
            let ghost g1 = g0.push(rows@[j as int]);
            assert(group_of(rows@.take(j + 1), *r, reverse) == g1);
            let ghost ids0 = ids@.map_values(|s: String| s@);
            let had = ids.len() > 0;
            assert(ids0.len() == ids@.len());
            assert(g0.map_values(|x: TripleRow| x.triple_id@).len() == g0.len());
            assert(had == (g0.len() > 0));
            ids.push(rows[j].triple_id.clone());
            assert(ids@.map_values(|s: String| s@) =~= ids0.push(rows@[j as int].triple_id@));
            assert(g1.map_values(|x: TripleRow| x.triple_id@) =~= g0.map_values(|x: TripleRow| x.triple_id@).push(rows@[j as int].triple_id@));
            let ghost names0 = g0.map_values(|x: TripleRow| member_name(x, reverse));
            let ghost names1 = g1.map_values(|x: TripleRow| member_name(x, reverse));
            assert(names1.drop_last() =~= names0);
            assert(names1.last() == member_name(rows@[j as int], reverse));
            let ghost back0 = back@;
            if had {
                crate::text::push_str(&mut back, ", ");
            }
            if reverse {
                crate::text::push_str(&mut back, rows[j].subject_name.as_str());
            } else {
                crate::text::push_str(&mut back, rows[j].object_name.as_str());
            }
            proof {
                if g0.len() > 0 {
                    assert(back@ =~= back0 + ", "@ + names1.last());
                } else {
                    assert(names1.len() == 1);
                    assert(back@ =~= names1[0]);
                }
            }
        }
        j += 1;
    }
    assert(rows@.take(rows.len() as int) =~= rows@);
    let front = if reverse {
        let inv = match &r.inverse_name {
            Some(n) => n.clone(),
            None => owned("relates to"),
        };
        let a = join_str(r.object_name.as_str(), " ");
        let b = join_str(a.as_str(), inv.as_str());
        join_str(b.as_str(), " which?")
    } else {
        let a = join_str("What ", r.relation_name.as_str());
        let b = join_str(a.as_str(), " does ");
        let c = join_str(b.as_str(), r.subject_name.as_str());
        join_str(c.as_str(), " have?")
    };
    let kind = if reverse {
        owned("reverse")
    } else {
        owned("forward")
    };
    CardSuggestion { triple_ids: ids, front, back: string_of(&back), suggestion_type: kind }
}

fn opens_group_exec(rows: &Vec<TripleRow>, i: usize, reverse: bool) -> (b: bool)
    requires
        i < rows@.len(),
    ensures
        b == opens_group(rows@, i as int, reverse),
{
    let mut j: usize = 0;
    while j < i
        invariant
            j <= i < rows@.len(),
            forall|k: int| 0 <= k < j ==> !same_group(#[trigger] rows@[k], rows@[i as int], reverse),
        decreases i - j,
    {
        if same_group_exec(&rows[j], &rows[i], reverse) {
            return false;
        }
        j += 1;
    }
    true
}

fn suggest_groups(rows: &Vec<TripleRow>, reverse: bool, out: &mut Vec<CardSuggestion>)
    requires
        reverse ==> forall|k: int| 0 <= k < rows@.len() ==> (#[trigger] rows@[k]).inverse_name is Some,
    ensures
        suggestions_view(final(out)@) == suggestions_view(old(out)@) + suggestions_upto(rows@, rows@.len(), reverse),
{
    let ghost base = suggestions_view(out@);
    let mut i: usize = 0;
    assert(suggestions_view(out@) =~= base + suggestions_upto(rows@, 0, reverse));
    while i < rows.len()
        invariant
            i <= rows.len(),
            reverse ==> forall|k: int| 0 <= k < rows@.len() ==> (#[trigger] rows@[k]).inverse_name is Some,
            suggestions_view(out@) == base + suggestions_upto(rows@, i as nat, reverse),
        decreases rows.len() - i,
    {
        if opens_group_exec(rows, i, reverse) {
            let s = suggestion_exec(rows, i, reverse);
            let ghost before = suggestions_view(out@);
            out.push(s);
            assert(suggestions_view(out@) =~= before.push(s@));
        }
        i += 1;
    }
}

/// Card suggestions from the triples that no card covers yet.
pub fn suggest_cards(rows: &Vec<TripleRow>) -> (r: Vec<CardSuggestion>)
    ensures
        suggestions_view(r@) == spec_suggest_cards(rows@),
{
    let mut out: Vec<CardSuggestion> = Vec::new();
    assert(suggestions_view(out@) =~= Seq::<SuggestionView>::empty());
    suggest_groups(rows, false, &mut out);
    let mut inv_rows: Vec<TripleRow> = Vec::new();
    let mut i: usize = 0;
    while i < rows.len()
        invariant
            i <= rows.len(),
            inv_rows@ == with_inverse(rows@.take(i as int)),
        decreases rows.len() - i,
    {
        assert(rows@.take(i + 1).drop_last() =~= rows@.take(i as int));
        assert(rows@.take(i + 1).last() == rows@[i as int]);
        if rows[i].inverse_name.is_some() {
            inv_rows.push(clone_row(&rows[i]));
        }
        i += 1;
    }
    assert(rows@.take(rows.len() as int) =~= rows@);
    proof {
        lemma_with_inverse_all(rows@);
    }
    suggest_groups(&inv_rows, true, &mut out);
    out
}

proof fn lemma_with_inverse_all(rows: Seq<TripleRow>)
    ensures
        forall|k: int| 0 <= k < with_inverse(rows).len() ==> (#[trigger] with_inverse(rows)[k]).inverse_name is Some,
    decreases rows.len(),
{
    if rows.len() > 0 {
        lemma_with_inverse_all(rows.drop_last());
    }
}

/// One step of the map: the relation node is placed when it is not there
/// yet, and no node already there changes.
proof fn lemma_link_step(
    st: MapState,
    root: Seq<char>,
    rel: Seq<char>,
    rel_label: Seq<char>,
    count: int,
    ent: Seq<char>,
    ent_label: Seq<char>,
    ent_type: Option<Seq<char>>,
    status: Seq<char>,
)
    ensures
        ({
            let r = link_step(st, root, rel, rel_label, count, ent, ent_label, ent_type, status);
            &&& r.2 == (if st.2.contains(rel) { st.2 } else { st.2.push(rel) })
            &&& r.0.len() >= st.0.len()
            &&& forall|m: int| 0 <= m < st.0.len() ==> #[trigger] r.0[m] == st.0[m]
            &&& !st.2.contains(rel) ==> r.0[st.0.len() as int] == (rel, rel_label, "relation"@, None::<Seq<char>>, "none"@, count)
        }),
{
}

/// The relation nodes placed while reading outgoing triples are all
/// `rel_out_...`.
proof fn lemma_out_relations(st0: MapState, root: Seq<char>, rows: Seq<OutgoingTriple>, k: nat)
    requires
        forall|i: int| 0 <= i < st0.2.len() ==> (#[trigger] st0.2[i]).len() > 4 && st0.2[i][4] == 'o',
    ensures
        forall|i: int|
            0 <= i < out_fold(st0, root, rows, k).2.len() ==> (#[trigger] out_fold(st0, root, rows, k).2[i]).len() > 4
                && out_fold(st0, root, rows, k).2[i][4] == 'o',
    decreases k,
{
    if k == 0 || k > rows.len() {
    } else {
        lemma_out_relations(st0, root, rows, (k - 1) as nat);
        reveal_strlit("rel_out_");
        let prev = out_fold(st0, root, rows, (k - 1) as nat);
        let r = rows[k - 1];
        let rel = out_node_id(r.relation_type_id@);
        lemma_link_step(
            prev,
            root,
            rel,
            r.relation_name@,
            count_out(rows, r.relation_type_id@) as int,
            r.object_id@,
            r.object_name@,
            opt_str(r.object_type),
            r.card_status@,
        );
        assert(rel[4] == 'o');
        let cur = out_fold(st0, root, rows, k);
        assert forall|i: int| 0 <= i < cur.2.len() implies (#[trigger] cur.2[i]).len() > 4 && cur.2[i][4] == 'o' by {
            if i < prev.2.len() {
                assert(cur.2[i] == prev.2[i]);
            }
        }
    }
}

/// No relation node `rel_in_<target>` is placed while reading incoming
/// triples of other relation types.
proof fn lemma_in_relations_avoid(st0: MapState, root: Seq<char>, rows: Seq<IncomingTriple>, k: nat, target: Seq<char>)
    requires
        forall|i: int| 0 <= i < st0.2.len() ==> #[trigger] st0.2[i] != "rel_in_"@ + target,
        forall|q: int| 0 <= q < k && q < rows.len() ==> (#[trigger] rows[q]).relation_type_id@ != target,
    ensures
        forall|i: int|
            0 <= i < in_fold(st0, root, rows, k).2.len() ==> #[trigger] in_fold(st0, root, rows, k).2[i] != "rel_in_"@
                + target,
    decreases k,
{
    if k == 0 || k > rows.len() {
    } else {
        lemma_in_relations_avoid(st0, root, rows, (k - 1) as nat, target);
        let prev = in_fold(st0, root, rows, (k - 1) as nat);
        let r = rows[k - 1];
        let rel = in_node_id(r.relation_type_id@);
        lemma_link_step(
            prev,
            root,
            rel,
            in_label(r),
            count_in(rows, r.relation_type_id@) as int,
            r.subject_id@,
            r.subject_name@,
            opt_str(r.subject_type),
            r.card_status@,
        );
        assert(rows[k - 1].relation_type_id@ != target);
        if rel == "rel_in_"@ + target {
            assert(rel.skip(("rel_in_"@).len() as int) =~= r.relation_type_id@);
            assert(("rel_in_"@ + target).skip(("rel_in_"@).len() as int) =~= target);
        }
        let cur = in_fold(st0, root, rows, k);
        assert forall|i: int| 0 <= i < cur.2.len() implies #[trigger] cur.2[i] != "rel_in_"@ + target by {
            if i < prev.2.len() {
                assert(cur.2[i] == prev.2[i]);
            }
        }
    }
}

/// Reading further incoming triples only adds nodes after those already
/// there.
proof fn lemma_in_nodes_kept(st0: MapState, root: Seq<char>, rows: Seq<IncomingTriple>, a: nat, b: nat)
    requires
        a <= b <= rows.len(),
    ensures
        in_fold(st0, root, rows, a).0.len() <= in_fold(st0, root, rows, b).0.len(),
        forall|m: int|
            0 <= m < in_fold(st0, root, rows, a).0.len() ==> #[trigger] in_fold(st0, root, rows, b).0[m] == in_fold(
                st0,
                root,
                rows,
                a,
            ).0[m],
    decreases b,
{
    if a < b {
        lemma_in_nodes_kept(st0, root, rows, a, (b - 1) as nat);
        let prev = in_fold(st0, root, rows, (b - 1) as nat);
        let r = rows[b - 1];
        lemma_link_step(
            prev,
            root,
            in_node_id(r.relation_type_id@),
            in_label(r),
            count_in(rows, r.relation_type_id@) as int,
            r.subject_id@,
            r.subject_name@,
            opt_str(r.subject_type),
            r.card_status@,
        );
    }
}

/// For the first incoming triple of each relation type, the mind map holds
/// the relation node `rel_in_<type>`, labelled with the relation's inverse
/// name (with "(inv) " before its name only when it has no inverse name),
/// counting the incoming triples of that type.
pub proof fn law_incoming_relation_label(
    root: Seq<char>,
    root_name: Seq<char>,
    root_type: Option<Seq<char>>,
    out_rows: Seq<OutgoingTriple>,
    in_rows: Seq<IncomingTriple>,
    j: int,
)
    requires
        0 <= j < in_rows.len(),
        forall|i: int| 0 <= i < j ==> (#[trigger] in_rows[i]).relation_type_id@ != in_rows[j].relation_type_id@,
    ensures
        ({
            let r = in_rows[j];
            let label = match r.inverse_name {
                Some(n) => n@,
                None => "(inv) "@ + r.relation_name@,
            };
            let nodes = spec_mindmap(root, root_name, root_type, out_rows, in_rows).0;
            exists|m: int|
                0 <= m < nodes.len() && #[trigger] nodes[m] == (
                    "rel_in_"@ + r.relation_type_id@,
                    label,
                    "relation"@,
                    None::<Seq<char>>,
                    "none"@,
                    count_in(in_rows, r.relation_type_id@) as int,
                )
        }),
{
    let init: MapState = (seq![(root, root_name, "root"@, root_type, "none"@, 0int)], Seq::empty(), Seq::empty(), Seq::empty());
    lemma_out_relations(init, root, out_rows, out_rows.len());
    let st0 = out_fold(init, root, out_rows, out_rows.len());
    let r = in_rows[j];
    let target = r.relation_type_id@;
    reveal_strlit("rel_in_");
    assert forall|i: int| 0 <= i < st0.2.len() implies #[trigger] st0.2[i] != "rel_in_"@ + target by {
        assert(("rel_in_"@ + target)[4] == 'i');
    }
    lemma_in_relations_avoid(st0, root, in_rows, j as nat, target);
    let before = in_fold(st0, root, in_rows, j as nat);
    assert(!before.2.contains(in_node_id(target)));
    lemma_link_step(
        before,
        root,
        in_node_id(target),
        in_label(r),
        count_in(in_rows, target) as int,
        r.subject_id@,
        r.subject_name@,
        opt_str(r.subject_type),
        r.card_status@,
    );
    let after = in_fold(st0, root, in_rows, (j + 1) as nat);
    let m = before.0.len() as int;
    assert(after.0[m] == (in_node_id(target), in_label(r), "relation"@, None::<Seq<char>>, "none"@, count_in(in_rows, target) as int));
    lemma_in_nodes_kept(st0, root, in_rows, (j + 1) as nat, in_rows.len());
    let nodes = spec_mindmap(root, root_name, root_type, out_rows, in_rows).0;
    assert(nodes[m] == after.0[m]);
}

/// No relation node `rel_out_<target>` is placed while reading outgoing
/// triples of other relation types.
proof fn lemma_out_relations_avoid(st0: MapState, root: Seq<char>, rows: Seq<OutgoingTriple>, k: nat, target: Seq<char>)
    requires
        forall|i: int| 0 <= i < st0.2.len() ==> #[trigger] st0.2[i] != "rel_out_"@ + target,
        forall|q: int| 0 <= q < k && q < rows.len() ==> (#[trigger] rows[q]).relation_type_id@ != target,
    ensures
        forall|i: int|
            0 <= i < out_fold(st0, root, rows, k).2.len() ==> #[trigger] out_fold(st0, root, rows, k).2[i] != "rel_out_"@
                + target,
    decreases k,
{
    if k == 0 || k > rows.len() {
    } else {
        lemma_out_relations_avoid(st0, root, rows, (k - 1) as nat, target);
        let prev = out_fold(st0, root, rows, (k - 1) as nat);
        let r = rows[k - 1];
        let rel = out_node_id(r.relation_type_id@);
        lemma_link_step(
            prev,
            root,
            rel,
            r.relation_name@,
            count_out(rows, r.relation_type_id@) as int,
            r.object_id@,
            r.object_name@,
            opt_str(r.object_type),
            r.card_status@,
        );
        assert(rows[k - 1].relation_type_id@ != target);
        if rel == "rel_out_"@ + target {
            assert(rel.skip(("rel_out_"@).len() as int) =~= r.relation_type_id@);
            assert(("rel_out_"@ + target).skip(("rel_out_"@).len() as int) =~= target);
        }
        let cur = out_fold(st0, root, rows, k);
        assert forall|i: int| 0 <= i < cur.2.len() implies #[trigger] cur.2[i] != "rel_out_"@ + target by {
            if i < prev.2.len() {
                assert(cur.2[i] == prev.2[i]);
            }
        }
    }
}

/// Reading further outgoing triples only adds nodes after those already
/// there.
proof fn lemma_out_nodes_kept(st0: MapState, root: Seq<char>, rows: Seq<OutgoingTriple>, a: nat, b: nat)
    requires
        a <= b <= rows.len(),
    ensures
        out_fold(st0, root, rows, a).0.len() <= out_fold(st0, root, rows, b).0.len(),
        forall|m: int|
            0 <= m < out_fold(st0, root, rows, a).0.len() ==> #[trigger] out_fold(st0, root, rows, b).0[m] == out_fold(
                st0,
                root,
                rows,
                a,
            ).0[m],
    decreases b,
{
    if a < b {
        lemma_out_nodes_kept(st0, root, rows, a, (b - 1) as nat);
        let prev = out_fold(st0, root, rows, (b - 1) as nat);
        let r = rows[b - 1];
        lemma_link_step(
            prev,
            root,
            out_node_id(r.relation_type_id@),
            r.relation_name@,
            count_out(rows, r.relation_type_id@) as int,
            r.object_id@,
            r.object_name@,
            opt_str(r.object_type),
            r.card_status@,
        );
    }
}

/// For the first outgoing triple of each relation type, the mind map holds
/// the relation node `rel_out_<type>`, labelled with the relation's name and
/// counting the outgoing triples of that type; the map starts with the root.
pub proof fn law_outgoing_relation_label(
    root: Seq<char>,
    root_name: Seq<char>,
    root_type: Option<Seq<char>>,
    out_rows: Seq<OutgoingTriple>,
    in_rows: Seq<IncomingTriple>,
    j: int,
)
    requires
        0 <= j < out_rows.len(),
        forall|i: int| 0 <= i < j ==> (#[trigger] out_rows[i]).relation_type_id@ != out_rows[j].relation_type_id@,
    ensures
        ({
            let r = out_rows[j];
            let nodes = spec_mindmap(root, root_name, root_type, out_rows, in_rows).0;
            &&& nodes[0] == (root, root_name, "root"@, root_type, "none"@, 0int)
            &&& exists|m: int|
                0 <= m < nodes.len() && #[trigger] nodes[m] == (
                    "rel_out_"@ + r.relation_type_id@,
                    r.relation_name@,
                    "relation"@,
                    None::<Seq<char>>,
                    "none"@,
                    count_out(out_rows, r.relation_type_id@) as int,
                )
        }),
{
    let init: MapState = (seq![(root, root_name, "root"@, root_type, "none"@, 0int)], Seq::empty(), Seq::empty(), Seq::empty());
    let r = out_rows[j];
    let target = r.relation_type_id@;
    lemma_out_relations_avoid(init, root, out_rows, j as nat, target);
    let before = out_fold(init, root, out_rows, j as nat);
    assert(!before.2.contains(out_node_id(target)));
    lemma_link_step(
        before,
        root,
        out_node_id(target),
        r.relation_name@,
        count_out(out_rows, target) as int,
        r.object_id@,
        r.object_name@,
        opt_str(r.object_type),
        r.card_status@,
    );
    let after = out_fold(init, root, out_rows, (j + 1) as nat);
    let m = before.0.len() as int;
    lemma_out_nodes_kept(init, root, out_rows, 0, j as nat);
    lemma_out_nodes_kept(init, root, out_rows, (j + 1) as nat, out_rows.len());
    let st0 = out_fold(init, root, out_rows, out_rows.len());
    assert(st0.0[m] == after.0[m]);
    assert(st0.0[0] == init.0[0]);
    lemma_in_nodes_kept(st0, root, in_rows, 0, in_rows.len());
    let nodes = spec_mindmap(root, root_name, root_type, out_rows, in_rows).0;
    assert(nodes[m] == st0.0[m]);
    assert(nodes[0] == st0.0[0]);
}

} // verus!
