//! The note search: the SQL statement and its parameters for a query and
//! its filters (the statement is run elsewhere).
use vstd::prelude::*;
use crate::text::{chars_of, decimal, push_all, push_decimal, push_str, replace, replace_str, string_of, trim, trim_vec, views};

verus! {

/// A parameter of the statement.
#[derive(Debug, Clone, PartialEq, Eq)]
pub enum SqlParam {
    Text(String),
    Int(i64),
}

pub enum ParamView {
    Text(Seq<char>),
    Int(i64),
}

pub open spec fn param_view(p: SqlParam) -> ParamView {
    match p {
        SqlParam::Text(s) => ParamView::Text(s@),
        SqlParam::Int(n) => ParamView::Int(n),
    }
}

pub open spec fn params_view(ps: Seq<SqlParam>) -> Seq<ParamView> {
    ps.map_values(|p: SqlParam| param_view(p))
}

/// A statement and its parameters, numbered `?1`, `?2`, ... in order.
pub struct SearchQuery {
    pub sql: String,
    pub params: Vec<SqlParam>,
}

pub const SEARCH_SELECT: &'static str = "SELECT n.id, n.deck_id, d.name, n.note_type_id, nt.name, n.fields_json, n.created_at, (SELECT COUNT(*) FROM cards c WHERE c.note_id = n.id) as card_count FROM notes n JOIN decks d ON d.id = n.deck_id JOIN note_types nt ON nt.id = n.note_type_id ";

pub const SEARCH_FTS_JOIN: &'static str = "JOIN notes_fts fts ON fts.note_id = n.id ";

pub const SEARCH_TAG_CONDITION: &'static str = "EXISTS (SELECT 1 FROM note_tags nt2 JOIN tags t ON t.id = nt2.tag_id WHERE nt2.note_id = n.id AND t.name = ?";

/// The parts joined, with `sep` between each two.
pub open spec fn join(parts: Seq<Seq<char>>, sep: Seq<char>) -> Seq<char>
    decreases parts.len(),
{
    if parts.len() == 0 {
        Seq::empty()
    } else if parts.len() == 1 {
        parts[0]
    } else {
        join(parts.drop_last(), sep) + sep + parts.last()
    }
}

pub open spec fn placeholder(k: nat) -> Seq<char> {
    "?"@ + decimal(k)
}

/// `?start, ?start+1, ...`, `n` of them.
pub open spec fn placeholders(start: nat, n: nat) -> Seq<char> {
    join(Seq::new(n, |i: int| placeholder((start + i) as nat)), ", "@)
}

/// The search text as one full-text phrase: in double quotes, a double
/// quote inside doubled.
pub open spec fn fts_phrase(t: Seq<char>) -> Seq<char> {
    "\""@ + replace(t, "\""@, "\"\""@) + "\""@
}

pub type Filters = (Seq<Seq<char>>, Seq<ParamView>);

/// The full-text match, when there is search text.
pub open spec fn fts_filter(text: Seq<char>) -> Filters {
    if text.len() > 0 {
        (seq!["notes_fts MATCH ?1"@], seq![ParamView::Text(fts_phrase(text))])
    } else {
        (Seq::empty(), Seq::empty())
    }
}

/// The decks of the scope, when a deck was chosen and its scope is not
/// empty.
pub open spec fn scope_filter(f: Filters, scope: Option<Seq<Seq<char>>>) -> Filters {
    match scope {
        Some(s) => if s.len() > 0 {
            (
                f.0.push("n.deck_id IN ("@ + placeholders(f.1.len() + 1, s.len()) + ")"@),
                f.1 + s.map_values(|x: Seq<char>| ParamView::Text(x)),
            )
        } else {
            f
        },
        None => f,
    }
}

/// Notes with the tag, when one was chosen.
pub open spec fn tag_filter(f: Filters, tag: Option<Seq<char>>) -> Filters {
    match tag {
        Some(t) => (f.0.push(SEARCH_TAG_CONDITION@ + decimal(f.1.len() + 1) + ")"@), f.1.push(ParamView::Text(t))),
        None => f,
    }
}

/// Notes of the note type, when one was chosen.
pub open spec fn note_type_filter(f: Filters, note_type_id: Option<Seq<char>>) -> Filters {
    match note_type_id {
        Some(n) => (f.0.push("n.note_type_id = ?"@ + decimal(f.1.len() + 1)), f.1.push(ParamView::Text(n))),
        None => f,
    }
}

/// The conditions of the search, in order, with their parameters.
pub open spec fn search_filters(
    text: Seq<char>,
    scope: Option<Seq<Seq<char>>>,
    tag: Option<Seq<char>>,
    note_type_id: Option<Seq<char>>,
) -> Filters {
    note_type_filter(tag_filter(scope_filter(fts_filter(text), scope), tag), note_type_id)
}

/// The statement for search text `text` with conditions `conds` and `n`
/// filter parameters.
pub open spec fn search_sql(text: Seq<char>, conds: Seq<Seq<char>>, n: nat) -> Seq<char> {
    SEARCH_SELECT@ + (if text.len() > 0 {
        SEARCH_FTS_JOIN@
    } else {
        Seq::empty()
    }) + (if conds.len() > 0 {
        "WHERE "@ + join(conds, " AND "@)
    } else {
        Seq::empty()
    }) + " ORDER BY n.created_at DESC LIMIT ?"@ + decimal(n + 1) + " OFFSET ?"@ + decimal(n + 2)
}

/// The filter parameters, then the limit (50 when not given) and the
/// offset (0 when not given).
pub open spec fn search_params(params: Seq<ParamView>, limit: Option<i64>, offset: Option<i64>) -> Seq<ParamView> {
    let lim = match limit {
        Some(l) => l,
        None => 50i64,
    };
    let off = match offset {
        Some(o) => o,
        None => 0i64,
    };
    params + seq![ParamView::Int(lim), ParamView::Int(off)]
}

/// The search for `query` (trimmed) with its filters, newest notes first;
/// `None` when there is neither text nor a filter, which finds nothing.
/// `scope` is the chosen deck with its subdecks, `None` when no deck was
/// chosen.
pub open spec fn spec_search_query(
    query: Seq<char>,
    scope: Option<Seq<Seq<char>>>,
    tag: Option<Seq<char>>,
    note_type_id: Option<Seq<char>>,
    limit: Option<i64>,
    offset: Option<i64>,
) -> Option<(Seq<char>, Seq<ParamView>)> {
    let text = trim(query);
    if text.len() == 0 && scope is None && tag is None && note_type_id is None {
        None
    } else {
        let f = search_filters(text, scope, tag, note_type_id);
        Some((search_sql(text, f.0, f.1.len()), search_params(f.1, limit, offset)))
    }
}

fn join_exec(parts: &Vec<Vec<char>>, sep: &str) -> (r: Vec<char>)
    ensures
        r@ == join(views(parts@), sep@),
{
    let ghost pv = views(parts@);
    let mut out: Vec<char> = Vec::new();
    let mut i: usize = 0;
    while i < parts.len()
        invariant
            i <= parts.len(),
            pv == views(parts@),
            out@ == join(pv.take(i as int), sep@),
        decreases parts.len() - i,
    {
        let ghost before = out@;
        assert(pv.take(i + 1).drop_last() =~= pv.take(i as int));
        assert(pv.take(i + 1).last() == parts@[i as int]@);
        if i > 0 {
            push_str(&mut out, sep);
        } else {
            assert(pv.take(1)[0] == parts@[0]@);
        }
        push_all(&mut out, &parts[i]);
        i += 1;
    }
    assert(pv.take(parts.len() as int) =~= pv);
    out
}

fn placeholders_exec(start: usize, n: usize) -> (r: Vec<char>)
    requires
        start + n <= usize::MAX,
    ensures
        r@ == placeholders(start as nat, n as nat),
{
    let ghost ps = Seq::new(n as nat, |i: int| placeholder((start + i) as nat));
    let mut out: Vec<char> = Vec::new();
    let mut i: usize = 0;
    while i < n
        invariant
            i <= n,
            start + n <= usize::MAX,
            ps == Seq::new(n as nat, |i: int| placeholder((start + i) as nat)),
            out@ == join(ps.take(i as int), ", "@),
        decreases n - i,
    {
        assert(ps.take(i + 1).drop_last() =~= ps.take(i as int));
        assert(ps.take(i + 1).last() == placeholder((start + i) as nat));
        if i > 0 {
            push_str(&mut out, ", ");
        } else {
            assert(ps.take(1)[0] == placeholder(start as nat));
        }
        let ghost before = out@;
        out.push('?');
        proof {
            reveal_strlit("?");
        }
        push_decimal(&mut out, start + i);
        assert(out@ =~= before + placeholder((start + i) as nat));
        i += 1;
    }
    assert(ps.take(n as int) =~= ps);
    out
}

pub open spec fn opt_str_view(o: Option<&str>) -> Option<Seq<char>> {
    match o {
        Some(s) => Some(s@),
        None => None,
    }
}

pub open spec fn opt_scope_view(o: Option<&Vec<String>>) -> Option<Seq<Seq<char>>> {
    match o {
        Some(v) => Some(v@.map_values(|s: String| s@)),
        None => None,
    }
}

fn add_fts_filter(conds: &mut Vec<Vec<char>>, params: &mut Vec<SqlParam>, text: &Vec<char>)
    requires
        old(conds)@.len() == 0,
        old(params)@.len() == 0,
    ensures
        (views(final(conds)@), params_view(final(params)@)) == fts_filter(text@),
        final(params)@.len() <= 1,
{
    if text.len() > 0 {
        conds.push(chars_of("notes_fts MATCH ?1"));
        let mut phrase: Vec<char> = Vec::new();
        phrase.push('"');
        proof {
            reveal_strlit("\"");
        }
        let inner = replace_str(text, "\"", "\"\"");
        push_all(&mut phrase, &inner);
        phrase.push('"');
        assert(phrase@ =~= fts_phrase(text@));
        params.push(SqlParam::Text(string_of(&phrase)));
    }
    assert(views(conds@) =~= fts_filter(text@).0);
    assert(params_view(params@) =~= fts_filter(text@).1);
}

fn add_scope_filter(conds: &mut Vec<Vec<char>>, params: &mut Vec<SqlParam>, scope: Option<&Vec<String>>)
    requires
        old(params)@.len() <= 1,
        match scope {
            Some(v) => v@.len() + 8 <= usize::MAX,
            None => true,
        },
    ensures
        (views(final(conds)@), params_view(final(params)@)) == scope_filter(
            (views(old(conds)@), params_view(old(params)@)),
            opt_scope_view(scope),
        ),
        final(params)@.len() <= 1 + match scope {
            Some(v) => v@.len() as int,
            None => 0,
        },
{
    let ghost f = (views(conds@), params_view(params@));
    match scope {
        Some(v) => {
            if v.len() > 0 {
                let k = params.len();
                let mut c = chars_of("n.deck_id IN (");
                let ph = placeholders_exec(k + 1, v.len());
                push_all(&mut c, &ph);
                c.push(')');
                proof {
                    reveal_strlit(")");
                }
                let ghost cv = c@;
                conds.push(c);
                assert(views(conds@) =~= f.0.push(cv));
                let ghost s = v@.map_values(|x: String| x@);
                let mut j: usize = 0;
                while j < v.len()
                    invariant
                        j <= v.len(),
                        k <= 1,
                        s == v@.map_values(|x: String| x@),
                        params@.len() == k + j,
                        params_view(params@) == f.1 + s.take(j as int).map_values(|x: Seq<char>| ParamView::Text(x)),
                    decreases v.len() - j,
                {
                    let ghost before = params_view(params@);
                    params.push(SqlParam::Text(v[j].clone()));
                    assert(s.take(j + 1) =~= s.take(j as int).push(s[j as int]));
                    assert(params_view(params@) =~= before.push(ParamView::Text(s[j as int])));
                    assert(s.take(j + 1).map_values(|x: Seq<char>| ParamView::Text(x)) =~= s.take(j as int).map_values(
                        |x: Seq<char>| ParamView::Text(x),
                    ).push(ParamView::Text(s[j as int])));
                    j += 1;
                }
                assert(s.take(v.len() as int) =~= s);
                assert(ph@ == placeholders(f.1.len() + 1, s.len()));
                assert(cv =~= "n.deck_id IN ("@ + placeholders(f.1.len() + 1, s.len()) + ")"@);
                assert(views(conds@) == scope_filter(f, opt_scope_view(scope)).0);
                assert(params_view(params@) == scope_filter(f, opt_scope_view(scope)).1);
            }
        },
        None => {},
    }
}

fn add_tag_filter(conds: &mut Vec<Vec<char>>, params: &mut Vec<SqlParam>, tag: Option<&str>)
    requires
        old(params)@.len() + 1 <= usize::MAX,
    ensures
        (views(final(conds)@), params_view(final(params)@)) == tag_filter(
            (views(old(conds)@), params_view(old(params)@)),
            opt_str_view(tag),
        ),
        final(params)@.len() <= old(params)@.len() + 1,
{
    let ghost f = (views(conds@), params_view(params@));
    match tag {
        Some(t) => {
            let mut c = chars_of(SEARCH_TAG_CONDITION);
            push_decimal(&mut c, params.len() + 1);
            c.push(')');
            proof {
                reveal_strlit(")");
            }
            let ghost cv = c@;
            conds.push(c);
            assert(views(conds@) =~= f.0.push(cv));
            params.push(SqlParam::Text(crate::text::owned(t)));
            assert(params_view(params@) =~= f.1.push(ParamView::Text(t@)));
            assert(cv =~= SEARCH_TAG_CONDITION@ + decimal(f.1.len() + 1) + ")"@);
        },
        None => {},
    }
}

fn add_note_type_filter(conds: &mut Vec<Vec<char>>, params: &mut Vec<SqlParam>, note_type_id: Option<&str>)
    requires
        old(params)@.len() + 1 <= usize::MAX,
    ensures
        (views(final(conds)@), params_view(final(params)@)) == note_type_filter(
            (views(old(conds)@), params_view(old(params)@)),
            opt_str_view(note_type_id),
        ),
        final(params)@.len() <= old(params)@.len() + 1,
{
    let ghost f = (views(conds@), params_view(params@));
    match note_type_id {
        Some(n) => {
            let mut c = chars_of("n.note_type_id = ?");
            push_decimal(&mut c, params.len() + 1);
            let ghost cv = c@;
            conds.push(c);
            assert(views(conds@) =~= f.0.push(cv));
            params.push(SqlParam::Text(crate::text::owned(n)));
            assert(params_view(params@) =~= f.1.push(ParamView::Text(n@)));
        },
        None => {},
    }
}

fn search_sql_exec(text: &Vec<char>, conds: &Vec<Vec<char>>, n: usize) -> (r: Vec<char>)
    requires
        n + 2 <= usize::MAX,
    ensures
        r@ == search_sql(text@, views(conds@), n as nat),
{
    let mut sql = chars_of(SEARCH_SELECT);
    if text.len() > 0 {
        push_str(&mut sql, SEARCH_FTS_JOIN);
    }
    if conds.len() > 0 {
        push_str(&mut sql, "WHERE ");
        let w = join_exec(conds, " AND ");
        push_all(&mut sql, &w);
    }
    push_str(&mut sql, " ORDER BY n.created_at DESC LIMIT ?");
    push_decimal(&mut sql, n + 1);
    push_str(&mut sql, " OFFSET ?");
    push_decimal(&mut sql, n + 2);
    sql
}

/// The statement and parameters of a note search, or `None` when it can
/// only find nothing.
pub fn search_query(
    query: &str,
    scope: Option<&Vec<String>>,
    tag: Option<&str>,
    note_type_id: Option<&str>,
    limit: Option<i64>,
    offset: Option<i64>,
) -> (r: Option<SearchQuery>)
    requires
        match scope {
            Some(v) => v@.len() + 8 <= usize::MAX,
            None => true,
        },
    ensures
        match (r, spec_search_query(query@, opt_scope_view(scope), opt_str_view(tag), opt_str_view(note_type_id), limit, offset)) {
            (None, None) => true,
            (Some(q), Some((sql, params))) => q.sql@ == sql && params_view(q.params@) == params,
            _ => false,
        },
{
    let qv = chars_of(query);
    let text = trim_vec(&qv);
    if text.len() == 0 && scope.is_none() && tag.is_none() && note_type_id.is_none() {
        return None;
    }
    let mut conds: Vec<Vec<char>> = Vec::new();
    let mut params: Vec<SqlParam> = Vec::new();
    add_fts_filter(&mut conds, &mut params, &text);
    add_scope_filter(&mut conds, &mut params, scope);
    add_tag_filter(&mut conds, &mut params, tag);
    assert(params@.len() <= 3 + match scope {
        Some(v) => v@.len() as int,
        None => 0,
    });
    add_note_type_filter(&mut conds, &mut params, note_type_id);
    let ghost want = search_filters(text@, opt_scope_view(scope), opt_str_view(tag), opt_str_view(note_type_id));
    assert(views(conds@) == want.0);
    assert(params_view(params@) == want.1);
    let n = params.len();
    let sql = search_sql_exec(&text, &conds, n);
    let lim = match limit {
        Some(l) => l,
        None => 50,
    };
    let off = match offset {
        Some(o) => o,
        None => 0,
    };
    let ghost pb = params_view(params@);
    params.push(SqlParam::Int(lim));
    params.push(SqlParam::Int(off));
    assert(params_view(params@) =~= search_params(pb, limit, offset));
    Some(SearchQuery { sql: string_of(&sql), params })
}

/// The placeholder of the note-type condition is the position of the note
/// type's id among the parameters, and so is the tag condition's for the
/// tag: each condition compares with the value bound at its number.
pub proof fn law_filter_placeholders_match_params(
    text: Seq<char>,
    scope: Option<Seq<Seq<char>>>,
    tag: Option<Seq<char>>,
    note_type_id: Option<Seq<char>>,
)
    ensures
        ({
            let f = search_filters(text, scope, tag, note_type_id);
            &&& note_type_id matches Some(n) ==> {
                let k = f.1.len();
                &&& k >= 1
                &&& f.0.len() >= 1
                &&& f.0.last() == "n.note_type_id = ?"@ + decimal(k)
                &&& f.1[k - 1] == ParamView::Text(n)
            }
            &&& tag matches Some(t) ==> {
                let k = if note_type_id is Some { (f.1.len() - 1) as nat } else { f.1.len() };
                let c = if note_type_id is Some { f.0[f.0.len() - 2] } else { f.0.last() };
                &&& k >= 1
                &&& f.0.len() >= (if note_type_id is Some { 2int } else { 1int })
                &&& c == SEARCH_TAG_CONDITION@ + decimal(k) + ")"@
                &&& f.1[k - 1] == ParamView::Text(t)
            }
            &&& text.len() > 0 ==> f.0[0] == "notes_fts MATCH ?1"@ && f.1[0] == ParamView::Text(fts_phrase(text))
            &&& scope matches Some(s) ==> (s.len() > 0 ==> {
                let k: nat = if text.len() > 0 { 1 } else { 0 };
                &&& f.0.len() > k
                &&& f.1.len() >= k + s.len()
                &&& f.0[k as int] == "n.deck_id IN ("@ + placeholders(k + 1, s.len()) + ")"@
                &&& forall|i: int| 0 <= i < s.len() ==> #[trigger] f.1[k + i] == ParamView::Text(s[i])
            })
        }),
{
    let f0 = fts_filter(text);
    let f1 = scope_filter(f0, scope);
    let f2 = tag_filter(f1, tag);
    let f3 = note_type_filter(f2, note_type_id);
    assert(f1.0.len() >= f0.0.len() && f1.1.len() >= f0.1.len());
    if scope is Some {
        let sc = scope->0;
        if sc.len() > 0 {
            let k: int = f0.0.len() as int;
            assert(f1.0[k] == f2.0[k]);
            assert(f2.0[k] == f3.0[k]);
            assert forall|i: int| 0 <= i < sc.len() implies #[trigger] f3.1[k + i] == ParamView::Text(sc[i]) by {
                assert(f1.1[k + i] == ParamView::Text(sc[i]));
                assert(f2.1[k + i] == f1.1[k + i]);
                assert(f3.1[k + i] == f2.1[k + i]);
            }
        }
    }
    if text.len() > 0 {
        assert(f1.0[0] == f0.0[0] && f1.1[0] == f0.1[0]);
        assert(f2.0[0] == f0.0[0] && f2.1[0] == f0.1[0]);
        assert(f3.0[0] == f0.0[0] && f3.1[0] == f0.1[0]);
    }
}

} // verus!
