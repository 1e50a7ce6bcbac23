//! Content files: their bytes read as a payload, and the decks a file
//! lists before it is imported.
use vstd::prelude::*;
use crate::content_data::{into_payload, opt_str, payload_of, read_content_data, spec_read_data};
use crate::content::{
    all_have, opt_rows, opt_view, previews_view, rolled_notes, row_ids, row_parents, rows_view, spec_list_decks,
    list_decks_from_payload, direct_notes, ContentDeckPreview, Row, RowView, field,
};
use crate::deck_tree::{direct_view, parents_view, rollup_first_capped, str_view};
use crate::json::{json_text_exec, fields_view};

verus! {

/// The note counts of a payload's decks fit the machine: there are at most
/// `i64::MAX` notes, and when every deck row has an id, every deck's notes
/// with those of its subdecks number at most `i64::MAX` and `usize::MAX`.
pub open spec fn counts_fit(decks: Option<Seq<RowView>>, notes: Option<Seq<RowView>>) -> bool {
    notes_fit(notes) && match decks {
        Some(d) => all_have(d, "id"@) ==> rolled_fit(d, notes),
        None => true,
    }
}

pub open spec fn notes_fit(notes: Option<Seq<RowView>>) -> bool {
    match notes {
        Some(n) => n.len() <= i64::MAX,
        None => true,
    }
}

/// Every deck's notes with those of its subdecks number at most `i64::MAX`
/// and `usize::MAX`.
pub open spec fn rolled_fit(d: Seq<RowView>, notes: Option<Seq<RowView>>) -> bool {
    forall|i: int| 0 <= i < d.len() ==> #[trigger] rolled_notes(d, notes, row_ids(d)[i]) <= i64::MAX
        && rolled_notes(d, notes, row_ids(d)[i]) <= usize::MAX
}

fn count_in(notes: &Vec<Row>, id: &String) -> (n: i64)
    requires
        notes@.len() <= i64::MAX,
    ensures
        n as int == crate::content::count_with(rows_view(notes@), "deck_id"@, id@),
        0 <= n <= notes@.len(),
{
    let ghost nv = rows_view(notes@);
    let mut n: i64 = 0;
    let mut j: usize = 0;
    while j < notes.len()
        invariant
            j <= notes.len(),
            notes@.len() <= i64::MAX,
            nv == rows_view(notes@),
            0 <= n <= j,
            n as int == crate::content::count_with(nv.take(j as int), "deck_id"@, id@),
        decreases notes.len() - j,
    {
        proof {
            assert(nv.take(j + 1).drop_last() =~= nv.take(j as int));
            assert(nv[j as int] == fields_view(notes@[j as int]@));
        }
        match json_text_exec(&notes[j], "deck_id") {
            Some(v) => {
                if v == *id {
                    n += 1;
                }
            },
            None => {},
        }
        j += 1;
    }
    assert(nv.take(notes.len() as int) =~= nv);
    n
}

/// Whether the note counts of a payload fit (see `counts_fit`).
pub fn note_counts_fit(decks: Option<&Vec<Row>>, notes: Option<&Vec<Row>>) -> (b: bool)
    ensures
        b == counts_fit(opt_rows(decks), opt_rows(notes)),
{
    let ghost nv = opt_rows(notes);
    match notes {
        Some(n) => {
            if n.len() as u64 > 9223372036854775807u64 {
                return false;
            }
        },
        None => {},
    }
    let d = match decks {
        Some(d) => d,
        None => return true,
    };
    let ghost dv = rows_view(d@);
    assert(opt_rows(decks) == Some(dv));
    let mut ids: Vec<String> = Vec::new();
    let mut parents: Vec<(String, Option<String>)> = Vec::new();
    let mut i: usize = 0;
    while i < d.len()
        invariant
            i <= d.len(),
            dv == rows_view(d@),
            opt_rows(decks) == Some(dv),
            nv == opt_rows(notes),
            match notes {
                Some(n) => n@.len() <= i64::MAX,
                None => true,
            },
            ids@.len() == i,
            parents@.len() == i,
            forall|k: int| 0 <= k < i ==> (#[trigger] field(dv[k], "id"@)) is Some,
            str_view(ids@) == row_ids(dv).take(i as int),
            parents_view(parents@) == row_parents(dv).take(i as int),
        decreases d.len() - i,
    {
        assert(dv[i as int] == fields_view(d@[i as int]@));
        let id = match json_text_exec(&d[i], "id") {
            Some(id) => id,
            None => {
                assert(field(dv[i as int], "id"@) is None);
                assert(!all_have(dv, "id"@));
                return true;
            },
        };
        let par = json_text_exec(&d[i], "parent_id");
        ids.push(id.clone());
        parents.push((id, par));
        proof {
            assert(str_view(ids@) =~= row_ids(dv).take(i + 1));
            assert(parents_view(parents@)[i as int] == row_parents(dv)[i as int]);
            assert(parents_view(parents@) =~= row_parents(dv).take(i + 1));
        }
        i += 1;
    }
    proof {
        assert(str_view(ids@) =~= row_ids(dv));
        assert(parents_view(parents@) =~= row_parents(dv));
        assert(all_have(dv, "id"@));
    }
    let mut direct: Vec<(String, (i64, i64, i64))> = Vec::new();
    let mut k: usize = 0;
    while k < ids.len()
        invariant
            k <= ids.len(),
            str_view(ids@) == row_ids(dv),
            opt_rows(decks) == Some(dv),
            all_have(dv, "id"@),
            ids@.len() == dv.len(),
            parents_view(parents@) == row_parents(dv),
            nv == opt_rows(notes),
            match notes {
                Some(n) => n@.len() <= i64::MAX,
                None => true,
            },
            direct@.len() == k,
            forall|j: int| 0 <= j < k ==> (#[trigger] direct@[j]).1.0 >= 0 && direct@[j].1.1 == 0 && direct@[j].1.2 == 0,
            direct_view(direct@) == direct_notes(nv, str_view(ids@)).take(k as int),
        decreases ids.len() - k,
    {
        let c: i64 = match notes {
            Some(n) => count_in(n, &ids[k]),
            None => 0,
        };
        direct.push((ids[k].clone(), (c, 0, 0)));
        assert(direct_view(direct@) =~= direct_notes(nv, str_view(ids@)).take(k + 1));
        k += 1;
    }
    assert(direct_view(direct@) =~= direct_notes(nv, str_view(ids@)));
    assert forall|j: int| 0 <= j < direct_view(direct@).len() implies crate::deck_tree::nonneg(
        #[trigger] direct_view(direct@)[j].1,
    ) by {
        assert(direct@[j].1.0 >= 0);
    }
    let cap: i64 = if (usize::MAX as u128) < 9223372036854775807u128 {
        usize::MAX as i64
    } else {
        9223372036854775807i64
    };
    let mut m: usize = 0;
    while m < ids.len()
        invariant
            m <= ids.len(),
            ids@.len() == dv.len(),
            opt_rows(decks) == Some(dv),
            nv == opt_rows(notes),
            match notes {
                Some(n) => n@.len() <= i64::MAX,
                None => true,
            },
            all_have(dv, "id"@),
            str_view(ids@) == row_ids(dv),
            parents_view(parents@) == row_parents(dv),
            direct_view(direct@) == direct_notes(nv, row_ids(dv)),
            crate::deck_tree::all_direct_nonneg(direct_view(direct@)),
            cap >= 0,
            cap as int == if usize::MAX < i64::MAX { usize::MAX as int } else { i64::MAX as int },
            forall|j: int| 0 <= j < m ==> #[trigger] rolled_notes(dv, nv, row_ids(dv)[j]) <= i64::MAX
                && rolled_notes(dv, nv, row_ids(dv)[j]) <= usize::MAX,
        decreases ids.len() - m,
    {
        assert(ids@[m as int]@ == row_ids(dv)[m as int]);
        match rollup_first_capped(&ids, &parents, &direct, &ids[m], ids.len(), cap) {
            None => {
                let ghost v = rolled_notes(dv, nv, row_ids(dv)[m as int]);
                assert(v > cap);
                assert(!(v <= i64::MAX && v <= usize::MAX));
                proof {
                    if counts_fit(Some(dv), nv) {
                        assert(rolled_fit(dv, nv));
                        assert(0 <= m < dv.len());
                        assert(v <= i64::MAX && v <= usize::MAX);
                    }
                }
                return false;
            },
            Some(_) => {},
        }
        m += 1;
    }
    true
}

/// The decks a content file lists, or the error it gives: the file's JSON
/// (see `spec_read_data`), then its deck list.
pub open spec fn spec_preview(ext: Option<Seq<char>>, bytes: Seq<u8>) -> Result<Seq<crate::content::PreviewView>, Seq<char>> {
    match spec_read_data(ext, bytes) {
        Err(e) => Err(e),
        Ok(d) => spec_list_decks(payload_of(d).0, payload_of(d).1, payload_of(d).2),
    }
}

/// The note counts of the payload that the file holds fit (see
/// `counts_fit`); a file that gives an error before its deck list asks
/// nothing.
pub open spec fn file_counts_fit(ext: Option<Seq<char>>, bytes: Seq<u8>) -> bool {
    match spec_read_data(ext, bytes) {
        Err(_) => true,
        Ok(d) => counts_fit(payload_of(d).1, payload_of(d).2),
    }
}

/// The decks a content file lists, each with its notes and those of its
/// subdecks, sorted by name; `ext` is the file's extension.
pub fn preview_content_import(ext: Option<&str>, bytes: Vec<u8>) -> (r: Result<Vec<ContentDeckPreview>, String>)
    requires
        file_counts_fit(opt_str(ext), bytes@),
    ensures
        match (r, spec_preview(opt_str(ext), bytes@)) {
            (Ok(v), Ok(s)) => previews_view(v@) == s,
            (Err(m), Err(e)) => m@ == e,
            _ => false,
        },
{
    let data = match read_content_data(ext, bytes) {
        Ok(d) => d,
        Err(e) => return Err(e),
    };
    let (format, decks, notes) = into_payload(data);
    list_decks_from_payload(
        match &format {
            Some(f) => Some(f.as_str()),
            None => None,
        },
        decks.as_ref(),
        notes.as_ref(),
    )
}

/// `preview_content_import` where the note counts of the file fit;
/// `None` where they do not.
pub fn preview_content_import_checked(ext: Option<&str>, bytes: Vec<u8>) -> (r: Option<Result<Vec<ContentDeckPreview>, String>>)
    ensures
        match r {
            None => !file_counts_fit(opt_str(ext), bytes@),
            Some(res) => match (res, spec_preview(opt_str(ext), bytes@)) {
                (Ok(v), Ok(s)) => previews_view(v@) == s,
                (Err(m), Err(e)) => m@ == e,
                _ => false,
            },
        },
{
    let fits = match read_content_data(ext, bytes.clone()) {
        Err(_) => true,
        Ok(d) => {
            let (_, decks, notes) = into_payload(d);
            note_counts_fit(decks.as_ref(), notes.as_ref())
        },
    };
    if fits {
        Some(preview_content_import(ext, bytes))
    } else {
        None
    }
}

} // verus!
