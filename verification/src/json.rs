//! JSON objects as the library reads them: the entries of an object in
//! order, each key with its text when the value is a string.
use vstd::prelude::*;

verus! {

/// A JSON object's entries in order: each key with its text when the value
/// is a string (`None` for any other value).
pub type JsonFields = Vec<(String, Option<String>)>;

pub type FieldsView = Seq<(Seq<char>, Option<Seq<char>>)>;

pub open spec fn fields_view(f: Seq<(String, Option<String>)>) -> FieldsView {
    f.map_values(|e: (String, Option<String>)| (e.0@, match e.1 {
        Some(s) => Some(s@),
        None => None,
    }))
}

/// The text of the entry `key` (`get(key)?.as_str()`; keys of an object
/// are distinct, so the first entry with the key is the one).
pub open spec fn json_text(fields: FieldsView, key: Seq<char>) -> Option<Seq<char>>
    decreases fields.len(),
{
    if fields.len() == 0 {
        None
    } else if fields[0].0 == key {
        fields[0].1
    } else {
        json_text(fields.drop_first(), key)
    }
}

pub fn json_text_exec(fields: &JsonFields, key: &str) -> (r: Option<String>)
    ensures
        match r {
            Some(v) => json_text(fields_view(fields@), key@) == Some(v@),
            None => json_text(fields_view(fields@), key@) is None,
        },
{
    let ghost fv = fields_view(fields@);
    let mut k: usize = 0;
    assert(fv.skip(0) =~= fv);
    while k < fields.len()
        invariant
            k <= fields.len(),
            fv == fields_view(fields@),
            json_text(fv, key@) == json_text(fv.skip(k as int), key@),
        decreases fields.len() - k,
    {
        assert(fv.skip(k as int)[0] == fv[k as int]);
        assert(fv.skip(k as int).drop_first() =~= fv.skip(k + 1));
        if crate::text::same_text(fields[k].0.as_str(), key) {
            return match &fields[k].1 {
                Some(v) => Some(v.clone()),
                None => None,
            };
        }
        k += 1;
    }
    None
}

/// What `serde_json::from_str` makes of `text` when it is a JSON object:
/// its entries in the order of serde_json's map, each key with its text
/// when the value is a string; `None` when `text` is not JSON or not an
/// object.
pub uninterp spec fn spec_json_object(text: Seq<char>) -> Option<FieldsView>;

/// `serde_json::from_str::<serde_json::Value>`, the object's entries taken
/// one for one. Claimed: the result is a function of the text alone.
#[verifier::external_body]
pub(crate) fn parse_json_object(text: &str) -> (r: Option<JsonFields>)
    ensures
        match r {
            Some(f) => spec_json_object(text@) == Some(fields_view(f@)),
            None => spec_json_object(text@) is None,
        },
{
    match serde_json::from_str::<serde_json::Value>(text) {
        Ok(serde_json::Value::Object(map)) => Some(map.into_iter().map(|(k, v)| match v {
            serde_json::Value::String(s) => (k, Some(s)),
            _ => (k, None),
        }).collect()),
        _ => None,
    }
}

} // verus!
