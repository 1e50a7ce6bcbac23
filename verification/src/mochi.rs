//! Mochi exports: the EDN data file rewritten as JSON text.
use vstd::prelude::*;
use crate::text::{
    chars_of, is_alphanumeric, is_whitespace, is_ws, spec_is_alphanumeric, string_of, trim_end, ws_suffix,
    ws_suffix_len,
};

verus! {

/// A character that continues an EDN keyword.
pub open spec fn keyword_char(c: char) -> bool {
    spec_is_alphanumeric(c) || c == '-' || c == '_' || c == '/' || c == '.' || c == '?'
}

/// Where the keyword that starts at `k` ends.
pub open spec fn keyword_end(s: Seq<char>, k: int) -> int
    decreases s.len() - k,
{
    if 0 <= k < s.len() && keyword_char(s[k]) {
        keyword_end(s, k + 1)
    } else {
        k
    }
}

/// Where a string literal whose text starts at `k` ends: after its closing
/// quote (a backslash takes the next character with it), or at the end.
pub open spec fn string_end(s: Seq<char>, k: int) -> int
    decreases s.len() - k,
{
    if k < 0 || k >= s.len() {
        k
    } else if s[k] == '\\' && k + 1 < s.len() {
        string_end(s, k + 2)
    } else if s[k] == '"' {
        k + 1
    } else {
        string_end(s, k + 1)
    }
}

/// Where the run of whitespace and commas that starts at `k` ends.
pub open spec fn skip_sep(s: Seq<char>, k: int) -> int
    decreases s.len() - k,
{
    if 0 <= k < s.len() && (is_ws(s[k]) || s[k] == ',') {
        skip_sep(s, k + 1)
    } else {
        k
    }
}

pub proof fn lemma_ends(s: Seq<char>, k: int)
    requires
        0 <= k <= s.len(),
    ensures
        k <= keyword_end(s, k) <= s.len(),
        k <= string_end(s, k) <= s.len(),
        k <= skip_sep(s, k) <= s.len(),
    decreases s.len() - k,
{
    if k < s.len() {
        lemma_ends(s, k + 1);
        if s[k] == '\\' && k + 1 < s.len() {
            lemma_ends(s, k + 2);
        }
    }
}

/// Whether the text so far, trailing whitespace aside, ends where a comma
/// must come before the next value: after `}`, `]`, `"` or an alphanumeric
/// character.
pub open spec fn needs_comma(out: Seq<char>) -> bool {
    let t = trim_end(out);
    if t.len() == 0 {
        false
    } else {
        let c = t.last();
        c == '}' || c == ']' || c == '"' || spec_is_alphanumeric(c)
    }
}

/// The JSON text for the EDN from position `i` on, after `out`: keywords
/// become strings, sets `#{` become arrays, strings are copied, and a run of
/// whitespace and commas becomes a space, with a comma before it when one
/// value ends there and another follows.
pub open spec fn edn_from(s: Seq<char>, i: int, out: Seq<char>) -> Seq<char>
    decreases s.len() - i,
{
    if i < 0 || i >= s.len() {
        out
    } else {
        let c = s[i];
        if c == ':' && (i == 0 || !spec_is_alphanumeric(s[i - 1])) {
            proof {
                lemma_ends(s, i + 1);
            }
            let e = keyword_end(s, i + 1);
            edn_from(s, e, out + seq!['"'] + s.subrange(i + 1, e) + seq!['"'])
        } else if c == '{' || c == '}' || c == '[' || c == ']' {
            edn_from(s, i + 1, out.push(c))
        } else if c == '#' && i + 1 < s.len() && s[i + 1] == '{' {
            edn_from(s, i + 2, out.push('['))
        } else if c == '"' {
            proof {
                lemma_ends(s, i + 1);
            }
            let e = string_end(s, i + 1);
            edn_from(s, e, out + seq!['"'] + s.subrange(i + 1, e))
        } else if is_ws(c) || c == ',' {
            proof {
                lemma_ends(s, i + 1);
            }
            let j = skip_sep(s, i + 1);
            let comma = needs_comma(out) && j < s.len() && s[j] != '}' && s[j] != ']';
            edn_from(s, j, out + (if comma { seq![','] } else { Seq::empty() }) + seq![' '])
        } else {
            edn_from(s, i + 1, out.push(c))
        }
    }
}

pub open spec fn spec_edn_to_json_text(edn: Seq<char>) -> Seq<char> {
    edn_from(edn, 0, Seq::empty())
}

fn push_range(out: &mut Vec<char>, s: &Vec<char>, from: usize, to: usize)
    requires
        from <= to <= s@.len(),
    ensures
        final(out)@ == old(out)@ + s@.subrange(from as int, to as int),
{
    let mut k = from;
    while k < to
        invariant
            from <= k <= to <= s@.len(),
            out@ == old(out)@ + s@.subrange(from as int, k as int),
        decreases to - k,
    {
        out.push(s[k]);
        assert(s@.subrange(from as int, k + 1) =~= s@.subrange(from as int, k as int).push(s@[k as int]));
        k += 1;
    }
}

fn needs_comma_exec(out: &Vec<char>) -> (b: bool)
    ensures
        b == needs_comma(out@),
{
    let k = ws_suffix(out);
    if k == out.len() {
        return false;
    }
    let c = out[out.len() - 1 - k];
    assert(trim_end(out@).last() == c);
    c == '}' || c == ']' || c == '"' || is_alphanumeric(c)
}

/// The JSON text of an EDN data file.
pub fn edn_to_json_text(edn: &str) -> (r: String)
    ensures
        r@ == spec_edn_to_json_text(edn@),
{
    let s = chars_of(edn);
    let mut out: Vec<char> = Vec::new();
    let mut i: usize = 0;
    while i < s.len()
        invariant
            i <= s.len(),
            s@ == edn@,
            edn_from(s@, i as int, out@) == spec_edn_to_json_text(edn@),
        decreases s.len() - i,
    {
        let c = s[i];
        let ghost before = out@;
        proof {
            lemma_ends(s@, i + 1);
        }
        let after_alnum = i > 0 && is_alphanumeric(s[i - 1]);
        if c == ':' && !after_alnum {
            let mut e = i + 1;
            while e < s.len() && (is_alphanumeric(s[e]) || s[e] == '-' || s[e] == '_' || s[e] == '/' || s[e] == '.' || s[e] == '?')
                invariant
                    i + 1 <= e <= s.len(),
                    keyword_end(s@, i + 1) == keyword_end(s@, e as int),
                decreases s.len() - e,
            {
                e += 1;
            }
            out.push('"');
            push_range(&mut out, &s, i + 1, e);
            out.push('"');
            assert(out@ =~= before + seq!['"'] + s@.subrange(i + 1, e as int) + seq!['"']);
            i = e;
        } else if c == '{' || c == '}' || c == '[' || c == ']' {
            out.push(c);
            i += 1;
        } else if c == '#' && i + 1 < s.len() && s[i + 1] == '{' {
            out.push('[');
            i += 2;
        } else if c == '"' {
            let mut e = i + 1;
            let mut done = false;
            while e < s.len() && !done
                invariant
                    i + 1 <= e <= s.len(),
                    done ==> string_end(s@, i + 1) == e,
                    !done ==> string_end(s@, i + 1) == string_end(s@, e as int),
                decreases s.len() - e,
            {
                if s[e] == '\\' && e + 1 < s.len() {
                    e += 2;
                } else if s[e] == '"' {
                    e += 1;
                    done = true;
                } else {
                    e += 1;
                }
            }
            out.push('"');
            push_range(&mut out, &s, i + 1, e);
            assert(out@ =~= before + seq!['"'] + s@.subrange(i + 1, e as int));
            i = e;
        } else if is_whitespace(c) || c == ',' {
            let comma_before = needs_comma_exec(&out);
            let mut j = i + 1;
            while j < s.len() && (is_whitespace(s[j]) || s[j] == ',')
                invariant
                    i + 1 <= j <= s.len(),
                    skip_sep(s@, i + 1) == skip_sep(s@, j as int),
                decreases s.len() - j,
            {
                j += 1;
            }
            let comma = comma_before && j < s.len() && s[j] != '}' && s[j] != ']';
            if comma {
                out.push(',');
            }
            out.push(' ');
            if comma {
                assert(out@ =~= before + seq![','] + seq![' ']);
            } else {
                assert(out@ =~= before + Seq::<char>::empty() + seq![' ']);
            }
            i = j;
        } else {
            out.push(c);
            i += 1;
        }
    }
    string_of(&out)
}

} // verus!
