//! Character-level text operations shared by the importers and parsers.
//!
//! Text is handled as `Vec<char>` inside the library; its view is the
//! `Seq<char>` of Unicode scalar values, the same view that vstd gives `str`.
use vstd::prelude::*;

verus! {

// ---------------------------------------------------------------------------
// Boundary between `str`/`String` and character vectors
// ---------------------------------------------------------------------------

/// `str::chars` collected into a vector: the characters of `s`, in order.
#[verifier::external_body]
pub(crate) fn chars_of(s: &str) -> (r: Vec<char>)
    ensures
        r@ == s@,
{
    s.chars().collect()
}

/// A `String` made of the characters in `v` (`FromIterator<&char> for String`).
#[verifier::external_body]
pub(crate) fn string_of(v: &Vec<char>) -> (r: String)
    ensures
        r@ == v@,
{
    v.iter().collect()
}

/// An owned copy of a string slice.
pub fn owned(s: &str) -> (r: String)
    ensures
        r@ == s@,
{
    s.to_owned()
}

// ---------------------------------------------------------------------------
// Character classes
// ---------------------------------------------------------------------------

/// Unicode `White_Space`, the property that `char::is_whitespace` tests.
pub open spec fn is_ws(c: char) -> bool {
    let v = c as u32;
    ||| 0x9 <= v <= 0xD
    ||| v == 0x20
    ||| v == 0x85
    ||| v == 0xA0
    ||| v == 0x1680
    ||| 0x2000 <= v <= 0x200A
    ||| v == 0x2028
    ||| v == 0x2029
    ||| v == 0x202F
    ||| v == 0x205F
    ||| v == 0x3000
}

pub fn is_whitespace(c: char) -> (b: bool)
    ensures
        b == is_ws(c),
{
    let v = c as u32;
    (0x9 <= v && v <= 0xD) || v == 0x20 || v == 0x85 || v == 0xA0 || v == 0x1680 || (0x2000
        <= v && v <= 0x200A) || v == 0x2028 || v == 0x2029 || v == 0x202F || v == 0x205F || v
        == 0x3000
}

/// `u8::is_ascii_whitespace` / `char::is_ascii_whitespace`: space, tab, LF, FF, CR.
pub open spec fn is_ascii_ws(c: char) -> bool {
    c == ' ' || c == '\t' || c == '\n' || c == '\x0C' || c == '\r'
}

pub open spec fn is_digit(c: char) -> bool {
    '0' <= c <= '9'
}

pub open spec fn is_ascii_upper(c: char) -> bool {
    'A' <= c <= 'Z'
}

pub open spec fn is_ascii_lower(c: char) -> bool {
    'a' <= c <= 'z'
}

pub open spec fn is_ascii_alnum(c: char) -> bool {
    is_digit(c) || is_ascii_upper(c) || is_ascii_lower(c)
}

/// `char::to_ascii_lowercase`.
pub open spec fn lower_char(c: char) -> char {
    if is_ascii_upper(c) {
        ((c as u32) + 32) as char
    } else {
        c
    }
}

pub fn to_ascii_lower(c: char) -> (r: char)
    ensures
        r == lower_char(c),
{
    if 'A' <= c && c <= 'Z' {
        ((c as u8) + 32) as char
    } else {
        c
    }
}

/// Case-folded text: each ASCII capital replaced by its small letter.
pub open spec fn lower(s: Seq<char>) -> Seq<char> {
    s.map_values(|c: char| lower_char(c))
}

pub fn lower_vec(s: &Vec<char>) -> (r: Vec<char>)
    ensures
        r@ == lower(s@),
{
    let mut r: Vec<char> = Vec::new();
    let mut i: usize = 0;
    while i < s.len()
        invariant
            i <= s.len(),
            r@ == lower(s@.subrange(0, i as int)),
        decreases s.len() - i,
    {
        let c = to_ascii_lower(s[i]);
        r.push(c);
        assert(lower(s@.subrange(0, i + 1)) =~= lower(s@.subrange(0, i as int)).push(c));
        i += 1;
    }
    assert(s@.subrange(0, s.len() as int) =~= s@);
    r
}

// ---------------------------------------------------------------------------
// Slices and concatenation
// ---------------------------------------------------------------------------

pub fn slice(s: &Vec<char>, from: usize, to: usize) -> (r: Vec<char>)
    requires
        from <= to <= s.len(),
    ensures
        r@ == s@.subrange(from as int, to as int),
{
    let mut r: Vec<char> = Vec::new();
    let mut i = from;
    while i < to
        invariant
            from <= i <= to <= s.len(),
            r@ == s@.subrange(from as int, i as int),
        decreases to - i,
    {
        r.push(s[i]);
        assert(s@.subrange(from as int, i + 1) =~= s@.subrange(from as int, i as int).push(s@[i as int]));
        i += 1;
    }
    r
}

pub fn push_all(out: &mut Vec<char>, s: &Vec<char>)
    ensures
        final(out)@ == old(out)@ + s@,
{
    let mut i: usize = 0;
    while i < s.len()
        invariant
            i <= s.len(),
            out@ == old(out)@ + s@.subrange(0, i as int),
        decreases s.len() - i,
    {
        out.push(s[i]);
        assert(old(out)@ + s@.subrange(0, i + 1) =~= (old(out)@ + s@.subrange(0, i as int)).push(s@[i as int]));
        i += 1;
    }
    assert(s@.subrange(0, s.len() as int) =~= s@);
}

pub fn push_str(out: &mut Vec<char>, s: &str)
    ensures
        final(out)@ == old(out)@ + s@,
{
    let v = chars_of(s);
    push_all(out, &v);
}

pub fn concat(a: &Vec<char>, b: &Vec<char>) -> (r: Vec<char>)
    ensures
        r@ == a@ + b@,
{
    let mut r = a.clone();
    assert(r@ =~= a@);
    push_all(&mut r, b);
    r
}

// ---------------------------------------------------------------------------
// Whitespace trimming (`str::trim`, `trim_start`, `trim_end`)
// ---------------------------------------------------------------------------

/// Number of leading characters that are whitespace.
pub open spec fn ws_prefix_len(s: Seq<char>) -> nat
    decreases s.len(),
{
    if s.len() > 0 && is_ws(s[0]) {
        1 + ws_prefix_len(s.drop_first())
    } else {
        0
    }
}

/// Number of trailing characters that are whitespace.
pub open spec fn ws_suffix_len(s: Seq<char>) -> nat
    decreases s.len(),
{
    if s.len() > 0 && is_ws(s.last()) {
        1 + ws_suffix_len(s.drop_last())
    } else {
        0
    }
}

pub open spec fn trim_start(s: Seq<char>) -> Seq<char> {
    s.skip(ws_prefix_len(s) as int)
}

pub open spec fn trim_end(s: Seq<char>) -> Seq<char> {
    s.take(s.len() - ws_suffix_len(s))
}

/// `str::trim`: leading and trailing whitespace removed.
pub open spec fn trim(s: Seq<char>) -> Seq<char> {
    trim_end(trim_start(s))
}

pub proof fn lemma_ws_prefix_len(s: Seq<char>, k: int)
    requires
        0 <= k <= s.len(),
        forall|j: int| 0 <= j < k ==> is_ws(#[trigger] s[j]),
        k == s.len() || !is_ws(s[k]),
    ensures
        ws_prefix_len(s) == k,
    decreases k,
{
    if k > 0 {
        let t = s.drop_first();
        assert forall|j: int| 0 <= j < k - 1 implies is_ws(#[trigger] t[j]) by {
            assert(t[j] == s[j + 1]);
        }
        if k < s.len() {
            assert(t[k - 1] == s[k]);
        }
        lemma_ws_prefix_len(t, k - 1);
    }
}

pub proof fn lemma_ws_suffix_len(s: Seq<char>, k: int)
    requires
        0 <= k <= s.len(),
        forall|j: int| s.len() - k <= j < s.len() ==> is_ws(#[trigger] s[j]),
        k == s.len() || !is_ws(s[s.len() - k - 1]),
    ensures
        ws_suffix_len(s) == k,
    decreases k,
{
    if k > 0 {
        let t = s.drop_last();
        assert forall|j: int| t.len() - (k - 1) <= j < t.len() implies is_ws(#[trigger] t[j]) by {
            assert(t[j] == s[j]);
        }
        if k < s.len() {
            assert(t[t.len() - (k - 1) - 1] == s[s.len() - k - 1]);
        }
        lemma_ws_suffix_len(t, k - 1);
    }
}

pub proof fn lemma_ws_prefix_len_bound(s: Seq<char>)
    ensures
        ws_prefix_len(s) <= s.len(),
        forall|j: int| 0 <= j < ws_prefix_len(s) ==> is_ws(#[trigger] s[j]),
        ws_prefix_len(s) == s.len() || !is_ws(s[ws_prefix_len(s) as int]),
    decreases s.len(),
{
    if s.len() > 0 && is_ws(s[0]) {
        let t = s.drop_first();
        lemma_ws_prefix_len_bound(t);
        assert forall|j: int| 0 <= j < ws_prefix_len(s) implies is_ws(#[trigger] s[j]) by {
            if j > 0 {
                assert(s[j] == t[j - 1]);
            }
        }
    }
}

pub proof fn lemma_ws_suffix_len_bound(s: Seq<char>)
    ensures
        ws_suffix_len(s) <= s.len(),
    decreases s.len(),
{
    if s.len() > 0 && is_ws(s.last()) {
        lemma_ws_suffix_len_bound(s.drop_last());
    }
}

pub proof fn lemma_ws_suffix_facts(s: Seq<char>)
    ensures
        ws_suffix_len(s) <= s.len(),
        ws_suffix_len(s) < s.len() ==> !is_ws(s[s.len() - ws_suffix_len(s) - 1]),
    decreases s.len(),
{
    if s.len() > 0 && is_ws(s.last()) {
        let t = s.drop_last();
        lemma_ws_suffix_facts(t);
        if ws_suffix_len(s) < s.len() {
            assert(s[s.len() - ws_suffix_len(s) - 1] == t[t.len() - ws_suffix_len(t) - 1]);
        }
    }
}

/// Trimming twice is trimming once.
pub proof fn lemma_trim_idempotent(s: Seq<char>)
    ensures
        trim(trim(s)) == trim(s),
{
    let a = trim_start(s);
    lemma_ws_prefix_len_bound(s);
    lemma_ws_suffix_facts(a);
    let b = trim(s);
    assert(b == a.take(a.len() - ws_suffix_len(a)));
    if b.len() == 0 {
        assert(ws_prefix_len(b) == 0);
        assert(ws_suffix_len(b) == 0);
        assert(trim(b) =~= b);
    } else {
        assert(a[0] == s[ws_prefix_len(s) as int]);
        assert(b[0] == a[0]);
        assert(!is_ws(b[0]));
        assert(ws_prefix_len(b) == 0);
        assert(trim_start(b) =~= b);
        assert(b.last() == a[a.len() - ws_suffix_len(a) - 1]);
        assert(ws_suffix_len(b) == 0);
        assert(trim_end(b) =~= b);
    }
}

/// Index of the first non-whitespace character (or the length).
pub fn ws_prefix(s: &Vec<char>) -> (k: usize)
    ensures
        k == ws_prefix_len(s@),
        k <= s.len(),
{
    let mut i: usize = 0;
    while i < s.len() && is_whitespace(s[i])
        invariant
            i <= s.len(),
            forall|j: int| 0 <= j < i ==> is_ws(#[trigger] s@[j]),
        decreases s.len() - i,
    {
        i += 1;
    }
    proof {
        lemma_ws_prefix_len(s@, i as int);
    }
    i
}

/// Number of trailing whitespace characters.
pub fn ws_suffix(s: &Vec<char>) -> (k: usize)
    ensures
        k == ws_suffix_len(s@),
        k <= s.len(),
{
    let mut k: usize = 0;
    while k < s.len() && is_whitespace(s[s.len() - 1 - k])
        invariant
            k <= s.len(),
            forall|j: int| s.len() - k <= j < s.len() ==> is_ws(#[trigger] s@[j]),
        decreases s.len() - k,
    {
        k += 1;
    }
    proof {
        lemma_ws_suffix_len(s@, k as int);
    }
    k
}

pub fn trim_vec(s: &Vec<char>) -> (r: Vec<char>)
    ensures
        r@ == trim(s@),
{
    let a = ws_prefix(s);
    let t = slice(s, a, s.len());
    assert(t@ == trim_start(s@));
    let b = ws_suffix(&t);
    slice(&t, 0, t.len() - b)
}

pub fn trim_start_vec(s: &Vec<char>) -> (r: Vec<char>)
    ensures
        r@ == trim_start(s@),
{
    let a = ws_prefix(s);
    slice(s, a, s.len())
}

pub fn trim_end_vec(s: &Vec<char>) -> (r: Vec<char>)
    ensures
        r@ == trim_end(s@),
{
    let b = ws_suffix(s);
    slice(s, 0, s.len() - b)
}


// ---------------------------------------------------------------------------
// Searching (`str::find`, `contains`, `starts_with`, `ends_with`)
// ---------------------------------------------------------------------------

/// `needle` occurs in `hay` starting at index `i`.
pub open spec fn matches_at(hay: Seq<char>, needle: Seq<char>, i: int) -> bool {
    0 <= i && i + needle.len() <= hay.len() && hay.subrange(i, i + needle.len()) == needle
}

/// The first index at or after `i` where `needle` occurs in `hay`.
pub open spec fn find_from(hay: Seq<char>, needle: Seq<char>, i: int) -> Option<int>
    decreases hay.len() + 1 - i,
{
    if i < 0 || i + needle.len() > hay.len() {
        None
    } else if matches_at(hay, needle, i) {
        Some(i)
    } else {
        find_from(hay, needle, i + 1)
    }
}

/// `str::find`: the first index where `needle` occurs in `hay`.
pub open spec fn find(hay: Seq<char>, needle: Seq<char>) -> Option<int> {
    find_from(hay, needle, 0)
}

pub open spec fn contains(hay: Seq<char>, needle: Seq<char>) -> bool {
    find(hay, needle) is Some
}

pub open spec fn starts_with(s: Seq<char>, prefix: Seq<char>) -> bool {
    matches_at(s, prefix, 0)
}

pub open spec fn ends_with(s: Seq<char>, suffix: Seq<char>) -> bool {
    matches_at(s, suffix, s.len() - suffix.len())
}

/// What `find_from` returns: the least matching index not before `i`.
pub proof fn lemma_find_from(hay: Seq<char>, needle: Seq<char>, i: int)
    requires
        0 <= i,
    ensures
        match find_from(hay, needle, i) {
            Some(k) => i <= k && matches_at(hay, needle, k) && forall|j: int|
                i <= j < k ==> !#[trigger] matches_at(hay, needle, j),
            None => forall|j: int| i <= j ==> !#[trigger] matches_at(hay, needle, j),
        },
    decreases hay.len() + 1 - i,
{
    if i + needle.len() > hay.len() {
    } else if matches_at(hay, needle, i) {
    } else {
        lemma_find_from(hay, needle, i + 1);
    }
}

/// Conversely, the least matching index is what `find_from` returns.
pub proof fn lemma_find_from_is(hay: Seq<char>, needle: Seq<char>, i: int, k: Option<int>)
    requires
        0 <= i,
        match k {
            Some(k) => i <= k && matches_at(hay, needle, k) && forall|j: int|
                i <= j < k ==> !#[trigger] matches_at(hay, needle, j),
            None => forall|j: int| i <= j ==> !#[trigger] matches_at(hay, needle, j),
        },
    ensures
        find_from(hay, needle, i) == k,
{
    lemma_find_from(hay, needle, i);
    match (find_from(hay, needle, i), k) {
        (Some(a), Some(b)) => {
            if a < b {
                assert(!matches_at(hay, needle, a));
            } else if b < a {
                assert(!matches_at(hay, needle, b));
            }
        },
        (Some(a), None) => {
            assert(!matches_at(hay, needle, a));
        },
        (None, Some(b)) => {
            assert(!matches_at(hay, needle, b));
        },
        (None, None) => {},
    }
}

/// Whether `needle` occurs in `hay` at index `i`.
pub fn matches_at_exec(hay: &Vec<char>, needle: &Vec<char>, i: usize) -> (b: bool)
    ensures
        b == matches_at(hay@, needle@, i as int),
{
    if i > hay.len() || needle.len() > hay.len() - i {
        return false;
    }
    let mut j: usize = 0;
    while j < needle.len()
        invariant
            i + needle.len() <= hay.len(),
            j <= needle.len(),
            forall|k: int| 0 <= k < j ==> hay@[i + k] == needle@[k],
        decreases needle.len() - j,
    {
        if hay[i + j] != needle[j] {
            assert(hay@.subrange(i as int, i + needle.len())[j as int] != needle@[j as int]);
            return false;
        }
        j += 1;
    }
    assert(hay@.subrange(i as int, i + needle.len()) =~= needle@);
    true
}

pub fn find_from_exec(hay: &Vec<char>, needle: &Vec<char>, from: usize) -> (r: Option<usize>)
    ensures
        match r {
            Some(k) => find_from(hay@, needle@, from as int) == Some(k as int),
            None => find_from(hay@, needle@, from as int) is None,
        },
{
    if needle.len() == 0 {
        if from <= hay.len() {
            assert(matches_at(hay@, needle@, from as int)) by {
                assert(hay@.subrange(from as int, from as int) =~= needle@);
            }
            return Some(from);
        }
        return None;
    }
    let mut i = from;
    while i <= hay.len() && needle.len() <= hay.len() - i
        invariant
            from <= i,
            needle.len() > 0,
            find_from(hay@, needle@, from as int) == find_from(hay@, needle@, i as int),
        decreases hay.len() + 1 - i,
    {
        if matches_at_exec(hay, needle, i) {
            return Some(i);
        }
        i += 1;
    }
    None
}

pub fn find_exec(hay: &Vec<char>, needle: &Vec<char>) -> (r: Option<usize>)
    ensures
        match r {
            Some(k) => find(hay@, needle@) == Some(k as int),
            None => find(hay@, needle@) is None,
        },
{
    find_from_exec(hay, needle, 0)
}

pub fn contains_exec(hay: &Vec<char>, needle: &Vec<char>) -> (b: bool)
    ensures
        b == contains(hay@, needle@),
{
    find_exec(hay, needle).is_some()
}

pub fn contains_str(hay: &Vec<char>, needle: &str) -> (b: bool)
    ensures
        b == contains(hay@, needle@),
{
    let n = chars_of(needle);
    contains_exec(hay, &n)
}

pub fn find_char(hay: &Vec<char>, c: char) -> (r: Option<usize>)
    ensures
        match r {
            Some(k) => find(hay@, seq![c]) == Some(k as int),
            None => find(hay@, seq![c]) is None,
        },
{
    let mut n: Vec<char> = Vec::new();
    n.push(c);
    assert(n@ =~= seq![c]);
    find_exec(hay, &n)
}

pub fn contains_char(hay: &Vec<char>, c: char) -> (b: bool)
    ensures
        b == contains(hay@, seq![c]),
{
    find_char(hay, c).is_some()
}

pub fn starts_with_exec(s: &Vec<char>, prefix: &Vec<char>) -> (b: bool)
    ensures
        b == starts_with(s@, prefix@),
{
    matches_at_exec(s, prefix, 0)
}

pub fn ends_with_exec(s: &Vec<char>, suffix: &Vec<char>) -> (b: bool)
    ensures
        b == ends_with(s@, suffix@),
{
    if suffix.len() > s.len() {
        return false;
    }
    matches_at_exec(s, suffix, s.len() - suffix.len())
}

// ---------------------------------------------------------------------------
// Replacing and counting (`str::replace`, `str::matches(..).count()`)
// ---------------------------------------------------------------------------

/// `str::replace`: every non-overlapping occurrence of `from` (scanning left
/// to right) replaced by `to`.
pub open spec fn replace(s: Seq<char>, from: Seq<char>, to: Seq<char>) -> Seq<char>
    recommends
        from.len() > 0,
    decreases s.len(),
{
    if from.len() == 0 {
        s
    } else {
        match find(s, from) {
            None => s,
            Some(i) => if 0 <= i && i + from.len() <= s.len() {
                s.take(i) + to + replace(s.skip(i + from.len()), from, to)
            } else {
                s
            },
        }
    }
}

/// Number of non-overlapping occurrences of `needle` in `s`.
pub open spec fn count_matches(s: Seq<char>, needle: Seq<char>) -> nat
    recommends
        needle.len() > 0,
    decreases s.len(),
{
    if needle.len() == 0 {
        0
    } else {
        match find(s, needle) {
            None => 0,
            Some(i) => if 0 <= i && i + needle.len() <= s.len() {
                1 + count_matches(s.skip(i + needle.len()), needle)
            } else {
                0
            },
        }
    }
}

/// Searching from an offset is searching the suffix.
pub proof fn lemma_find_from_skip(s: Seq<char>, needle: Seq<char>, p: int)
    requires
        0 <= p <= s.len(),
    ensures
        match find_from(s, needle, p) {
            Some(k) => find(s.skip(p), needle) == Some(k - p),
            None => find(s.skip(p), needle) is None,
        },
{
    let t = s.skip(p);
    lemma_find_from(s, needle, p);
    assert forall|j: int| 0 <= j implies matches_at(t, needle, j) == matches_at(s, needle, j + p) by {
        if 0 <= j && j + needle.len() <= t.len() {
            assert(t.subrange(j, j + needle.len()) =~= s.subrange(j + p, j + p + needle.len()));
        }
    }
    match find_from(s, needle, p) {
        Some(k) => {
            assert(matches_at(t, needle, k - p));
            assert forall|j: int| 0 <= j < k - p implies !#[trigger] matches_at(t, needle, j) by {
                assert(!matches_at(s, needle, j + p));
            }
            lemma_find_from_is(t, needle, 0, Some(k - p));
        },
        None => {
            assert forall|j: int| 0 <= j implies !#[trigger] matches_at(t, needle, j) by {
                assert(!matches_at(s, needle, j + p));
            }
            lemma_find_from_is(t, needle, 0, None);
        },
    }
}

pub fn replace_vec(s: &Vec<char>, from: &Vec<char>, to: &Vec<char>) -> (r: Vec<char>)
    requires
        from.len() > 0,
    ensures
        r@ == replace(s@, from@, to@),
{
    let mut out: Vec<char> = Vec::new();
    let mut p: usize = 0;
    assert(s@.skip(0) =~= s@);
    loop
        invariant
            from.len() > 0,
            p <= s.len(),
            out@ + replace(s@.skip(p as int), from@, to@) == replace(s@, from@, to@),
        decreases s.len() - p,
    {
        proof {
            lemma_find_from_skip(s@, from@, p as int);
            lemma_find_from(s@, from@, p as int);
        }
        match find_from_exec(s, from, p) {
            None => {
                let rest = slice(s, p, s.len());
                push_all(&mut out, &rest);
                assert(s@.skip(p as int) =~= s@.subrange(p as int, s.len() as int));
                return out;
            },
            Some(k) => {
                let piece = slice(s, p, k);
                push_all(&mut out, &piece);
                push_all(&mut out, to);
                proof {
                    let t = s@.skip(p as int);
                    assert(t.take(k - p) =~= piece@);
                    assert(t.skip(k - p + from.len()) =~= s@.skip(k + from.len()));
                    assert(out@ =~= (out@.subrange(0, out@.len() - piece@.len() - to@.len())) + piece@ + to@);
                }
                p = k + from.len();
            },
        }
    }
}

pub fn replace_str(s: &Vec<char>, from: &str, to: &str) -> (r: Vec<char>)
    requires
        from@.len() > 0,
    ensures
        r@ == replace(s@, from@, to@),
{
    let f = chars_of(from);
    let t = chars_of(to);
    replace_vec(s, &f, &t)
}

pub fn count_matches_vec(s: &Vec<char>, needle: &Vec<char>) -> (n: usize)
    requires
        needle.len() > 0,
    ensures
        n == count_matches(s@, needle@),
{
    let mut n: usize = 0;
    let mut p: usize = 0;
    assert(s@.skip(0) =~= s@);
    loop
        invariant
            needle.len() > 0,
            p <= s.len(),
            n <= p,
            n + count_matches(s@.skip(p as int), needle@) == count_matches(s@, needle@),
        decreases s.len() - p,
    {
        proof {
            lemma_find_from_skip(s@, needle@, p as int);
            lemma_find_from(s@, needle@, p as int);
        }
        match find_from_exec(s, needle, p) {
            None => {
                return n;
            },
            Some(k) => {
                proof {
                    let t = s@.skip(p as int);
                    assert(t.skip(k - p + needle.len()) =~= s@.skip(k + needle.len()));
                }
                n = n + 1;
                p = k + needle.len();
            },
        }
    }
}


// ---------------------------------------------------------------------------
// Splitting (`str::split`, `str::lines`)
// ---------------------------------------------------------------------------

/// `str::split` on a non-empty separator: the pieces between occurrences.
pub open spec fn split(s: Seq<char>, sep: Seq<char>) -> Seq<Seq<char>>
    recommends
        sep.len() > 0,
    decreases s.len(),
{
    if sep.len() == 0 {
        seq![s]
    } else {
        match find(s, sep) {
            Some(i) => if 0 <= i && i + sep.len() <= s.len() {
                seq![s.take(i)] + split(s.skip(i + sep.len()), sep)
            } else {
                seq![s]
            },
            None => seq![s],
        }
    }
}

/// The texts held by a sequence of character vectors.
pub open spec fn views(v: Seq<Vec<char>>) -> Seq<Seq<char>> {
    v.map_values(|x: Vec<char>| x@)
}

/// A line without its `\r` before the line feed.
pub open spec fn drop_cr(line: Seq<char>) -> Seq<char> {
    if line.len() > 0 && line.last() == '\r' {
        line.drop_last()
    } else {
        line
    }
}

/// `str::lines`: pieces ended by `\n` (a `\r` before that `\n` dropped); a
/// final piece without `\n` is kept as it is, and an empty final piece is
/// not a line.
pub open spec fn lines(s: Seq<char>) -> Seq<Seq<char>>
    decreases s.len(),
{
    if s.len() == 0 {
        seq![]
    } else {
        match find(s, seq!['\n']) {
            Some(i) => if 0 <= i && i < s.len() {
                seq![drop_cr(s.take(i))] + lines(s.skip(i + 1))
            } else {
                seq![s]
            },
            None => seq![s],
        }
    }
}

pub fn split_vec(s: &Vec<char>, sep: &Vec<char>) -> (r: Vec<Vec<char>>)
    requires
        sep.len() > 0,
    ensures
        views(r@) == split(s@, sep@),
{
    let mut out: Vec<Vec<char>> = Vec::new();
    let mut p: usize = 0;
    assert(s@.skip(0) =~= s@);
    loop
        invariant
            sep.len() > 0,
            p <= s.len(),
            views(out@) + split(s@.skip(p as int), sep@) == split(s@, sep@),
        decreases s.len() - p,
    {
        proof {
            lemma_find_from_skip(s@, sep@, p as int);
            lemma_find_from(s@, sep@, p as int);
        }
        match find_from_exec(s, sep, p) {
            None => {
                let rest = slice(s, p, s.len());
                proof {
                    assert(s@.skip(p as int) =~= rest@);
                }
                let ghost before = views(out@);
                out.push(rest);
                assert(views(out@) =~= before.push(rest@));
                assert(views(out@) =~= before + seq![rest@]);
                return out;
            },
            Some(k) => {
                let piece = slice(s, p, k);
                let ghost before = views(out@);
                out.push(piece);
                proof {
                    let t = s@.skip(p as int);
                    assert(t.take(k - p) =~= piece@);
                    assert(t.skip(k - p + sep.len()) =~= s@.skip(k + sep.len()));
                    assert(views(out@) =~= before.push(piece@));
                    assert(seq![piece@] + split(s@.skip(k + sep.len()), sep@) == split(t, sep@));
                    assert(views(out@) + split(s@.skip(k + sep.len()), sep@) =~= before + (
                    seq![piece@] + split(s@.skip(k + sep.len()), sep@)));
                }
                p = k + sep.len();
            },
        }
    }
}

pub fn drop_cr_vec(line: Vec<char>) -> (r: Vec<char>)
    ensures
        r@ == drop_cr(line@),
{
    let mut line = line;
    if line.len() > 0 && line[line.len() - 1] == '\r' {
        line.pop();
    }
    line
}

pub fn lines_vec(s: &Vec<char>) -> (r: Vec<Vec<char>>)
    ensures
        views(r@) == lines(s@),
{
    let mut out: Vec<Vec<char>> = Vec::new();
    let mut p: usize = 0;
    let mut nl: Vec<char> = Vec::new();
    nl.push('\n');
    assert(nl@ =~= seq!['\n']);
    assert(s@.skip(0) =~= s@);
    while p < s.len()
        invariant
            nl@ == seq!['\n'],
            p <= s.len(),
            views(out@) + lines(s@.skip(p as int)) == lines(s@),
        decreases s.len() - p,
    {
        proof {
            lemma_find_from_skip(s@, nl@, p as int);
            lemma_find_from(s@, nl@, p as int);
        }
        match find_from_exec(s, &nl, p) {
            None => {
                let rest = slice(s, p, s.len());
                proof {
                    assert(s@.skip(p as int) =~= rest@);
                }
                let ghost before = views(out@);
                out.push(rest);
                assert(views(out@) =~= before + seq![rest@]);
                return out;
            },
            Some(k) => {
                let piece = slice(s, p, k);
                let piece = drop_cr_vec(piece);
                let ghost before = views(out@);
                out.push(piece);
                proof {
                    let t = s@.skip(p as int);
                    assert(t.take(k - p) =~= s@.subrange(p as int, k as int));
                    assert(t.skip(k - p + 1) =~= s@.skip(k + 1));
                    assert(views(out@) =~= before.push(piece@));
                    assert(seq![piece@] + lines(s@.skip(k + 1)) == lines(t));
                    assert(views(out@) + lines(s@.skip(k + 1)) =~= before + (seq![piece@]
                        + lines(s@.skip(k + 1))));
                }
                p = k + 1;
            },
        }
    }
    assert(s@.skip(p as int) =~= Seq::<char>::empty());
    assert(views(out@) =~= views(out@) + lines(s@.skip(p as int)));
    out
}


// ---------------------------------------------------------------------------
// Numbers in decimal
// ---------------------------------------------------------------------------

pub open spec fn digit_char(d: nat) -> char
    recommends
        d < 10,
{
    (('0' as u32) + d) as char
}

pub open spec fn digit_value(c: char) -> nat {
    ((c as u32) - ('0' as u32)) as nat
}

/// The decimal digits of `n`, without leading zeros (`Display for usize`).
pub open spec fn decimal(n: nat) -> Seq<char>
    decreases n,
{
    if n < 10 {
        seq![digit_char(n)]
    } else {
        decimal(n / 10).push(digit_char(n % 10))
    }
}

/// The number that the digits `s` spell in decimal (any leading zeros allowed).
pub open spec fn digits_value(s: Seq<char>) -> nat
    decreases s.len(),
{
    if s.len() == 0 {
        0
    } else {
        digits_value(s.drop_last()) * 10 + digit_value(s.last())
    }
}

pub open spec fn all_digits(s: Seq<char>) -> bool {
    forall|i: int| 0 <= i < s.len() ==> is_digit(#[trigger] s[i])
}

pub fn push_decimal(out: &mut Vec<char>, n: usize)
    ensures
        final(out)@ == old(out)@ + decimal(n as nat),
    decreases n,
{
    if n >= 10 {
        push_decimal(out, n / 10);
    }
    let d = (n % 10) as u8;
    let c = (48u8 + d) as char;
    assert(c == digit_char((n % 10) as nat));
    out.push(c);
    proof {
        if n >= 10 {
            assert(decimal(n as nat) == decimal((n / 10) as nat).push(digit_char((n % 10) as nat)));
        } else {
            assert(decimal(n as nat) == seq![digit_char(n as nat)]);
        }
    }
}

pub fn is_digit_exec(c: char) -> (b: bool)
    ensures
        b == is_digit(c),
{
    '0' <= c && c <= '9'
}

pub fn all_digits_exec(s: &Vec<char>) -> (b: bool)
    ensures
        b == all_digits(s@),
{
    let mut i: usize = 0;
    while i < s.len()
        invariant
            i <= s.len(),
            forall|j: int| 0 <= j < i ==> is_digit(#[trigger] s@[j]),
        decreases s.len() - i,
    {
        if !is_digit_exec(s[i]) {
            return false;
        }
        i += 1;
    }
    true
}

// ---------------------------------------------------------------------------
// UTF-8 length (`str::len`)
// ---------------------------------------------------------------------------

/// Bytes that UTF-8 takes for one character.
pub open spec fn utf8_width(c: char) -> nat {
    let v = c as u32;
    if v < 0x80 {
        1
    } else if v < 0x800 {
        2
    } else if v < 0x10000 {
        3
    } else {
        4
    }
}

/// `str::len`: the length of the text in UTF-8 bytes.
pub open spec fn byte_len(s: Seq<char>) -> nat
    decreases s.len(),
{
    if s.len() == 0 {
        0
    } else {
        byte_len(s.drop_last()) + utf8_width(s.last())
    }
}

/// `p` put before what `o` holds.
pub open spec fn with_prefix(p: Seq<char>, o: Option<Seq<char>>) -> Option<Seq<char>> {
    match o {
        Some(r) => Some(p + r),
        None => None,
    }
}

/// `&s[..n]` on the UTF-8 form of `s`, `n` capped at its length: the
/// characters of its first `n` bytes, `None` where byte `n` falls inside a
/// character.
pub open spec fn byte_prefix(s: Seq<char>, n: int) -> Option<Seq<char>>
    decreases s.len(),
{
    if s.len() == 0 || n <= 0 {
        Some(Seq::empty())
    } else if utf8_width(s[0]) <= n {
        with_prefix(seq![s[0]], byte_prefix(s.drop_first(), n - utf8_width(s[0])))
    } else {
        None
    }
}

pub fn byte_prefix_exec(s: &Vec<char>, n: usize) -> (r: Option<Vec<char>>)
    ensures
        match r {
            Some(p) => byte_prefix(s@, n as int) == Some(p@),
            None => byte_prefix(s@, n as int) is None,
        },
{
    let mut out: Vec<char> = Vec::new();
    let mut budget: usize = n;
    let mut i: usize = 0;
    assert(s@.skip(0) =~= s@);
    proof {
        match byte_prefix(s@, n as int) {
            Some(r) => {
                assert(Seq::<char>::empty() + r =~= r);
            },
            None => {},
        }
    }
    while i < s.len() && budget > 0
        invariant
            i <= s.len(),
            byte_prefix(s@, n as int) == with_prefix(out@, byte_prefix(s@.skip(i as int), budget as int)),
        decreases s.len() - i,
    {
        let c = s[i];
        let v = c as u32;
        let w: usize = if v < 0x80 {
            1
        } else if v < 0x800 {
            2
        } else if v < 0x10000 {
            3
        } else {
            4
        };
        assert(w == utf8_width(c));
        assert(s@.skip(i as int).drop_first() =~= s@.skip(i + 1));
        assert(s@.skip(i as int)[0] == c);
        if w > budget {
            return None;
        }
        proof {
            let rest = byte_prefix(s@.skip(i + 1), budget - w);
            match rest {
                Some(r) => {
                    assert(out@ + (seq![c] + r) =~= out@.push(c) + r);
                },
                None => {},
            }
        }
        out.push(c);
        budget = budget - w;
        i += 1;
    }
    assert(out@ + Seq::<char>::empty() =~= out@);
    Some(out)
}

/// Whether the UTF-8 length of `s` exceeds `n` bytes.
pub fn byte_len_exceeds(s: &Vec<char>, n: usize) -> (b: bool)
    ensures
        b == (byte_len(s@) > n),
{
    let mut total: usize = 0;
    let mut i: usize = 0;
    while i < s.len()
        invariant
            i <= s.len(),
            total == byte_len(s@.subrange(0, i as int)),
            total <= n,
        decreases s.len() - i,
    {
        let v = s[i] as u32;
        let w: usize = if v < 0x80 {
            1
        } else if v < 0x800 {
            2
        } else if v < 0x10000 {
            3
        } else {
            4
        };
        assert(s@.subrange(0, i + 1).drop_last() =~= s@.subrange(0, i as int));
        if w > n - total {
            proof {
                lemma_byte_len_prefix_mono(s@, i + 1);
            }
            return true;
        }
        total = total + w;
        i += 1;
    }
    assert(s@.subrange(0, s.len() as int) =~= s@);
    false
}

/// A longer prefix is at least as long in bytes.
pub proof fn lemma_byte_len_prefix_mono(s: Seq<char>, k: int)
    requires
        0 <= k <= s.len(),
    ensures
        byte_len(s.subrange(0, k)) <= byte_len(s),
    decreases s.len() - k,
{
    if k < s.len() {
        lemma_byte_len_prefix_mono(s, k + 1);
        assert(s.subrange(0, k + 1).drop_last() =~= s.subrange(0, k));
    } else {
        assert(s.subrange(0, k) =~= s);
    }
}

// ---------------------------------------------------------------------------
// Trimming one given character (`str::trim_matches(c)`)
// ---------------------------------------------------------------------------

pub open spec fn lead_count(s: Seq<char>, c: char) -> nat
    decreases s.len(),
{
    if s.len() > 0 && s[0] == c {
        1 + lead_count(s.drop_first(), c)
    } else {
        0
    }
}

pub open spec fn trail_count(s: Seq<char>, c: char) -> nat
    decreases s.len(),
{
    if s.len() > 0 && s.last() == c {
        1 + trail_count(s.drop_last(), c)
    } else {
        0
    }
}

/// `str::trim_matches(c)`: leading and trailing runs of `c` removed.
pub open spec fn trim_matches(s: Seq<char>, c: char) -> Seq<char> {
    let t = s.skip(lead_count(s, c) as int);
    t.take(t.len() - trail_count(t, c))
}

proof fn lemma_lead_count(s: Seq<char>, c: char, k: int)
    requires
        0 <= k <= s.len(),
        forall|j: int| 0 <= j < k ==> #[trigger] s[j] == c,
        k == s.len() || s[k] != c,
    ensures
        lead_count(s, c) == k,
    decreases k,
{
    if k > 0 {
        let t = s.drop_first();
        assert forall|j: int| 0 <= j < k - 1 implies #[trigger] t[j] == c by {
            assert(t[j] == s[j + 1]);
        }
        if k < s.len() {
            assert(t[k - 1] == s[k]);
        }
        lemma_lead_count(t, c, k - 1);
    }
}

proof fn lemma_trail_count(s: Seq<char>, c: char, k: int)
    requires
        0 <= k <= s.len(),
        forall|j: int| s.len() - k <= j < s.len() ==> #[trigger] s[j] == c,
        k == s.len() || s[s.len() - k - 1] != c,
    ensures
        trail_count(s, c) == k,
    decreases k,
{
    if k > 0 {
        let t = s.drop_last();
        assert forall|j: int| t.len() - (k - 1) <= j < t.len() implies #[trigger] t[j] == c by {
            assert(t[j] == s[j]);
        }
        if k < s.len() {
            assert(t[t.len() - (k - 1) - 1] == s[s.len() - k - 1]);
        }
        lemma_trail_count(t, c, k - 1);
    }
}

pub fn trim_matches_vec(s: &Vec<char>, c: char) -> (r: Vec<char>)
    ensures
        r@ == trim_matches(s@, c),
{
    let mut a: usize = 0;
    while a < s.len() && s[a] == c
        invariant
            a <= s.len(),
            forall|j: int| 0 <= j < a ==> #[trigger] s@[j] == c,
        decreases s.len() - a,
    {
        a += 1;
    }
    proof {
        lemma_lead_count(s@, c, a as int);
    }
    let t = slice(s, a, s.len());
    let mut b: usize = 0;
    while b < t.len() && t[t.len() - 1 - b] == c
        invariant
            b <= t.len(),
            forall|j: int| t.len() - b <= j < t.len() ==> #[trigger] t@[j] == c,
        decreases t.len() - b,
    {
        b += 1;
    }
    proof {
        lemma_trail_count(t@, c, b as int);
    }
    slice(&t, 0, t.len() - b)
}

/// The first `n` characters (all of them when there are fewer).
pub open spec fn take_chars(s: Seq<char>, n: nat) -> Seq<char> {
    if s.len() <= n {
        s
    } else {
        s.take(n as int)
    }
}

pub fn take_chars_vec(s: &Vec<char>, n: usize) -> (r: Vec<char>)
    ensures
        r@ == take_chars(s@, n as nat),
{
    if s.len() <= n {
        slice(s, 0, s.len())
    } else {
        slice(s, 0, n)
    }
}


// ---------------------------------------------------------------------------
// Equality
// ---------------------------------------------------------------------------

pub fn eq_vec(a: &Vec<char>, b: &Vec<char>) -> (r: bool)
    ensures
        r == (a@ == b@),
{
    if a.len() != b.len() {
        return false;
    }
    let mut i: usize = 0;
    while i < a.len()
        invariant
            a.len() == b.len(),
            i <= a.len(),
            forall|j: int| 0 <= j < i ==> a@[j] == b@[j],
        decreases a.len() - i,
    {
        if a[i] != b[i] {
            return false;
        }
        i += 1;
    }
    assert(a@ =~= b@);
    true
}

/// Whether two string slices hold the same text.
pub fn same_text(a: &str, b: &str) -> (r: bool)
    ensures
        r == (a@ == b@),
{
    let av = chars_of(a);
    let bv = chars_of(b);
    eq_vec(&av, &bv)
}


pub fn push_decimal_u64(out: &mut Vec<char>, n: u64)
    ensures
        final(out)@ == old(out)@ + decimal(n as nat),
    decreases n,
{
    if n >= 10 {
        push_decimal_u64(out, n / 10);
    }
    let d = (n % 10) as u8;
    let c = (48u8 + d) as char;
    assert(c == digit_char((n % 10) as nat));
    out.push(c);
    proof {
        if n >= 10 {
            assert(decimal(n as nat) == decimal((n / 10) as nat).push(digit_char((n % 10) as nat)));
        } else {
            assert(decimal(n as nat) == seq![digit_char(n as nat)]);
        }
    }
}

/// `Display for i64`: a `-` before the digits of a negative number.
pub open spec fn int_decimal(x: int) -> Seq<char> {
    if x < 0 {
        seq!['-'] + decimal((-x) as nat)
    } else {
        decimal(x as nat)
    }
}

pub fn push_i64_decimal(out: &mut Vec<char>, x: i64)
    ensures
        final(out)@ == old(out)@ + int_decimal(x as int),
{
    if x < 0 {
        out.push('-');
        let mag: u64 = ((-(x + 1)) as u64) + 1;
        push_decimal_u64(out, mag);
        assert(out@ =~= old(out)@ + int_decimal(x as int));
    } else {
        push_decimal_u64(out, x as u64);
    }
}

// ---------------------------------------------------------------------------
// Order
// ---------------------------------------------------------------------------

/// `a < b` in the order of `str`: lexicographic by characters (comparing
/// UTF-8 bytes, as `str` does, orders characters by their code points).
pub open spec fn text_lt(a: Seq<char>, b: Seq<char>) -> bool
    decreases a.len(),
{
    if b.len() == 0 {
        false
    } else if a.len() == 0 {
        true
    } else if a[0] != b[0] {
        (a[0] as u32) < (b[0] as u32)
    } else {
        text_lt(a.drop_first(), b.drop_first())
    }
}

/// No text comes before itself.
pub proof fn lemma_text_lt_irreflexive(a: Seq<char>)
    ensures
        !text_lt(a, a),
    decreases a.len(),
{
    if a.len() > 0 {
        lemma_text_lt_irreflexive(a.drop_first());
    }
}

/// The text order is transitive.
pub proof fn lemma_text_lt_transitive(a: Seq<char>, b: Seq<char>, c: Seq<char>)
    requires
        text_lt(a, b),
        text_lt(b, c),
    ensures
        text_lt(a, c),
    decreases a.len(),
{
    if a.len() > 0 && a[0] == b[0] && b[0] == c[0] {
        lemma_text_lt_transitive(a.drop_first(), b.drop_first(), c.drop_first());
    }
}

pub fn text_less(a: &str, b: &str) -> (r: bool)
    ensures
        r == text_lt(a@, b@),
{
    let av = chars_of(a);
    let bv = chars_of(b);
    let mut i: usize = 0;
    assert(av@.skip(0) =~= av@);
    assert(bv@.skip(0) =~= bv@);
    while i < av.len() && i < bv.len()
        invariant
            i <= av.len(),
            i <= bv.len(),
            av@ == a@,
            bv@ == b@,
            text_lt(a@, b@) == text_lt(av@.skip(i as int), bv@.skip(i as int)),
        decreases av.len() - i,
    {
        assert(av@.skip(i as int)[0] == av@[i as int]);
        assert(bv@.skip(i as int)[0] == bv@[i as int]);
        if av[i] != bv[i] {
            return (av[i] as u32) < (bv[i] as u32);
        }
        assert(av@.skip(i as int).drop_first() =~= av@.skip(i + 1));
        assert(bv@.skip(i as int).drop_first() =~= bv@.skip(i + 1));
        i += 1;
    }
    i < bv.len()
}

/// The text of `a` followed by that of `b`.
pub fn join_str(a: &str, b: &str) -> (r: String)
    ensures
        r@ == a@ + b@,
{
    let mut v: Vec<char> = Vec::new();
    push_str(&mut v, a);
    push_str(&mut v, b);
    assert(v@ =~= a@ + b@);
    string_of(&v)
}

// ---------------------------------------------------------------------------
// Unicode case mapping (std)
// ---------------------------------------------------------------------------

/// What `char::to_uppercase` yields for `c`: Unicode's full uppercase
/// mapping, one to three characters.
pub uninterp spec fn spec_upper_char(c: char) -> Seq<char>;

/// `char::to_uppercase`, collected into a `String`. Claimed: the result is
/// the uppercase mapping of `c`, a function of `c` alone.
#[verifier::external_body]
pub(crate) fn upper_char(c: char) -> (r: String)
    ensures
        r@ == spec_upper_char(c),
{
    c.to_uppercase().to_string()
}

/// What `str::to_lowercase` gives for `s`: Unicode's lowercase mapping,
/// character by character (with the final-sigma rule).
pub uninterp spec fn spec_lowercase(s: Seq<char>) -> Seq<char>;

/// `str::to_lowercase`. Claimed: the result is the lowercase mapping of
/// `s`, a function of the text alone.
#[verifier::external_body]
pub(crate) fn lowercase(s: &str) -> (r: String)
    ensures
        r@ == spec_lowercase(s@),
{
    s.to_lowercase()
}

/// What `char::is_alphanumeric` says of `c`: whether it is Unicode
/// `Alphabetic` or `Numeric`.
pub uninterp spec fn spec_is_alphanumeric(c: char) -> bool;

/// `char::is_alphanumeric`. Claimed: the answer depends on `c` alone.
#[verifier::external_body]
pub(crate) fn is_alphanumeric(c: char) -> (b: bool)
    ensures
        b == spec_is_alphanumeric(c),
{
    c.is_alphanumeric()
}

} // verus!
