//! Cloze markup: `{{cN::text}}` deletions and how many a text holds.
use vstd::prelude::*;
use crate::text::{
    all_digits, chars_of, decimal, digit_char, digit_value, digits_value, is_digit, is_digit_exec, push_all,
    push_decimal, replace, replace_vec, string_of,
};

verus! {

/// `}}` inside cloze content would end the deletion early; it is made `}`.
pub open spec fn spec_escape_cloze_content(s: Seq<char>) -> Seq<char> {
    replace(s, "}}"@, "}"@)
}

/// `{{c<n>::<content>}}` with the content escaped.
pub open spec fn spec_wrap_cloze(n: nat, content: Seq<char>) -> Seq<char> {
    "{{c"@ + decimal(n) + "::"@ + spec_escape_cloze_content(content) + "}}"@
}

pub fn escape_cloze_content_v(s: &Vec<char>) -> (r: Vec<char>)
    ensures
        r@ == spec_escape_cloze_content(s@),
{
    let from = chars_of("}}");
    let to = chars_of("}");
    proof {
        reveal_strlit("}}");
    }
    replace_vec(s, &from, &to)
}

pub fn escape_cloze_content(s: &str) -> (r: String)
    ensures
        r@ == spec_escape_cloze_content(s@),
{
    let v = chars_of(s);
    let r = escape_cloze_content_v(&v);
    string_of(&r)
}

pub fn wrap_cloze_v(n: usize, content: &Vec<char>) -> (r: Vec<char>)
    ensures
        r@ == spec_wrap_cloze(n as nat, content@),
{
    let inner = escape_cloze_content_v(content);
    let mut out = chars_of("{{c");
    push_decimal(&mut out, n);
    crate::text::push_str(&mut out, "::");
    push_all(&mut out, &inner);
    crate::text::push_str(&mut out, "}}");
    out
}

pub fn wrap_cloze(n: usize, content: &str) -> (r: String)
    ensures
        r@ == spec_wrap_cloze(n as nat, content@),
{
    let v = chars_of(content);
    let r = wrap_cloze_v(n, &v);
    string_of(&r)
}

// ---------------------------------------------------------------------------
// Counting deletions
// ---------------------------------------------------------------------------

/// End of the run of decimal digits that starts at `j`.
pub open spec fn digit_run_end(t: Seq<char>, j: int) -> int
    decreases t.len() - j,
{
    if 0 <= j < t.len() && is_digit(t[j]) {
        digit_run_end(t, j + 1)
    } else {
        j
    }
}

/// The number of a deletion `{{c<digits>::` that starts at `i`, when that
/// number fits in a `usize`; at least one character must follow the `{{c`.
pub open spec fn cloze_number_at(t: Seq<char>, i: int) -> Option<nat> {
    if 0 <= i && i + 3 < t.len() && t[i] == '{' && t[i + 1] == '{' && t[i + 2] == 'c' {
        let start = i + 3;
        let end = digit_run_end(t, start);
        let v = digits_value(t.subrange(start, end));
        if end > start && end < t.len() && end + 1 < t.len() && t[end] == ':' && t[end + 1] == ':' && v
            <= usize::MAX {
            Some(v)
        } else {
            None
        }
    } else {
        None
    }
}

pub open spec fn max_nat(a: nat, b: nat) -> nat {
    if a >= b {
        a
    } else {
        b
    }
}

/// The largest deletion number found at or after `i`, or 0.
pub open spec fn max_cloze_from(t: Seq<char>, i: int) -> nat
    decreases t.len() - i,
{
    if 0 <= i && i + 3 < t.len() {
        max_nat(
            match cloze_number_at(t, i) {
                Some(v) => v,
                None => 0,
            },
            max_cloze_from(t, i + 1),
        )
    } else {
        0
    }
}

/// How many cloze cards a text makes: its largest deletion number (0 when
/// it has none).
pub open spec fn spec_count_cloze_deletions(t: Seq<char>) -> nat {
    max_cloze_from(t, 0)
}

proof fn lemma_digit_run_end(t: Seq<char>, j: int, k: int)
    requires
        0 <= j <= k <= t.len(),
        forall|m: int| j <= m < k ==> is_digit(#[trigger] t[m]),
        k == t.len() || !is_digit(t[k]),
    ensures
        digit_run_end(t, j) == k,
    decreases k - j,
{
    if j < k {
        lemma_digit_run_end(t, j + 1, k);
    }
}

proof fn lemma_times_ten(v: nat, d: nat)
    requires
        d < 10,
    ensures
        v * 10 + d <= usize::MAX <==> v <= (usize::MAX - d) / 10,
{
    assert(v * 10 + d <= usize::MAX <==> v <= (usize::MAX - d) / 10) by (nonlinear_arith)
        requires
            d < 10,
            usize::MAX >= 10,
    ;
}

/// The deletion number at `i`, computed.
fn cloze_number_exec(t: &Vec<char>, i: usize) -> (r: Option<usize>)
    requires
        i + 3 < t.len(),
    ensures
        match r {
            Some(v) => cloze_number_at(t@, i as int) == Some(v as nat),
            None => cloze_number_at(t@, i as int) is None,
        },
{
    if !(t[i] == '{' && t[i + 1] == '{' && t[i + 2] == 'c') {
        return None;
    }
    let start = i + 3;
    let mut end = start;
    let mut val: usize = 0;
    let mut overflow = false;
    while end < t.len() && is_digit_exec(t[end])
        invariant
            start <= end <= t.len(),
            start == i + 3,
            forall|m: int| start <= m < end ==> is_digit(#[trigger] t@[m]),
            !overflow ==> val == digits_value(t@.subrange(start as int, end as int)),
            overflow ==> digits_value(t@.subrange(start as int, end as int)) > usize::MAX,
        decreases t.len() - end,
    {
        let d = (t[end] as u32 - '0' as u32) as usize;
        proof {
            let s = t@.subrange(start as int, end + 1);
            assert(s.drop_last() =~= t@.subrange(start as int, end as int));
            assert(digits_value(s) == digits_value(t@.subrange(start as int, end as int)) * 10
                + digit_value(t@[end as int]));
            lemma_times_ten(digits_value(t@.subrange(start as int, end as int)), d as nat);
            if overflow {
                assert(digits_value(t@.subrange(start as int, end as int)) * 10 >= digits_value(
                    t@.subrange(start as int, end as int),
                )) by (nonlinear_arith);
            }
        }
        if !overflow {
            if val > (usize::MAX - d) / 10 {
                overflow = true;
            } else {
                proof {
                    assert(val * 10 <= usize::MAX - d) by (nonlinear_arith)
                        requires
                            val <= (usize::MAX - d) / 10,
                            d < 10,
                    ;
                }
                val = val * 10 + d;
            }
        }
        end += 1;
    }
    proof {
        lemma_digit_run_end(t@, start as int, end as int);
    }
    if end > start && end < t.len() && end + 1 < t.len() && t[end] == ':' && t[end + 1] == ':' && !overflow {
        Some(val)
    } else {
        None
    }
}

pub fn count_cloze_deletions_v(t: &Vec<char>) -> (n: usize)
    ensures
        n == spec_count_cloze_deletions(t@),
{
    let mut max_n: usize = 0;
    let mut i: usize = 0;
    while i < t.len() && t.len() - i > 3
        invariant
            max_nat(max_n as nat, max_cloze_from(t@, i as int)) == max_cloze_from(t@, 0),
        decreases t.len() - i,
    {
        assert(max_cloze_from(t@, i as int) == max_nat(
            match cloze_number_at(t@, i as int) {
                Some(v) => v,
                None => 0,
            },
            max_cloze_from(t@, i + 1),
        ));
        match cloze_number_exec(t, i) {
            Some(n) => {
                if n > max_n {
                    max_n = n;
                }
            },
            None => {},
        }
        i += 1;
    }
    max_n
}

pub fn count_cloze_deletions(text: &str) -> (n: usize)
    ensures
        n == spec_count_cloze_deletions(text@),
{
    let t = chars_of(text);
    count_cloze_deletions_v(&t)
}

proof fn lemma_decimal_digits(n: nat)
    ensures
        decimal(n).len() >= 1,
        all_digits(decimal(n)),
        digits_value(decimal(n)) == n,
    decreases n,
{
    if n < 10 {
        let s = decimal(n);
        assert(s.drop_last() =~= Seq::<char>::empty());
        assert(digit_value(digit_char(n)) == n);
        assert(digits_value(s.drop_last()) == 0);
        assert(digits_value(s) == digits_value(s.drop_last()) * 10 + digit_value(s.last()));
    } else {
        lemma_decimal_digits(n / 10);
        let s = decimal(n);
        assert(s.drop_last() =~= decimal(n / 10));
        assert(digit_value(digit_char(n % 10)) == n % 10);
        assert(s.last() == digit_char(n % 10));
        assert((n / 10) * 10 + n % 10 == n) by (nonlinear_arith);
        assert(digits_value(s) == digits_value(s.drop_last()) * 10 + digit_value(s.last()));
    }
}

proof fn lemma_max_covers(t: Seq<char>, j: int, i: int, v: nat)
    requires
        0 <= j <= i,
        i + 3 < t.len(),
        cloze_number_at(t, i) == Some(v),
    ensures
        max_cloze_from(t, j) >= v,
    decreases i - j,
{
    if j < i {
        lemma_max_covers(t, j + 1, i, v);
    }
}

/// A text that holds the deletion `{{c<n>::...}}` makes at least `n` cards,
/// whatever surrounds it.
pub proof fn law_wrapped_deletion_counts(pre: Seq<char>, n: nat, content: Seq<char>, post: Seq<char>)
    requires
        n <= usize::MAX,
    ensures
        spec_count_cloze_deletions(pre + spec_wrap_cloze(n, content) + post) >= n,
{
    reveal_strlit("{{c");
    reveal_strlit("::");
    reveal_strlit("}}");
    let d = decimal(n);
    let w = spec_wrap_cloze(n, content);
    let t = pre + w + post;
    let p = pre.len() as int;
    lemma_decimal_digits(n);
    let start = p + 3;
    let end = start + d.len();
    assert(w =~= "{{c"@ + d + "::"@ + spec_escape_cloze_content(content) + "}}"@);
    assert forall|m: int| start <= m < end implies is_digit(#[trigger] t[m]) by {
        assert(t[m] == d[m - start]);
    }
    assert(t[end] == ':');
    assert(t[end + 1] == ':');
    lemma_digit_run_end(t, start, end);
    assert(t.subrange(start, end) =~= d);
    assert(t[p] == '{' && t[p + 1] == '{' && t[p + 2] == 'c');
    assert(cloze_number_at(t, p) == Some(n));
    lemma_max_covers(t, 0, p, n);
}

} // verus!
