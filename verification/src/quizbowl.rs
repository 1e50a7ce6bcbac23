//! Quizbowl packets: OCR clean-up, splitting a page into questions, parsing
//! tossups and bonuses, and the cloze markup that the cards are built from.
use vstd::prelude::*;
pub use crate::cloze::{count_cloze_deletions, escape_cloze_content, wrap_cloze};
use crate::cloze::{law_wrapped_deletion_counts, spec_count_cloze_deletions, spec_wrap_cloze, wrap_cloze_v};
use crate::imports::{strings, ImportResult};
use crate::text::{
    owned,
    byte_len, byte_len_exceeds, chars_of, concat, is_ascii_alnum, is_ascii_ws, is_digit, is_digit_exec, lines, lines_vec, lower_char, split, split_vec, take_chars, take_chars_vec, trim_matches, trim_matches_vec, views, all_digits, all_digits_exec, contains, contains_char, count_matches, count_matches_vec, find,
    find_exec, find_from, find_from_exec, lemma_find_from_skip, lower, lower_vec, push_all, push_str, replace,
    replace_vec, slice, starts_with, starts_with_exec, string_of, trim, trim_vec,
};

verus! {

#[derive(Debug, Clone, Copy, PartialEq, Eq, Structural)]
pub enum QuestionKind {
    Tossup,
    Bonus,
}

#[derive(Debug, Clone)]
pub struct ParsedTossup {
    pub lead_in: String,
    pub post_power: String,
    pub answer: String,
}

#[derive(Debug, Clone)]
pub struct BonusPart {
    pub label: char,
    pub stem: String,
    pub answer: String,
}

#[derive(Debug, Clone)]
pub struct ParsedBonus {
    pub intro: String,
    pub parts: Vec<BonusPart>,
}


// ---------------------------------------------------------------------------
// OCR clean-up
// ---------------------------------------------------------------------------

/// Line endings made `\n`, then the OCR fixes applied one after the other.
pub open spec fn spec_normalize_ocr(t: Seq<char>) -> Seq<char> {
    let s = replace(t, "\r\n"@, "\n"@);
    let s = replace(s, "\r"@, "\n"@);
    let s = replace(s, "calledimpulse"@, "called impulse"@);
    let s = replace(s, "1s "@, "is "@);
    let s = replace(s, "inanovel"@, "in a novel"@);
    let s = replace(s, "bio-geography"@, "biogeography"@);
    let s = replace(s, "ark\u{2019}-ih"@, "ark-ih"@);
    let s = replace(s, "\u{201C}"@, "\""@);
    let s = replace(s, "\u{201D}"@, "\""@);
    replace(s, "\u{2019}"@, "'"@)
}

fn replace_step(s: &Vec<char>, from: &str, to: &str) -> (r: Vec<char>)
    ensures
        from@.len() > 0 ==> r@ == replace(s@, from@, to@),
        from@.len() == 0 ==> r@ == s@,
{
    let f = chars_of(from);
    if f.len() == 0 {
        return s.clone();
    }
    let t = chars_of(to);
    replace_vec(s, &f, &t)
}

pub fn normalize_ocr(text: &str) -> (r: String)
    ensures
        r@ == spec_normalize_ocr(text@),
{
    proof {
        reveal_strlit("\r\n");
        reveal_strlit("\r");
        reveal_strlit("calledimpulse");
        reveal_strlit("1s ");
        reveal_strlit("inanovel");
        reveal_strlit("bio-geography");
        reveal_strlit("ark\u{2019}-ih");
        reveal_strlit("\u{201C}");
        reveal_strlit("\u{201D}");
        reveal_strlit("\u{2019}");
    }
    let s = chars_of(text);
    let s = replace_step(&s, "\r\n", "\n");
    let s = replace_step(&s, "\r", "\n");
    let s = replace_step(&s, "calledimpulse", "called impulse");
    let s = replace_step(&s, "1s ", "is ");
    let s = replace_step(&s, "inanovel", "in a novel");
    let s = replace_step(&s, "bio-geography", "biogeography");
    let s = replace_step(&s, "ark\u{2019}-ih", "ark-ih");
    let s = replace_step(&s, "\u{201C}", "\"");
    let s = replace_step(&s, "\u{201D}", "\"");
    let s = replace_step(&s, "\u{2019}", "'");
    string_of(&s)
}


// ---------------------------------------------------------------------------
// Answers and part markers
// ---------------------------------------------------------------------------

/// The text trimmed, and an `answer:` prefix (in any ASCII case) removed
/// together with the whitespace after it.
pub open spec fn spec_strip_answer_prefix(s: Seq<char>) -> Seq<char> {
    let t = trim(s);
    if starts_with(lower(t), "answer:"@) {
        trim(t.skip("answer:"@.len() as int))
    } else {
        t
    }
}

fn strip_answer_prefix_v(s: &Vec<char>) -> (r: Vec<char>)
    ensures
        r@ == spec_strip_answer_prefix(s@),
{
    let t = trim_vec(s);
    let low = lower_vec(&t);
    let pat = chars_of("answer:");
    if starts_with_exec(&low, &pat) {
        proof {
            assert(lower(t@).len() == t@.len());
        }
        let rest = slice(&t, pat.len(), t.len());
        trim_vec(&rest)
    } else {
        t
    }
}

pub fn strip_answer_prefix(s: &str) -> (r: String)
    ensures
        r@ == spec_strip_answer_prefix(s@),
{
    let v = chars_of(s);
    let r = strip_answer_prefix_v(&v);
    string_of(&r)
}

/// Where `answer:` (in any ASCII case) first occurs at or after `from`.
pub open spec fn spec_find_answer_start(t: Seq<char>, from: int) -> Option<int> {
    find_from(lower(t), "answer:"@, from)
}

fn find_answer_start_v(t: &Vec<char>, from: usize) -> (r: Option<usize>)
    requires
        from <= t.len(),
    ensures
        match r {
            Some(k) => spec_find_answer_start(t@, from as int) == Some(k as int),
            None => spec_find_answer_start(t@, from as int) is None,
        },
{
    let low = lower_vec(t);
    let pat = chars_of("answer:");
    find_from_exec(&low, &pat, from)
}

pub fn find_answer_start(text: &str, from: usize) -> (r: Option<usize>)
    requires
        from <= text@.len(),
    ensures
        match r {
            Some(k) => spec_find_answer_start(text@, from as int) == Some(k as int),
            None => spec_find_answer_start(text@, from as int) is None,
        },
{
    let t = chars_of(text);
    find_answer_start_v(&t, from)
}

/// The smaller of two optional positions.
pub open spec fn opt_min(a: Option<int>, b: Option<int>) -> Option<int> {
    match (a, b) {
        (Some(x), Some(y)) => Some(if x <= y { x } else { y }),
        (Some(x), None) => Some(x),
        (None, y) => y,
    }
}

/// Where part `label` of a bonus begins: the first of `\n<label>.`,
/// `\n<label> ` and `\r<label>.`; for part A also an `A.` with no line
/// break before it (or within the first three characters).
pub open spec fn spec_find_part_marker(t: Seq<char>, label: char) -> Option<int> {
    let best = opt_min(
        opt_min(find(t, seq!['\n', label, '.']), find(t, seq!['\n', label, ' '])),
        find(t, seq!['\r', label, '.']),
    );
    if label == 'A' {
        match find(t, "A."@) {
            Some(i) => if i < 3 || !contains(t.take(i), seq!['\n']) {
                opt_min(best, Some(i))
            } else {
                best
            },
            None => best,
        }
    } else {
        best
    }
}

fn opt_min_exec(a: Option<usize>, b: Option<usize>) -> (r: Option<usize>)
    ensures
        opt_as_int(r) == opt_min(opt_as_int(a), opt_as_int(b)),
{
    match (a, b) {
        (Some(x), Some(y)) => Some(if x <= y { x } else { y }),
        (Some(x), None) => Some(x),
        (None, y) => y,
    }
}

pub open spec fn opt_as_int(a: Option<usize>) -> Option<int> {
    match a {
        Some(x) => Some(x as int),
        None => None,
    }
}

fn find3(t: &Vec<char>, a: char, b: char, c: char) -> (r: Option<usize>)
    ensures
        opt_as_int(r) == find(t@, seq![a, b, c]),
{
    let mut pat: Vec<char> = Vec::new();
    pat.push(a);
    pat.push(b);
    pat.push(c);
    assert(pat@ =~= seq![a, b, c]);
    find_exec(t, &pat)
}

fn find_part_marker_v(t: &Vec<char>, label: char) -> (r: Option<usize>)
    ensures
        opt_as_int(r) == spec_find_part_marker(t@, label),
        match r {
            Some(i) => i < t.len(),
            None => true,
        },
{
    let p1 = find3(t, '\n', label, '.');
    let p2 = find3(t, '\n', label, ' ');
    let p3 = find3(t, '\r', label, '.');
    proof {
        crate::text::lemma_find_from(t@, seq!['\n', label, '.'], 0);
        crate::text::lemma_find_from(t@, seq!['\n', label, ' '], 0);
        crate::text::lemma_find_from(t@, seq!['\r', label, '.'], 0);
    }
    let best = opt_min_exec(opt_min_exec(p1, p2), p3);
    if label == 'A' {
        let pat = chars_of("A.");
        proof {
            reveal_strlit("A.");
            crate::text::lemma_find_from(t@, "A."@, 0);
        }
        match find_exec(t, &pat) {
            Some(i) => {
                let before = slice(t, 0, i);
                if i < 3 || !contains_char(&before, '\n') {
                    assert(before@ == t@.take(i as int));
                    return opt_min_exec(best, Some(i));
                }
                assert(before@ == t@.take(i as int));
                best
            },
            None => best,
        }
    } else {
        best
    }
}

pub fn find_part_marker(text: &str, label: char) -> (r: Option<usize>)
    ensures
        opt_as_int(r) == spec_find_part_marker(text@, label),
{
    let t = chars_of(text);
    find_part_marker_v(&t, label)
}

// ---------------------------------------------------------------------------
// Tossups
// ---------------------------------------------------------------------------

/// A tossup: the lead-in before the `(*)` power mark, the text after it up
/// to the answer line, and the answer. The error is the message the
/// importer reports.
pub open spec fn spec_parse_tossup(t: Seq<char>) -> Result<(Seq<char>, Seq<char>, Seq<char>), Seq<char>> {
    match find(t, "(*)"@) {
        None => Err("tossup missing (*) power mark"@),
        Some(star) => {
            let lead_in = trim(t.take(star));
            let after = t.skip(star + "(*)"@.len());
            match spec_find_answer_start(after, 0) {
                None => Err("tossup missing answer:"@),
                Some(ans) => {
                    let post_power = trim(after.take(ans));
                    let answer = spec_strip_answer_prefix(after.skip(ans));
                    if post_power.len() == 0 {
                        Err("empty post-power tossup text"@)
                    } else if answer.len() == 0 {
                        Err("empty tossup answer"@)
                    } else {
                        Ok((lead_in, post_power, answer))
                    }
                },
            }
        },
    }
}

pub open spec fn tossup_view(p: ParsedTossup) -> (Seq<char>, Seq<char>, Seq<char>) {
    (p.lead_in@, p.post_power@, p.answer@)
}

pub fn parse_tossup(text: &str) -> (r: Result<ParsedTossup, String>)
    ensures
        match r {
            Ok(p) => spec_parse_tossup(text@) == Ok::<_, Seq<char>>(tossup_view(p)),
            Err(e) => spec_parse_tossup(text@) == Err::<(Seq<char>, Seq<char>, Seq<char>), _>(e@),
        },
{
    let t = chars_of(text);
    let star_pat = chars_of("(*)");
    proof {
        crate::text::lemma_find_from(t@, "(*)"@, 0);
    }
    let star = match find_exec(&t, &star_pat) {
        None => {
            return Err(owned("tossup missing (*) power mark"));
        },
        Some(k) => k,
    };
    assert(crate::text::matches_at(t@, "(*)"@, star as int));
    assert(star_pat@.len() == "(*)"@.len());
    assert(star + star_pat.len() <= t.len());
    let head = slice(&t, 0, star);
    let lead_in = trim_vec(&head);
    let after = slice(&t, star + star_pat.len(), t.len());
    assert(after@ == t@.skip(star + "(*)"@.len()));
    let ans = match find_answer_start_v(&after, 0) {
        None => {
            return Err(owned("tossup missing answer:"));
        },
        Some(k) => k,
    };
    proof {
        crate::text::lemma_find_from(lower(after@), "answer:"@, 0);
    }
    let pre = slice(&after, 0, ans);
    let post_power = trim_vec(&pre);
    let tail = slice(&after, ans, after.len());
    let answer = strip_answer_prefix_v(&tail);
    if post_power.len() == 0 {
        return Err(owned("empty post-power tossup text"));
    }
    if answer.len() == 0 {
        return Err(owned("empty tossup answer"));
    }
    Ok(ParsedTossup { lead_in: string_of(&lead_in), post_power: string_of(&post_power), answer: string_of(&answer) })
}

// ---------------------------------------------------------------------------
// Classification
// ---------------------------------------------------------------------------

/// A bonus says "for 10 points each", or has parts A and B and at least
/// two answer lines; anything else is a tossup.
pub open spec fn spec_classify(t: Seq<char>) -> QuestionKind {
    let low = lower(t);
    if contains(low, "for 10 points each"@) {
        QuestionKind::Bonus
    } else if spec_find_part_marker(t, 'A') is Some && spec_find_part_marker(t, 'B') is Some
        && count_matches(low, "answer:"@) >= 2 {
        QuestionKind::Bonus
    } else {
        QuestionKind::Tossup
    }
}

fn classify_v(t: &Vec<char>) -> (k: QuestionKind)
    ensures
        k == spec_classify(t@),
{
    let low = lower_vec(t);
    let each = chars_of("for 10 points each");
    if crate::text::contains_exec(&low, &each) {
        return QuestionKind::Bonus;
    }
    let has_a = find_part_marker_v(t, 'A').is_some();
    let has_b = find_part_marker_v(t, 'B').is_some();
    let pat = chars_of("answer:");
    proof {
        reveal_strlit("answer:");
    }
    let answer_count = count_matches_vec(&low, &pat);
    if has_a && has_b && answer_count >= 2 {
        return QuestionKind::Bonus;
    }
    QuestionKind::Tossup
}

pub fn classify(text: &str) -> (k: QuestionKind)
    ensures
        k == spec_classify(text@),
{
    let t = chars_of(text);
    classify_v(&t)
}


// ---------------------------------------------------------------------------
// Bonuses
// ---------------------------------------------------------------------------

/// What reading one part of a bonus comes to.
pub enum PartOutcome {
    /// The part's marker is not in the text.
    Missing,
    /// The part's stem would start after the next part's marker: slicing
    /// the text there is out of order.
    Disordered,
    /// The part is there but unusable; the message says why.
    Failed(Seq<char>),
    /// The part's stem and answer.
    Part(Seq<char>, Seq<char>),
}

/// What reading a whole bonus comes to.
pub enum BonusOutcome {
    Disordered,
    Failed(Seq<char>),
    /// The intro and the parts, each as (label, stem, answer).
    Parsed(Seq<char>, Seq<(char, Seq<char>, Seq<char>)>),
}

/// Where a part's stem starts: after the first `.` from the marker on, or
/// two characters after the marker when there is no `.`.
pub open spec fn stem_start(t: Seq<char>, start: int) -> int {
    match find(t.skip(start), seq!['.']) {
        Some(d) => start + d + 1,
        None => start + 2,
    }
}

/// Where a part ends: at the next part's marker, or at the end of the text.
pub open spec fn part_end(t: Seq<char>, label: char) -> int {
    let next = if label == 'A' {
        spec_find_part_marker(t, 'B')
    } else if label == 'B' {
        spec_find_part_marker(t, 'C')
    } else {
        None
    };
    match next {
        Some(e) => e,
        None => t.len() as int,
    }
}

pub open spec fn part_message(label: char, what: Seq<char>) -> Seq<char> {
    "bonus part "@ + seq![label] + what
}

pub open spec fn missing_part_message(label: char) -> Seq<char> {
    "bonus missing part "@ + seq![label] + "."@
}

pub open spec fn spec_bonus_part(t: Seq<char>, label: char) -> PartOutcome {
    match spec_find_part_marker(t, label) {
        None => PartOutcome::Missing,
        Some(start) => {
            let ss = stem_start(t, start);
            let end = part_end(t, label);
            if ss > end {
                PartOutcome::Disordered
            } else {
                let chunk = t.subrange(ss, end);
                match spec_find_answer_start(chunk, 0) {
                    None => PartOutcome::Failed(part_message(label, " missing answer:"@)),
                    Some(ap) => {
                        let stem = trim(chunk.take(ap));
                        let answer = spec_strip_answer_prefix(chunk.skip(ap));
                        if answer.len() == 0 {
                            PartOutcome::Failed(part_message(label, " empty answer"@))
                        } else {
                            PartOutcome::Part(stem, answer)
                        }
                    },
                }
            }
        },
    }
}

/// A bonus: the intro before part A, then parts A and B, and C when its
/// marker is there. Parts are read in order and the first failure is the
/// result.
pub open spec fn spec_parse_bonus(t: Seq<char>) -> BonusOutcome {
    match spec_find_part_marker(t, 'A') {
        None => BonusOutcome::Failed(missing_part_message('A')),
        Some(a) => {
            let intro = trim(t.take(a));
            match spec_bonus_part(t, 'A') {
                PartOutcome::Disordered => BonusOutcome::Disordered,
                PartOutcome::Failed(m) => BonusOutcome::Failed(m),
                PartOutcome::Missing => BonusOutcome::Failed(missing_part_message('A')),
                PartOutcome::Part(sa, aa) => match spec_bonus_part(t, 'B') {
                    PartOutcome::Disordered => BonusOutcome::Disordered,
                    PartOutcome::Failed(m) => BonusOutcome::Failed(m),
                    PartOutcome::Missing => BonusOutcome::Failed(missing_part_message('B')),
                    PartOutcome::Part(sb, ab) => match spec_bonus_part(t, 'C') {
                        PartOutcome::Disordered => BonusOutcome::Disordered,
                        PartOutcome::Failed(m) => BonusOutcome::Failed(m),
                        PartOutcome::Missing => BonusOutcome::Parsed(
                            intro,
                            seq![('A', sa, aa), ('B', sb, ab)],
                        ),
                        PartOutcome::Part(sc, ac) => BonusOutcome::Parsed(
                            intro,
                            seq![('A', sa, aa), ('B', sb, ab), ('C', sc, ac)],
                        ),
                    },
                },
            }
        },
    }
}

pub open spec fn part_view(p: BonusPart) -> (char, Seq<char>, Seq<char>) {
    (p.label, p.stem@, p.answer@)
}

pub open spec fn parts_view(parts: Seq<BonusPart>) -> Seq<(char, Seq<char>, Seq<char>)> {
    parts.map_values(|p: BonusPart| part_view(p))
}

/// What `parse_bonus` returns, as a view.
pub open spec fn bonus_result_matches(r: Result<ParsedBonus, String>, o: BonusOutcome) -> bool {
    match r {
        Ok(p) => o == BonusOutcome::Parsed(p.intro@, parts_view(p.parts@)),
        Err(e) => o == BonusOutcome::Failed(e@),
    }
}

fn message_with_label(prefix: &str, label: char, suffix: &str) -> (r: String)
    ensures
        r@ == prefix@ + seq![label] + suffix@,
{
    let mut v = chars_of(prefix);
    v.push(label);
    crate::text::push_str(&mut v, suffix);
    string_of(&v)
}

enum PartRead {
    Missing,
    Disordered,
    Failed(String),
    Part(BonusPart),
}

fn bonus_part_v(t: &Vec<char>, label: char) -> (r: PartRead)
    ensures
        match r {
            PartRead::Missing => spec_bonus_part(t@, label) is Missing,
            PartRead::Disordered => spec_bonus_part(t@, label) is Disordered,
            PartRead::Part(p) => p.label == label && spec_bonus_part(t@, label)
                == PartOutcome::Part(p.stem@, p.answer@),
            PartRead::Failed(e) => spec_bonus_part(t@, label) == PartOutcome::Failed(e@),
        },
{
    let start = match find_part_marker_v(t, label) {
        None => {
            return PartRead::Missing;
        },
        Some(s) => s,
    };
    let rest = slice(t, start, t.len());
    assert(rest@ == t@.skip(start as int));
    let dot = crate::text::find_char(&rest, '.');
    proof {
        crate::text::lemma_find_from(rest@, seq!['.'], 0);
    }
    let next = if label == 'A' {
        find_part_marker_v(t, 'B')
    } else if label == 'B' {
        find_part_marker_v(t, 'C')
    } else {
        None
    };
    let end = match next {
        Some(e) => e,
        None => t.len(),
    };
    let ss: usize = match dot {
        Some(d) => {
            assert(crate::text::matches_at(rest@, seq!['.'], d as int));
            start + d + 1
        },
        None => {
            if t.len() - start < 2 {
                return PartRead::Disordered;
            }
            start + 2
        },
    };
    if ss > end {
        return PartRead::Disordered;
    }
    let chunk = slice(t, ss, end);
    let ap = match find_answer_start_v(&chunk, 0) {
        None => {
            return PartRead::Failed(message_with_label("bonus part ", label, " missing answer:"));
        },
        Some(k) => k,
    };
    proof {
        crate::text::lemma_find_from(lower(chunk@), "answer:"@, 0);
    }
    let head = slice(&chunk, 0, ap);
    let stem = trim_vec(&head);
    let tail = slice(&chunk, ap, chunk.len());
    let answer = strip_answer_prefix_v(&tail);
    if answer.len() == 0 {
        return PartRead::Failed(message_with_label("bonus part ", label, " empty answer"));
    }
    PartRead::Part(BonusPart { label, stem: string_of(&stem), answer: string_of(&answer) })
}

/// `parse_bonus`, or `None` where the parts' markers are out of order.
fn parse_bonus_checked(t: &Vec<char>) -> (r: Option<Result<ParsedBonus, String>>)
    ensures
        match r {
            None => spec_parse_bonus(t@) is Disordered,
            Some(res) => bonus_result_matches(res, spec_parse_bonus(t@)),
        },
{
    let a_pos = match find_part_marker_v(t, 'A') {
        None => {
            return Some(Err(message_with_label("bonus missing part ", 'A', ".")));
        },
        Some(a) => a,
    };
    let head = slice(t, 0, a_pos);
    let intro = trim_vec(&head);
    let pa = match bonus_part_v(t, 'A') {
        PartRead::Missing => {
            return Some(Err(message_with_label("bonus missing part ", 'A', ".")));
        },
        PartRead::Disordered => {
            return None;
        },
        PartRead::Failed(e) => {
            return Some(Err(e));
        },
        PartRead::Part(p) => p,
    };
    let pb = match bonus_part_v(t, 'B') {
        PartRead::Missing => {
            return Some(Err(message_with_label("bonus missing part ", 'B', ".")));
        },
        PartRead::Disordered => {
            return None;
        },
        PartRead::Failed(e) => {
            return Some(Err(e));
        },
        PartRead::Part(p) => p,
    };
    let mut parts: Vec<BonusPart> = Vec::new();
    parts.push(pa);
    parts.push(pb);
    match bonus_part_v(t, 'C') {
        PartRead::Missing => {},
        PartRead::Disordered => {
            return None;
        },
        PartRead::Failed(e) => {
            return Some(Err(e));
        },
        PartRead::Part(p) => {
            parts.push(p);
        },
    }
    let r = ParsedBonus { intro: string_of(&intro), parts };
    assert(parts_view(r.parts@) =~= match spec_parse_bonus(t@) {
        BonusOutcome::Parsed(_, ps) => ps,
        _ => Seq::empty(),
    });
    Some(Ok(r))
}

/// Whether the part markers of a bonus are in an order that it can be read
/// in (see `parse_bonus`).
pub fn bonus_parts_in_order(text: &str) -> (b: bool)
    ensures
        b == !(spec_parse_bonus(text@) is Disordered),
{
    let t = chars_of(text);
    parse_bonus_checked(&t).is_some()
}

pub fn parse_bonus(text: &str) -> (r: Result<ParsedBonus, String>)
    requires
        !(spec_parse_bonus(text@) is Disordered),
    ensures
        bonus_result_matches(r, spec_parse_bonus(text@)),
{
    let t = chars_of(text);
    match parse_bonus_checked(&t) {
        Some(r) => r,
        None => Err(String::new()),
    }
}


// ---------------------------------------------------------------------------
// Cloze text of a question
// ---------------------------------------------------------------------------

/// The lead-in, then the post-power text as deletion 1 and the answer as
/// deletion 2.
pub open spec fn spec_build_tossup_cloze_text(lead_in: Seq<char>, post_power: Seq<char>, answer: Seq<char>) -> Seq<char> {
    (if lead_in.len() > 0 {
        lead_in + "\n\n"@
    } else {
        Seq::empty()
    }) + spec_wrap_cloze(1, post_power) + "\n\nAnswer: "@ + spec_wrap_cloze(2, answer)
}

pub fn build_tossup_cloze_text(p: &ParsedTossup) -> (r: String)
    ensures
        r@ == spec_build_tossup_cloze_text(p.lead_in@, p.post_power@, p.answer@),
{
    let lead_in = chars_of(p.lead_in.as_str());
    let post = chars_of(p.post_power.as_str());
    let answer = chars_of(p.answer.as_str());
    let mut out: Vec<char> = Vec::new();
    if lead_in.len() > 0 {
        push_all(&mut out, &lead_in);
        push_str(&mut out, "\n\n");
    }
    let w1 = wrap_cloze_v(1, &post);
    push_all(&mut out, &w1);
    push_str(&mut out, "\n\nAnswer: ");
    let w2 = wrap_cloze_v(2, &answer);
    push_all(&mut out, &w2);
    assert(out@ =~= spec_build_tossup_cloze_text(p.lead_in@, p.post_power@, p.answer@));
    string_of(&out)
}

/// The intro (trimmed) and a blank line, when the intro is not empty.
pub open spec fn intro_block(intro: Seq<char>) -> Seq<char> {
    if intro.len() > 0 {
        trim(intro) + "\n\n"@
    } else {
        Seq::empty()
    }
}

/// `<label>. <stem>` and the answer line, up to the answer itself.
pub open spec fn part_head(label: char, stem: Seq<char>) -> Seq<char> {
    seq![label] + ". "@ + trim(stem) + "\n\nAnswer: "@
}

/// Earlier parts with their answers shown, each followed by a blank line.
pub open spec fn prior_blocks(prior: Seq<(char, Seq<char>, Seq<char>)>) -> Seq<char>
    decreases prior.len(),
{
    if prior.len() == 0 {
        Seq::empty()
    } else {
        prior_blocks(prior.drop_last()) + part_head(prior.last().0, prior.last().1)
            + prior.last().2 + "\n\n"@
    }
}

pub open spec fn prior_view(prior: Seq<(&BonusPart, &str)>) -> Seq<(char, Seq<char>, Seq<char>)> {
    prior.map_values(|e: (&BonusPart, &str)| (e.0.label, e.0.stem@, e.1@))
}

/// One card of a bonus: the intro, the earlier parts answered, and this
/// part with its answer as the only deletion.
pub open spec fn spec_build_bonus_part_text(
    intro: Seq<char>,
    label: char,
    stem: Seq<char>,
    answer: Seq<char>,
    prior: Seq<(char, Seq<char>, Seq<char>)>,
) -> Seq<char> {
    intro_block(intro) + prior_blocks(prior) + part_head(label, stem) + spec_wrap_cloze(1, answer)
}

fn push_part_head(out: &mut Vec<char>, label: char, stem: &String)
    ensures
        final(out)@ == old(out)@ + part_head(label, stem@),
{
    out.push(label);
    push_str(out, ". ");
    let s = chars_of(stem.as_str());
    let st = trim_vec(&s);
    push_all(out, &st);
    push_str(out, "\n\nAnswer: ");
    assert(out@ =~= old(out)@ + part_head(label, stem@));
}

fn push_intro(out: &mut Vec<char>, intro: &str)
    ensures
        final(out)@ == old(out)@ + intro_block(intro@),
{
    let iv = chars_of(intro);
    if iv.len() > 0 {
        let it = trim_vec(&iv);
        push_all(out, &it);
        push_str(out, "\n\n");
    }
    assert(out@ =~= old(out)@ + intro_block(intro@));
}

pub fn build_bonus_part_text(intro: &str, part: &BonusPart, prior: &[(&BonusPart, &str)]) -> (r: String)
    ensures
        r@ == spec_build_bonus_part_text(intro@, part.label, part.stem@, part.answer@, prior_view(prior@)),
{
    let mut out: Vec<char> = Vec::new();
    push_intro(&mut out, intro);
    let ghost base = out@;
    let mut i: usize = 0;
    while i < prior.len()
        invariant
            i <= prior.len(),
            out@ == base + prior_blocks(prior_view(prior@).take(i as int)),
        decreases prior.len() - i,
    {
        let (p, revealed) = prior[i];
        push_part_head(&mut out, p.label, &p.stem);
        let rv = chars_of(revealed);
        push_all(&mut out, &rv);
        push_str(&mut out, "\n\n");
        proof {
            let pv = prior_view(prior@);
            assert(pv.take(i + 1).drop_last() =~= pv.take(i as int));
            assert(out@ =~= base + prior_blocks(pv.take(i + 1)));
        }
        i += 1;
    }
    assert(prior_view(prior@).take(prior.len() as int) =~= prior_view(prior@));
    push_part_head(&mut out, part.label, &part.stem);
    let av = chars_of(part.answer.as_str());
    let w = wrap_cloze_v(1, &av);
    push_all(&mut out, &w);
    assert(out@ =~= spec_build_bonus_part_text(intro@, part.label, part.stem@, part.answer@, prior_view(prior@)));
    string_of(&out)
}

/// The parts of a bonus one after another, blank lines between them, each
/// answer a deletion numbered by the part's position (from 1).
pub open spec fn bonus_parts_text(parts: Seq<(char, Seq<char>, Seq<char>)>) -> Seq<char>
    decreases parts.len(),
{
    if parts.len() == 0 {
        Seq::empty()
    } else {
        let k = parts.len() - 1;
        bonus_parts_text(parts.drop_last()) + (if k > 0 {
            "\n\n"@
        } else {
            Seq::empty()
        }) + part_head(parts.last().0, parts.last().1) + spec_wrap_cloze(
            parts.len(),
            parts.last().2,
        )
    }
}

pub open spec fn spec_build_bonus_cloze_text(intro: Seq<char>, parts: Seq<(char, Seq<char>, Seq<char>)>) -> Seq<char> {
    intro_block(intro) + bonus_parts_text(parts)
}

pub fn build_bonus_cloze_text(p: &ParsedBonus) -> (r: String)
    requires
        p.parts.len() < usize::MAX,
    ensures
        r@ == spec_build_bonus_cloze_text(p.intro@, parts_view(p.parts@)),
{
    let mut out: Vec<char> = Vec::new();
    push_intro(&mut out, p.intro.as_str());
    let ghost base = out@;
    let mut i: usize = 0;
    while i < p.parts.len()
        invariant
            i <= p.parts.len() < usize::MAX,
            out@ == base + bonus_parts_text(parts_view(p.parts@).take(i as int)),
        decreases p.parts.len() - i,
    {
        let part = &p.parts[i];
        if i > 0 {
            push_str(&mut out, "\n\n");
        }
        push_part_head(&mut out, part.label, &part.stem);
        let av = chars_of(part.answer.as_str());
        let w = wrap_cloze_v(i + 1, &av);
        push_all(&mut out, &w);
        proof {
            let pv = parts_view(p.parts@);
            assert(pv.take(i + 1).drop_last() =~= pv.take(i as int));
            assert(pv.take(i + 1).last() == part_view(p.parts@[i as int]));
            assert(out@ =~= base + bonus_parts_text(pv.take(i + 1)));
        }
        i += 1;
    }
    assert(parts_view(p.parts@).take(p.parts.len() as int) =~= parts_view(p.parts@));
    string_of(&out)
}


// ---------------------------------------------------------------------------
// Tags, slugs and labels
// ---------------------------------------------------------------------------

pub open spec fn spec_tags_for(kind: QuestionKind) -> Seq<Seq<char>> {
    match kind {
        QuestionKind::Tossup => seq!["quizbowl"@, "tossup"@, "ssnct"@],
        QuestionKind::Bonus => seq!["quizbowl"@, "bonus"@, "ssnct"@],
    }
}

pub open spec fn strings_view(v: Seq<String>) -> Seq<Seq<char>> {
    v.map_values(|s: String| s@)
}

/// The tags that an imported question gets.
pub fn tags_for(kind: QuestionKind) -> (r: Vec<String>)
    ensures
        strings_view(r@) == spec_tags_for(kind),
{
    let mut r: Vec<String> = Vec::new();
    r.push(owned("quizbowl"));
    match kind {
        QuestionKind::Tossup => r.push(owned("tossup")),
        QuestionKind::Bonus => r.push(owned("bonus")),
    }
    r.push(owned("ssnct"));
    assert(strings_view(r@) =~= spec_tags_for(kind));
    r
}

/// Each ASCII letter or digit lowercased, anything else `_`.
pub open spec fn slug_char(c: char) -> char {
    if is_ascii_alnum(c) {
        lower_char(c)
    } else {
        '_'
    }
}

/// A file's slug: its stem (`unknown` when it has none) mapped by
/// `slug_char`, outer `_` removed, cut to 80 characters.
pub open spec fn spec_file_slug(stem: Option<Seq<char>>) -> Seq<char> {
    let name = match stem {
        Some(s) => s,
        None => "unknown"@,
    };
    take_chars(trim_matches(name.map_values(|c: char| slug_char(c)), '_'), 80)
}

fn slug_char_exec(c: char) -> (r: char)
    ensures
        r == slug_char(c),
{
    if ('0' <= c && c <= '9') || ('A' <= c && c <= 'Z') || ('a' <= c && c <= 'z') {
        crate::text::to_ascii_lower(c)
    } else {
        '_'
    }
}

/// The slug of a file given its stem (`Path::file_stem` as text, when the
/// path has one that is valid UTF-8).
pub fn file_slug(stem: Option<&str>) -> (r: String)
    ensures
        r@ == spec_file_slug(match stem {
            Some(s) => Some(s@),
            None => None,
        }),
{
    let name = match stem {
        Some(s) => chars_of(s),
        None => chars_of("unknown"),
    };
    let mut mapped: Vec<char> = Vec::new();
    let mut i: usize = 0;
    while i < name.len()
        invariant
            i <= name.len(),
            mapped@ == name@.subrange(0, i as int).map_values(|c: char| slug_char(c)),
        decreases name.len() - i,
    {
        mapped.push(slug_char_exec(name[i]));
        assert(name@.subrange(0, i + 1).map_values(|c: char| slug_char(c)) =~= name@.subrange(0, i as int).map_values(|c: char| slug_char(c)).push(slug_char(name@[i as int])));
        i += 1;
    }
    assert(name@.subrange(0, name.len() as int) =~= name@);
    let t = trim_matches_vec(&mapped, '_');
    let r = take_chars_vec(&t, 80);
    string_of(&r)
}

/// The slug of a packet directory: the same as a file's.
pub fn dir_slug(stem: Option<&str>) -> (r: String)
    ensures
        r@ == spec_file_slug(match stem {
            Some(s) => Some(s@),
            None => None,
        }),
{
    file_slug(stem)
}

/// A packet's label: `SSNCT 2024 Pkt <n>` when the directory name ends in
/// `-<digits>` (or is all digits), else the name itself (`packet` when the
/// directory has no name).
pub open spec fn spec_packet_label(dir_name: Option<Seq<char>>) -> Seq<char> {
    let name = match dir_name {
        Some(s) => s,
        None => "packet"@,
    };
    let num = split(name, "-"@).last();
    if all_digits(num) {
        "SSNCT 2024 Pkt "@ + num
    } else {
        name
    }
}

pub fn packet_label(dir_name: Option<&str>) -> (r: String)
    ensures
        r@ == spec_packet_label(match dir_name {
            Some(s) => Some(s@),
            None => None,
        }),
{
    let name = match dir_name {
        Some(s) => chars_of(s),
        None => chars_of("packet"),
    };
    let dash = chars_of("-");
    proof {
        reveal_strlit("-");
        lemma_split_nonempty(name@, dash@);
    }
    let pieces = split_vec(&name, &dash);
    let num = &pieces[pieces.len() - 1];
    assert(num@ == split(name@, "-"@).last());
    if all_digits_exec(num) {
        let mut out = chars_of("SSNCT 2024 Pkt ");
        push_all(&mut out, num);
        string_of(&out)
    } else {
        string_of(&name)
    }
}

proof fn lemma_split_nonempty(s: Seq<char>, sep: Seq<char>)
    ensures
        split(s, sep).len() > 0,
    decreases s.len(),
{
    if sep.len() > 0 {
        match find(s, sep) {
            Some(i) => {
                if 0 <= i && i + sep.len() <= s.len() {
                    lemma_split_nonempty(s.skip(i + sep.len()), sep);
                }
            },
            None => {},
        }
    }
}

// ---------------------------------------------------------------------------
// Splitting an OCR page into questions
// ---------------------------------------------------------------------------

pub open spec fn spec_is_tournament_header_line(line: Seq<char>) -> bool {
    let t = trim(line);
    t.len() > 0 && contains(lower(t), "national championship tournament"@)
}

/// OCR reads packet IDs as `<603709>`, `«603709` or `‹603709`.
pub open spec fn spec_is_packet_id_line(line: Seq<char>) -> bool {
    let t = trim(line);
    t.len() > 0 && (t[0] == '<' || t[0] == '\u{AB}' || t[0] == '\u{2039}')
}

/// Number of leading decimal digits.
pub open spec fn digit_prefix_len(t: Seq<char>) -> nat
    decreases t.len(),
{
    if t.len() > 0 && is_digit(t[0]) {
        1 + digit_prefix_len(t.drop_first())
    } else {
        0
    }
}

/// A line that starts a numbered question, such as `1. This author...`:
/// one to three digits, a `.`, then ASCII whitespace.
pub open spec fn spec_is_numbered_question_line(line: Seq<char>) -> bool {
    let t = trim(line);
    let i = digit_prefix_len(t) as int;
    &&& 1 <= i <= 3
    &&& i < t.len() && t[i] == '.'
    &&& i + 1 < t.len() && is_ascii_ws(t[i + 1])
}

pub open spec fn spec_segment_has_answer(segment: Seq<char>) -> bool {
    contains(lower(segment), "answer:"@)
}

pub fn is_tournament_header_line(line: &str) -> (b: bool)
    ensures
        b == spec_is_tournament_header_line(line@),
{
    let l = chars_of(line);
    is_tournament_header_line_v(&l)
}

fn is_tournament_header_line_v(l: &Vec<char>) -> (b: bool)
    ensures
        b == spec_is_tournament_header_line(l@),
{
    let t = trim_vec(l);
    if t.len() == 0 {
        return false;
    }
    let low = lower_vec(&t);
    crate::text::contains_str(&low, "national championship tournament")
}

fn is_packet_id_line_v(l: &Vec<char>) -> (b: bool)
    ensures
        b == spec_is_packet_id_line(l@),
{
    let t = trim_vec(l);
    t.len() > 0 && (t[0] == '<' || t[0] == '\u{AB}' || t[0] == '\u{2039}')
}

pub fn is_packet_id_line(line: &str) -> (b: bool)
    ensures
        b == spec_is_packet_id_line(line@),
{
    let l = chars_of(line);
    is_packet_id_line_v(&l)
}

proof fn lemma_digit_prefix_len(t: Seq<char>, k: int)
    requires
        0 <= k <= t.len(),
        forall|j: int| 0 <= j < k ==> is_digit(#[trigger] t[j]),
        k == t.len() || !is_digit(t[k]),
    ensures
        digit_prefix_len(t) == k,
    decreases k,
{
    if k > 0 {
        let u = t.drop_first();
        assert forall|j: int| 0 <= j < k - 1 implies is_digit(#[trigger] u[j]) by {
            assert(u[j] == t[j + 1]);
        }
        if k < t.len() {
            assert(u[k - 1] == t[k]);
        }
        lemma_digit_prefix_len(u, k - 1);
    }
}

fn is_numbered_question_line_v(l: &Vec<char>) -> (b: bool)
    ensures
        b == spec_is_numbered_question_line(l@),
{
    let t = trim_vec(l);
    let mut i: usize = 0;
    while i < t.len() && is_digit_exec(t[i])
        invariant
            i <= t.len(),
            forall|j: int| 0 <= j < i ==> is_digit(#[trigger] t@[j]),
        decreases t.len() - i,
    {
        i += 1;
    }
    proof {
        lemma_digit_prefix_len(t@, i as int);
    }
    if i == 0 || i > 3 {
        return false;
    }
    if i >= t.len() || t[i] != '.' {
        return false;
    }
    let j = i + 1;
    j < t.len() && (t[j] == ' ' || t[j] == '\t' || t[j] == '\n' || t[j] == '\x0C' || t[j] == '\r')
}

pub fn is_numbered_question_line(line: &str) -> (b: bool)
    ensures
        b == spec_is_numbered_question_line(line@),
{
    let l = chars_of(line);
    is_numbered_question_line_v(&l)
}

fn segment_has_answer_v(seg: &Vec<char>) -> (b: bool)
    ensures
        b == spec_segment_has_answer(seg@),
{
    let low = lower_vec(seg);
    crate::text::contains_str(&low, "answer:")
}

pub fn segment_has_answer(segment: &str) -> (b: bool)
    ensures
        b == spec_segment_has_answer(segment@),
{
    let s = chars_of(segment);
    segment_has_answer_v(&s)
}

/// Reading one line of a page: the segments found so far and the text of
/// the question being gathered.
pub open spec fn split_step(state: (Seq<Seq<char>>, Seq<char>), line: Seq<char>) -> (Seq<Seq<char>>, Seq<char>) {
    let (segs, cur) = state;
    if spec_is_packet_id_line(line) {
        if trim(cur).len() > 0 {
            (segs.push(trim(cur)), Seq::empty())
        } else {
            (segs, cur)
        }
    } else if spec_is_tournament_header_line(line) {
        (segs, cur)
    } else {
        let (segs2, cur2) = if spec_is_numbered_question_line(line) && trim(cur).len() > 0
            && spec_segment_has_answer(cur) {
            (segs.push(trim(cur)), Seq::<char>::empty())
        } else {
            (segs, cur)
        };
        if trim(line).len() > 0 || cur2.len() > 0 {
            (segs2, cur2 + line + "\n"@)
        } else {
            (segs2, cur2)
        }
    }
}

pub open spec fn split_fold(lines: Seq<Seq<char>>, state: (Seq<Seq<char>>, Seq<char>)) -> (Seq<Seq<char>>, Seq<char>)
    decreases lines.len(),
{
    if lines.len() == 0 {
        state
    } else {
        split_step(split_fold(lines.drop_last(), state), lines.last())
    }
}

/// The segments longer than 30 bytes of UTF-8.
pub open spec fn keep_long(segs: Seq<Seq<char>>) -> Seq<Seq<char>>
    decreases segs.len(),
{
    if segs.len() == 0 {
        Seq::empty()
    } else {
        let rest = keep_long(segs.drop_last());
        if byte_len(segs.last()) > 30 {
            rest.push(segs.last())
        } else {
            rest
        }
    }
}

/// A page cut into questions: at packet ID lines, and at a numbered line
/// once the question gathered so far has an answer; tournament header
/// lines dropped; each question trimmed; pieces of 30 bytes or less dropped.
pub open spec fn spec_split_multipage_questions(text: Seq<char>) -> Seq<Seq<char>> {
    let (segs, cur) = split_fold(lines(text), (Seq::empty(), Seq::empty()));
    let all = if trim(cur).len() > 0 {
        segs.push(trim(cur))
    } else {
        segs
    };
    keep_long(all)
}

pub fn split_multipage_questions(text: &str) -> (r: Vec<String>)
    ensures
        strings_view(r@) == spec_split_multipage_questions(text@),
{
    let t = chars_of(text);
    let ls = lines_vec(&t);
    let mut segs: Vec<Vec<char>> = Vec::new();
    let mut cur: Vec<char> = Vec::new();
    let mut i: usize = 0;
    while i < ls.len()
        invariant
            i <= ls.len(),
            views(ls@) == lines(t@),
            (views(segs@), cur@) == split_fold(views(ls@).take(i as int), (Seq::empty(), Seq::empty())),
        decreases ls.len() - i,
    {
        let line = &ls[i];
        let ghost before = (views(segs@), cur@);
        let tc = trim_vec(&cur);
        if is_packet_id_line_v(line) {
            if tc.len() > 0 {
                segs.push(tc);
                cur = Vec::new();
            }
        } else if is_tournament_header_line_v(line) {
        } else {
            if is_numbered_question_line_v(line) && tc.len() > 0 && segment_has_answer_v(&cur) {
                segs.push(tc);
                cur = Vec::new();
            }
            let tl = trim_vec(line);
            if tl.len() > 0 || cur.len() > 0 {
                push_all(&mut cur, line);
                cur.push('\n');
            }
        }
        proof {
            reveal_strlit("\n");
            let lv = views(ls@);
            assert(lv.take(i + 1).drop_last() =~= lv.take(i as int));
            assert(lv.take(i + 1).last() == ls@[i as int]@);
            let expect = split_step(before, ls@[i as int]@);
            assert(views(segs@) =~= expect.0);
            assert(cur@ =~= expect.1);
        }
        i += 1;
    }
    assert(views(ls@).take(ls.len() as int) =~= views(ls@));
    let ghost folded = (views(segs@), cur@);
    assert(folded == split_fold(lines(t@), (Seq::empty(), Seq::empty())));
    let tc = trim_vec(&cur);
    if tc.len() > 0 {
        segs.push(tc);
        assert(views(segs@) =~= folded.0.push(tc@));
    }
    let ghost all = views(segs@);
    assert(keep_long(all) == spec_split_multipage_questions(text@));
    let mut out: Vec<String> = Vec::new();
    let mut j: usize = 0;
    while j < segs.len()
        invariant
            j <= segs.len(),
            all == views(segs@),
            strings_view(out@) == keep_long(all.take(j as int)),
        decreases segs.len() - j,
    {
        let seg = &segs[j];
        proof {
            assert(all.take(j + 1).drop_last() =~= all.take(j as int));
            assert(all.take(j + 1).last() == seg@);
        }
        if byte_len_exceeds(seg, 30) {
            let ghost before = strings_view(out@);
            out.push(string_of(seg));
            assert(strings_view(out@) =~= before.push(seg@));
        }
        j += 1;
    }
    assert(all.take(segs.len() as int) =~= all);
    out
}

// ---------------------------------------------------------------------------
// What importing a page does
// ---------------------------------------------------------------------------

/// One imported question in the report.
pub struct ImportReportEntry {
    pub file: String,
    pub kind: QuestionKind,
    pub tags: Vec<String>,
    pub cloze_count: usize,
    pub warnings: Vec<String>,
    pub ocr_preview: String,
}

pub struct ImportReport {
    pub entries: Vec<ImportReportEntry>,
    pub summary: ImportResult,
}

/// The cloze note to write for a question: its note and card ids, the
/// `Text` and `Extra` fields, and its tags.
pub struct QuizbowlNote {
    pub note_id: String,
    pub card_id: String,
    pub text: String,
    pub extra: String,
    pub tags: Vec<String>,
}

/// What to do with one question's text: write a note and report it, or
/// only warn.
pub enum SegmentPlan {
    Import(QuizbowlNote, ImportReportEntry),
    Skip(String),
}

/// The plan for a question: (kind, text, cloze count, entry warnings) to
/// import, or the warning when it is skipped.
pub enum SegmentOutcome {
    Import(QuestionKind, Seq<char>, nat, Seq<Seq<char>>),
    Skip(Seq<char>),
}

pub open spec fn no_clozes(label: Seq<char>) -> Seq<char> {
    label + ": no clozes"@
}

/// Classify, parse and build the cloze text; skip with a warning when the
/// text does not parse or the cloze text has no deletion. A bonus with
/// other than three parts is imported with a warning.
pub open spec fn spec_segment_outcome(t: Seq<char>, label: Seq<char>) -> SegmentOutcome {
    if spec_classify(t) == QuestionKind::Bonus {
        match spec_parse_bonus(t) {
            BonusOutcome::Parsed(intro, parts) => {
                let body = spec_build_bonus_cloze_text(intro, parts);
                let n = spec_count_cloze_deletions(body);
                if n == 0 {
                    SegmentOutcome::Skip(no_clozes(label))
                } else {
                    SegmentOutcome::Import(
                        QuestionKind::Bonus,
                        body,
                        n,
                        if parts.len() != 3 {
                            seq!["expected 3 parts, got "@ + crate::text::decimal(parts.len())]
                        } else {
                            Seq::empty()
                        },
                    )
                }
            },
            BonusOutcome::Failed(e) => SegmentOutcome::Skip(label + ": "@ + e),
            BonusOutcome::Disordered => SegmentOutcome::Skip(Seq::empty()),
        }
    } else {
        match spec_parse_tossup(t) {
            Ok((lead_in, post_power, answer)) => {
                let body = spec_build_tossup_cloze_text(lead_in, post_power, answer);
                let n = spec_count_cloze_deletions(body);
                if n == 0 {
                    SegmentOutcome::Skip(no_clozes(label))
                } else {
                    SegmentOutcome::Import(QuestionKind::Tossup, body, n, Seq::empty())
                }
            },
            Err(e) => SegmentOutcome::Skip(label + ": "@ + e),
        }
    }
}

pub open spec fn kind_name(k: QuestionKind) -> Seq<char> {
    match k {
        QuestionKind::Tossup => "Tossup"@,
        QuestionKind::Bonus => "Bonus"@,
    }
}

/// A plan carries out an outcome: ids from the slug, the extra line
/// "<Kind> · <packet> · <label>", the kind's tags, and in the report the
/// label, the cloze count and the first 200 characters of the text.
pub open spec fn plan_matches(
    p: SegmentPlan,
    o: SegmentOutcome,
    t: Seq<char>,
    label: Seq<char>,
    slug: Seq<char>,
    packet: Seq<char>,
) -> bool {
    match (p, o) {
        (SegmentPlan::Skip(w), SegmentOutcome::Skip(m)) => w@ == m,
        (SegmentPlan::Import(note, entry), SegmentOutcome::Import(kind, body, n, warnings)) => {
            &&& note.note_id@ == "n_qb_"@ + slug
            &&& note.card_id@ == "c_qb_"@ + slug
            &&& note.text@ == body
            &&& note.extra@ == kind_name(kind) + " · "@ + packet + " · "@ + label
            &&& strings(note.tags@) == spec_tags_for(kind)
            &&& entry.file@ == label
            &&& entry.kind == kind
            &&& strings(entry.tags@) == spec_tags_for(kind)
            &&& entry.cloze_count as nat == n
            &&& strings(entry.warnings@) == warnings
            &&& entry.ocr_preview@ == take_chars(t, 200)
        },
        _ => false,
    }
}

fn join4(a: &str, b: &str, c: &str, d: &str) -> (r: String)
    ensures
        r@ == a@ + b@ + c@ + d@,
{
    let mut v: Vec<char> = Vec::new();
    push_str(&mut v, a);
    push_str(&mut v, b);
    push_str(&mut v, c);
    push_str(&mut v, d);
    assert(v@ =~= a@ + b@ + c@ + d@);
    string_of(&v)
}

/// What importing one question's text does (no database work here).
pub fn plan_text_segment(text: &str, source_label: &str, slug: &str, packet_label: &str) -> (p: SegmentPlan)
    requires
        spec_classify(text@) == QuestionKind::Bonus ==> !(spec_parse_bonus(text@) is Disordered),
    ensures
        plan_matches(p, spec_segment_outcome(text@, source_label@), text@, source_label@, slug@, packet_label@),
{
    let tv = chars_of(text);
    let preview = string_of(&take_chars_vec(&tv, 200));
    let kind = classify(text);
    let (body, n, warnings) = if kind == QuestionKind::Bonus {
        match parse_bonus(text) {
            Ok(p) => {
                assert(p.parts@.len() == 2 || p.parts@.len() == 3);
                let body = build_bonus_cloze_text(&p);
                let n = count_cloze_deletions(body.as_str());
                let mut warnings: Vec<String> = Vec::new();
                if p.parts.len() != 3 {
                    let mut m: Vec<char> = Vec::new();
                    push_str(&mut m, "expected 3 parts, got ");
                    crate::text::push_decimal(&mut m, p.parts.len());
                    warnings.push(string_of(&m));
                    assert(strings(warnings@) =~= seq![m@]);
                } else {
                    assert(strings(warnings@) =~= Seq::<Seq<char>>::empty());
                }
                (body, n, warnings)
            },
            Err(e) => {
                let head = crate::text::join_str(source_label, ": ");
                return SegmentPlan::Skip(crate::text::join_str(head.as_str(), e.as_str()));
            },
        }
    } else {
        match parse_tossup(text) {
            Ok(p) => {
                let body = build_tossup_cloze_text(&p);
                let n = count_cloze_deletions(body.as_str());
                let warnings: Vec<String> = Vec::new();
                assert(strings(warnings@) =~= Seq::<Seq<char>>::empty());
                (body, n, warnings)
            },
            Err(e) => {
                let head = crate::text::join_str(source_label, ": ");
                return SegmentPlan::Skip(crate::text::join_str(head.as_str(), e.as_str()));
            },
        }
    };
    if n == 0 {
        return SegmentPlan::Skip(crate::text::join_str(source_label, ": no clozes"));
    }
    let kind_word = match kind {
        QuestionKind::Tossup => "Tossup",
        QuestionKind::Bonus => "Bonus",
    };
    let head = join4(kind_word, " · ", packet_label, " · ");
    let extra = crate::text::join_str(head.as_str(), source_label);
    let note = QuizbowlNote {
        note_id: crate::text::join_str("n_qb_", slug),
        card_id: crate::text::join_str("c_qb_", slug),
        text: body,
        extra,
        tags: tags_for(kind),
    };
    let entry = ImportReportEntry {
        file: owned(source_label),
        kind,
        tags: tags_for(kind),
        cloze_count: n,
        warnings,
        ocr_preview: preview,
    };
    SegmentPlan::Import(note, entry)
}

/// The questions of one page: each with the label and slug it is imported
/// under (one question keeps the page's own; several get " #i" and "_i"),
/// and the note of an earlier single-question import to delete when the
/// page now holds several.
pub struct PagePlan {
    pub delete_note: Option<String>,
    pub targets: Vec<(String, String)>,
}

pub open spec fn spec_page_targets(count: nat, label: Seq<char>, slug: Seq<char>) -> Seq<(Seq<char>, Seq<char>)> {
    if count == 1 {
        seq![(label, slug)]
    } else {
        Seq::new(count, |i: int| (label + " #"@ + crate::text::decimal(i as nat), slug + "_"@ + crate::text::decimal(i as nat)))
    }
}

pub fn plan_page(count: usize, source_label: &str, slug_base: &str) -> (p: PagePlan)
    ensures
        p.targets@.map_values(|t: (String, String)| (t.0@, t.1@)) == spec_page_targets(count as nat, source_label@, slug_base@),
        match p.delete_note {
            Some(id) => count > 1 && id@ == "n_qb_"@ + slug_base@,
            None => count <= 1,
        },
{
    let mut targets: Vec<(String, String)> = Vec::new();
    if count == 1 {
        targets.push((owned(source_label), owned(slug_base)));
        assert(targets@.map_values(|t: (String, String)| (t.0@, t.1@)) =~= spec_page_targets(count as nat, source_label@, slug_base@));
        return PagePlan { delete_note: None, targets };
    }
    let mut i: usize = 0;
    while i < count
        invariant
            i <= count,
            count != 1,
            targets@.map_values(|t: (String, String)| (t.0@, t.1@)) == spec_page_targets(count as nat, source_label@, slug_base@).take(i as int),
        decreases count - i,
    {
        let mut l: Vec<char> = Vec::new();
        push_str(&mut l, source_label);
        push_str(&mut l, " #");
        crate::text::push_decimal(&mut l, i);
        let mut s: Vec<char> = Vec::new();
        push_str(&mut s, slug_base);
        push_str(&mut s, "_");
        crate::text::push_decimal(&mut s, i);
        let ghost before = targets@.map_values(|t: (String, String)| (t.0@, t.1@));
        assert(l@ =~= source_label@ + " #"@ + crate::text::decimal(i as nat));
        assert(s@ =~= slug_base@ + "_"@ + crate::text::decimal(i as nat));
        assert(spec_page_targets(count as nat, source_label@, slug_base@)[i as int] == (l@, s@));
        let ls = string_of(&l);
        let ss = string_of(&s);
        targets.push((ls, ss));
        assert(targets@.map_values(|t: (String, String)| (t.0@, t.1@)) =~= before.push((l@, s@)));
        assert(spec_page_targets(count as nat, source_label@, slug_base@).take(i + 1) =~= spec_page_targets(count as nat, source_label@, slug_base@).take(i as int).push((l@, s@)));
        assert(targets@.map_values(|t: (String, String)| (t.0@, t.1@)) =~= spec_page_targets(count as nat, source_label@, slug_base@).take(i + 1));
        i += 1;
    }
    assert(spec_page_targets(count as nat, source_label@, slug_base@).take(count as int) =~= spec_page_targets(count as nat, source_label@, slug_base@));
    let delete_note = if count > 1 {
        Some(crate::text::join_str("n_qb_", slug_base))
    } else {
        None
    };
    PagePlan { delete_note, targets }
}

proof fn lemma_keep_long(segs: Seq<Seq<char>>)
    ensures
        forall|i: int| 0 <= i < keep_long(segs).len() ==> byte_len(#[trigger] keep_long(segs)[i]) > 30,
    decreases segs.len(),
{
    if segs.len() > 0 {
        lemma_keep_long(segs.drop_last());
        let rest = keep_long(segs.drop_last());
        assert forall|i: int| 0 <= i < keep_long(segs).len() implies byte_len(#[trigger] keep_long(segs)[i]) > 30 by {
            if i < rest.len() {
                assert(keep_long(segs)[i] == rest[i]);
            }
        }
    }
}

/// Every question cut from a page is longer than 30 bytes.
pub proof fn law_questions_are_long(text: Seq<char>)
    ensures
        forall|i: int| 0 <= i < spec_split_multipage_questions(text).len() ==>
            byte_len(#[trigger] spec_split_multipage_questions(text)[i]) > 30,
{
    let (segs, cur) = split_fold(lines(text), (Seq::empty(), Seq::empty()));
    let all = if trim(cur).len() > 0 {
        segs.push(trim(cur))
    } else {
        segs
    };
    lemma_keep_long(all);
}

/// The cloze text of a tossup always makes at least two cards: the text
/// after the power mark and the answer are deletions 1 and 2.
pub proof fn law_tossup_makes_two_cards(lead_in: Seq<char>, post_power: Seq<char>, answer: Seq<char>)
    ensures
        spec_count_cloze_deletions(spec_build_tossup_cloze_text(lead_in, post_power, answer)) >= 2,
{
    let pre = (if lead_in.len() > 0 {
        lead_in + "\n\n"@
    } else {
        Seq::empty()
    }) + spec_wrap_cloze(1, post_power) + "\n\nAnswer: "@;
    law_wrapped_deletion_counts(pre, 2, answer, Seq::empty());
    assert(pre + spec_wrap_cloze(2, answer) + Seq::<char>::empty() =~= spec_build_tossup_cloze_text(
        lead_in,
        post_power,
        answer,
    ));
}

/// The cloze text of a bonus makes at least one card per part: part k's
/// answer is deletion k.
pub proof fn law_bonus_makes_a_card_per_part(intro: Seq<char>, parts: Seq<(char, Seq<char>, Seq<char>)>)
    requires
        0 < parts.len() <= usize::MAX,
    ensures
        spec_count_cloze_deletions(spec_build_bonus_cloze_text(intro, parts)) >= parts.len(),
{
    let k = parts.len() - 1;
    let pre = intro_block(intro) + bonus_parts_text(parts.drop_last()) + (if k > 0 {
        "\n\n"@
    } else {
        Seq::empty()
    }) + part_head(parts.last().0, parts.last().1);
    law_wrapped_deletion_counts(pre, parts.len(), parts.last().2, Seq::empty());
    assert(pre + spec_wrap_cloze(parts.len(), parts.last().2) + Seq::<char>::empty() =~= spec_build_bonus_cloze_text(
        intro,
        parts,
    ));
}

/// A bonus that reads has one part for each part marker in its text, in the
/// order A, B, C: parts A and B always, and C exactly when the text has a
/// part C marker. Each part is what reading from its own marker gives, with
/// a non-empty answer. And when parts A and B read and C reads or is
/// absent, the bonus reads.
pub proof fn law_bonus_has_a_part_per_marker(t: Seq<char>)
    ensures
        spec_parse_bonus(t) matches BonusOutcome::Parsed(intro, ps) ==> {
            &&& ps.len() == (if spec_find_part_marker(t, 'C') is Some { 3int } else { 2int })
            &&& forall|k: int|
                0 <= k < ps.len() ==> #[trigger] ps[k].0 == seq!['A', 'B', 'C'][k] && ps[k].2.len() > 0
                    && spec_bonus_part(t, ps[k].0) == PartOutcome::Part(ps[k].1, ps[k].2)
        },
        spec_bonus_part(t, 'A') is Part && spec_bonus_part(t, 'B') is Part && (spec_bonus_part(t, 'C') is Part
            || spec_bonus_part(t, 'C') is Missing) ==> spec_parse_bonus(t) is Parsed,
{
    if spec_parse_bonus(t) is Parsed {
        let ps = spec_parse_bonus(t)->Parsed_1;
        assert forall|k: int| 0 <= k < ps.len() implies #[trigger] ps[k].0 == seq!['A', 'B', 'C'][k] && ps[k].2.len() > 0
            && spec_bonus_part(t, ps[k].0) == PartOutcome::Part(ps[k].1, ps[k].2) by {
            if k == 0 {
            } else if k == 1 {
            } else {
            }
        }
    }
}

} // verus!
