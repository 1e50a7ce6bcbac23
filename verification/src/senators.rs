//! US senators: records from the senators JSON, name slugs, and photos
//! taken from a saved (quoted-printable) HTML page.
use vstd::prelude::*;
use vstd::utf8::encode_utf8;
use crate::imports::{strings, ImportResult};
use crate::text::{
    byte_len, utf8_width,
    chars_of, concat, drop_cr, ends_with, find, find_exec, int_decimal, is_ascii_alnum, lines,
    lines_vec, lower_char, push_all, push_i64_decimal, push_str, replace, replace_vec, slice,
    split, split_vec, string_of, trim, trim_end, trim_end_vec, trim_matches, trim_matches_vec,
    trim_vec, views,
};

verus! {

/// A senator as the importer reads one from the JSON file.
#[derive(Debug, Clone)]
pub struct SenatorJson {
    pub name: String,
    pub state: String,
    pub party: String,
    pub since: i64,
    pub background: String,
    pub fun_fact: String,
    pub personal_fact: String,
}

pub struct SenatorRecord {
    pub name: String,
    pub state: String,
    pub party: String,
    pub since: String,
    pub background: String,
    pub trivia: String,
    pub personal_fact: String,
    pub photo: String,
}

/// `R`, `D` and `I` (and the spelled-out names) become `Republican`,
/// `Democrat` and `Independent`; any other code is kept, trimmed.
pub open spec fn spec_normalize_party(code: Seq<char>) -> Seq<char> {
    let t = trim(code);
    if t == "R"@ || t == "Republican"@ {
        "Republican"@
    } else if t == "D"@ || t == "Democrat"@ || t == "Democratic"@ {
        "Democrat"@
    } else if t == "I"@ || t == "Independent"@ {
        "Independent"@
    } else {
        t
    }
}

fn is_text(v: &Vec<char>, s: &str) -> (b: bool)
    ensures
        b == (v@ == s@),
{
    let w = chars_of(s);
    crate::text::eq_vec(v, &w)
}

pub fn normalize_party(code: &str) -> (r: String)
    ensures
        r@ == spec_normalize_party(code@),
{
    let c = chars_of(code);
    let t = trim_vec(&c);
    if is_text(&t, "R") || is_text(&t, "Republican") {
        crate::text::owned("Republican")
    } else if is_text(&t, "D") || is_text(&t, "Democrat") || is_text(&t, "Democratic") {
        crate::text::owned("Democrat")
    } else if is_text(&t, "I") || is_text(&t, "Independent") {
        crate::text::owned("Independent")
    } else {
        string_of(&t)
    }
}

/// A record from what the JSON holds: the party normalized, the year as
/// text, the fun fact as trivia, and no photo yet.
pub fn json_to_record(j: SenatorJson) -> (r: SenatorRecord)
    ensures
        r.name@ == j.name@,
        r.state@ == j.state@,
        r.party@ == spec_normalize_party(j.party@),
        r.since@ == int_decimal(j.since as int),
        r.background@ == j.background@,
        r.trivia@ == j.fun_fact@,
        r.personal_fact@ == j.personal_fact@,
        r.photo@.len() == 0,
{
    let party = normalize_party(j.party.as_str());
    let mut since: Vec<char> = Vec::new();
    push_i64_decimal(&mut since, j.since);
    assert(since@ =~= int_decimal(j.since as int));
    SenatorRecord {
        name: j.name,
        state: j.state,
        party,
        since: string_of(&since),
        background: j.background,
        trivia: j.fun_fact,
        personal_fact: j.personal_fact,
        photo: String::new(),
    }
}

// ---------------------------------------------------------------------------
// Slugs
// ---------------------------------------------------------------------------

/// Building a slug one character at a time: letters and digits lowercased,
/// a space, `-` or `'` becomes one `_` after something that is not `_`,
/// anything else dropped.
pub open spec fn slug_step(s: Seq<char>, c: char) -> Seq<char> {
    if is_ascii_alnum(c) {
        s.push(lower_char(c))
    } else if (c == ' ' || c == '-' || c == '\'') && !(s.len() > 0 && s.last() == '_') && s.len()
        > 0 {
        s.push('_')
    } else {
        s
    }
}

pub open spec fn slug_fold(name: Seq<char>) -> Seq<char>
    decreases name.len(),
{
    if name.len() == 0 {
        Seq::empty()
    } else {
        slug_step(slug_fold(name.drop_last()), name.last())
    }
}

/// A senator's slug, the id part of their note and cards.
pub open spec fn spec_senator_slug(name: Seq<char>) -> Seq<char> {
    trim_matches(slug_fold(name), '_')
}

pub fn senator_slug(name: &str) -> (r: String)
    ensures
        r@ == spec_senator_slug(name@),
{
    let n = chars_of(name);
    let mut s: Vec<char> = Vec::new();
    let mut i: usize = 0;
    while i < n.len()
        invariant
            i <= n.len(),
            s@ == slug_fold(n@.take(i as int)),
        decreases n.len() - i,
    {
        let c = n[i];
        proof {
            assert(n@.take(i + 1).drop_last() =~= n@.take(i as int));
        }
        if ('0' <= c && c <= '9') || ('A' <= c && c <= 'Z') || ('a' <= c && c <= 'z') {
            s.push(crate::text::to_ascii_lower(c));
        } else if (c == ' ' || c == '-' || c == '\'') && !(s.len() > 0 && s[s.len() - 1] == '_')
            && s.len() > 0 {
            s.push('_');
        }
        i += 1;
    }
    assert(n@.take(n.len() as int) =~= n@);
    let t = trim_matches_vec(&s, '_');
    string_of(&t)
}

// ---------------------------------------------------------------------------
// Photos
// ---------------------------------------------------------------------------

/// `<img src="…" alt="…">` with `&` (and `"` in the alt text) escaped.
pub open spec fn spec_photo_html(url: Seq<char>, alt: Seq<char>) -> Seq<char> {
    let esc_alt = replace(replace(alt, "&"@, "&amp;"@), "\""@, "&quot;"@);
    let esc_url = replace(url, "&"@, "&amp;"@);
    "<img src=\""@ + esc_url + "\" alt=\""@ + esc_alt + "\">"@
}

fn replace_lit(s: &Vec<char>, from: &str, to: &str) -> (r: Vec<char>)
    requires
        from@.len() > 0,
    ensures
        r@ == replace(s@, from@, to@),
{
    let f = chars_of(from);
    let t = chars_of(to);
    replace_vec(s, &f, &t)
}

pub fn photo_html(url: &str, alt: &str) -> (r: String)
    ensures
        r@ == spec_photo_html(url@, alt@),
{
    proof {
        reveal_strlit("&");
        reveal_strlit("\"");
    }
    let a = chars_of(alt);
    let a1 = replace_lit(&a, "&", "&amp;");
    let esc_alt = replace_lit(&a1, "\"", "&quot;");
    let u = chars_of(url);
    let esc_url = replace_lit(&u, "&", "&amp;");
    let mut out = chars_of("<img src=\"");
    push_all(&mut out, &esc_url);
    push_str(&mut out, "\" alt=\"");
    push_all(&mut out, &esc_alt);
    push_str(&mut out, "\">");
    string_of(&out)
}


// ---------------------------------------------------------------------------
// Quoted-printable
// ---------------------------------------------------------------------------

/// Joining soft line breaks: a line (trailing whitespace removed) that ends
/// in `=` and has more than that one byte continues on the next line.
pub open spec fn qp_step(state: (Seq<char>, Seq<char>), line: Seq<char>) -> (Seq<char>, Seq<char>) {
    let (raw, buf) = state;
    let t = trim_end(line);
    if t.len() > 0 && t.last() == '=' && byte_len(t) > 1 {
        (raw, buf + t.drop_last())
    } else {
        (raw + buf + t + "\n"@, Seq::empty())
    }
}

pub open spec fn qp_fold(ls: Seq<Seq<char>>) -> (Seq<char>, Seq<char>)
    decreases ls.len(),
{
    if ls.len() == 0 {
        (Seq::empty(), Seq::empty())
    } else {
        qp_step(qp_fold(ls.drop_last()), ls.last())
    }
}

/// The text with soft line breaks joined and each line ended by `\n`.
pub open spec fn qp_unfold(input: Seq<char>) -> Seq<char> {
    let (raw, buf) = qp_fold(lines(input));
    raw + buf
}

/// The value of one hexadecimal digit byte.
pub open spec fn hex_digit(b: u8) -> Option<nat> {
    if 48 <= b <= 57 {
        Some((b - 48) as nat)
    } else if 65 <= b <= 70 {
        Some((b - 55) as nat)
    } else if 97 <= b <= 102 {
        Some((b - 87) as nat)
    } else {
        None
    }
}

/// `u8::from_str_radix` on the two bytes after `=`: two hex digits, or a
/// `+` sign and one.
pub open spec fn hex_pair(b1: u8, b2: u8) -> Option<nat> {
    if b1 == 43 {
        hex_digit(b2)
    } else {
        match (hex_digit(b1), hex_digit(b2)) {
            (Some(x), Some(y)) => Some(16 * x + y),
            _ => None,
        }
    }
}

/// Decoding `=XX` escapes byte by byte; every other byte becomes the
/// character with that code (bytes are read as Latin-1).
pub open spec fn qp_decode_bytes(b: Seq<u8>) -> Seq<char>
    decreases b.len(),
{
    if b.len() == 0 {
        Seq::empty()
    } else if b[0] == 61 && b.len() >= 3 && hex_pair(b[1], b[2]) is Some {
        seq![(hex_pair(b[1], b[2])->0 as u32) as char] + qp_decode_bytes(b.skip(3))
    } else {
        seq![(b[0] as u32) as char] + qp_decode_bytes(b.skip(1))
    }
}

/// Quoted-printable decoding of a saved MHTML page, enough for the senator
/// grid: soft breaks joined, then `=XX` escapes decoded over the UTF-8 bytes.
pub open spec fn spec_decode_quoted_printable(input: Seq<char>) -> Seq<char> {
    qp_decode_bytes(encode_utf8(qp_unfold(input)))
}

proof fn lemma_byte_len_pos(s: Seq<char>)
    ensures
        byte_len(s) >= s.len(),
    decreases s.len(),
{
    if s.len() > 0 {
        lemma_byte_len_pos(s.drop_last());
    }
}

fn hex_digit_exec(b: u8) -> (r: Option<u8>)
    ensures
        match r {
            Some(v) => hex_digit(b) == Some(v as nat) && v < 16,
            None => hex_digit(b) is None,
        },
{
    if 48 <= b && b <= 57 {
        Some(b - 48)
    } else if 65 <= b && b <= 70 {
        Some(b - 55)
    } else if 97 <= b && b <= 102 {
        Some(b - 87)
    } else {
        None
    }
}

fn hex_pair_exec(b1: u8, b2: u8) -> (r: Option<u8>)
    ensures
        match r {
            Some(v) => hex_pair(b1, b2) == Some(v as nat),
            None => hex_pair(b1, b2) is None,
        },
{
    if b1 == 43 {
        hex_digit_exec(b2)
    } else {
        match (hex_digit_exec(b1), hex_digit_exec(b2)) {
            (Some(x), Some(y)) => Some(16 * x + y),
            _ => None,
        }
    }
}

pub fn decode_quoted_printable(input: &str) -> (r: String)
    ensures
        r@ == spec_decode_quoted_printable(input@),
{
    let inp = chars_of(input);
    let ls = lines_vec(&inp);
    let mut raw: Vec<char> = Vec::new();
    let mut buf: Vec<char> = Vec::new();
    let mut i: usize = 0;
    while i < ls.len()
        invariant
            i <= ls.len(),
            views(ls@) == lines(inp@),
            (raw@, buf@) == qp_fold(views(ls@).take(i as int)),
        decreases ls.len() - i,
    {
        let t = trim_end_vec(&ls[i]);
        proof {
            reveal_strlit("\n");
            let lv = views(ls@);
            assert(lv.take(i + 1).drop_last() =~= lv.take(i as int));
            assert(lv.take(i + 1).last() == ls@[i as int]@);
            if t@.len() > 0 {
                assert(t@.drop_last().push(t@.last()) =~= t@);
                lemma_byte_len_pos(t@.drop_last());
            }
        }
        if t.len() > 1 && t[t.len() - 1] == '=' {
            let head = slice(&t, 0, t.len() - 1);
            push_all(&mut buf, &head);
        } else {
            push_all(&mut raw, &buf);
            push_all(&mut raw, &t);
            raw.push('\n');
            buf = Vec::new();
        }
        i += 1;
    }
    assert(views(ls@).take(ls.len() as int) =~= views(ls@));
    push_all(&mut raw, &buf);
    let raw_s = string_of(&raw);
    let bytes = raw_s.as_str().as_bytes();
    let mut out: Vec<char> = Vec::new();
    let ghost all = bytes@;
    let mut k: usize = 0;
    assert(all.skip(0) =~= all);
    while k < bytes.len()
        invariant
            k <= bytes.len(),
            all == bytes@,
            out@ + qp_decode_bytes(all.skip(k as int)) == qp_decode_bytes(all),
        decreases bytes.len() - k,
    {
        let ghost rest = all.skip(k as int);
        if bytes[k] == 61 && bytes.len() - k >= 3 {
            match hex_pair_exec(bytes[k + 1], bytes[k + 2]) {
                Some(v) => {
                    out.push(v as char);
                    proof {
                        assert(rest.skip(3) =~= all.skip(k + 3));
                        assert(out@ + qp_decode_bytes(all.skip(k + 3)) =~= (out@.drop_last()) + qp_decode_bytes(rest));
                    }
                    k += 3;
                    continue;
                },
                None => {},
            }
        }
        out.push(bytes[k] as char);
        proof {
            assert(rest.skip(1) =~= all.skip(k + 1));
            assert(out@ + qp_decode_bytes(all.skip(k + 1)) =~= (out@.drop_last()) + qp_decode_bytes(rest));
        }
        k += 1;
    }
    string_of(&out)
}


// ---------------------------------------------------------------------------
// Reading the senator grid
// ---------------------------------------------------------------------------

/// The text between the first `start` and the first `end` after it.
pub open spec fn spec_extract_between(hay: Seq<char>, start: Seq<char>, end: Seq<char>) -> Option<Seq<char>> {
    match find(hay, start) {
        None => None,
        Some(i) => {
            let rest = hay.skip(i + start.len());
            match find(rest, end) {
                None => None,
                Some(j) => Some(rest.take(j)),
            }
        },
    }
}

pub open spec fn opt_view(o: Option<String>) -> Option<Seq<char>> {
    match o {
        Some(s) => Some(s@),
        None => None,
    }
}

fn extract_between_v(hay: &Vec<char>, start: &Vec<char>, end: &Vec<char>) -> (r: Option<Vec<char>>)
    ensures
        match r {
            Some(v) => spec_extract_between(hay@, start@, end@) == Some(v@),
            None => spec_extract_between(hay@, start@, end@) is None,
        },
{
    proof {
        crate::text::lemma_find_from(hay@, start@, 0);
    }
    let i = match find_exec(hay, start) {
        None => {
            return None;
        },
        Some(i) => i,
    };
    assert(crate::text::matches_at(hay@, start@, i as int));
    assert(i + start.len() <= hay.len());
    let rest = slice(hay, i + start.len(), hay.len());
    assert(rest@ =~= hay@.skip(i + start@.len()));
    proof {
        crate::text::lemma_find_from(rest@, end@, 0);
    }
    match find_exec(&rest, end) {
        None => None,
        Some(j) => {
            assert(crate::text::matches_at(rest@, end@, j as int));
            Some(slice(&rest, 0, j))
        },
    }
}

pub fn extract_between(hay: &str, start: &str, end: &str) -> (r: Option<String>)
    ensures
        opt_view(r) == spec_extract_between(hay@, start@, end@),
{
    let h = chars_of(hay);
    let s = chars_of(start);
    let e = chars_of(end);
    match extract_between_v(&h, &s, &e) {
        Some(v) => Some(string_of(&v)),
        None => None,
    }
}

/// The first `<img …>` tag, up to and including its `>`.
pub open spec fn spec_extract_img_tag(chunk: Seq<char>) -> Option<Seq<char>> {
    match find(chunk, "<img"@) {
        None => None,
        Some(i) => {
            let rest = chunk.skip(i);
            match find(rest, ">"@) {
                None => None,
                Some(j) => Some(rest.take(j + 1)),
            }
        },
    }
}

fn extract_img_tag_v(chunk: &Vec<char>) -> (r: Option<Vec<char>>)
    ensures
        match r {
            Some(v) => spec_extract_img_tag(chunk@) == Some(v@),
            None => spec_extract_img_tag(chunk@) is None,
        },
{
    let open = chars_of("<img");
    proof {
        crate::text::lemma_find_from(chunk@, "<img"@, 0);
    }
    let i = match find_exec(chunk, &open) {
        None => {
            return None;
        },
        Some(i) => i,
    };
    let rest = slice(chunk, i, chunk.len());
    assert(rest@ =~= chunk@.skip(i as int));
    let close = chars_of(">");
    proof {
        crate::text::lemma_find_from(rest@, ">"@, 0);
    }
    match find_exec(&rest, &close) {
        None => None,
        Some(j) => {
            assert(crate::text::matches_at(rest@, ">"@, j as int));
            proof {
                reveal_strlit(">");
            }
            Some(slice(&rest, 0, j + 1))
        },
    }
}

pub fn extract_img_tag(chunk: &str) -> (r: Option<String>)
    ensures
        opt_view(r) == spec_extract_img_tag(chunk@),
{
    let c = chars_of(chunk);
    match extract_img_tag_v(&c) {
        Some(v) => Some(string_of(&v)),
        None => None,
    }
}

/// The value of `attr="…"` in a tag.
pub open spec fn spec_extract_attr(tag: Seq<char>, attr: Seq<char>) -> Option<Seq<char>> {
    spec_extract_between(tag, attr + "=\""@, "\""@)
}

fn extract_attr_v(tag: &Vec<char>, attr: &str) -> (r: Option<Vec<char>>)
    ensures
        match r {
            Some(v) => spec_extract_attr(tag@, attr@) == Some(v@),
            None => spec_extract_attr(tag@, attr@) is None,
        },
{
    let mut needle = chars_of(attr);
    push_str(&mut needle, "=\"");
    let quote = chars_of("\"");
    extract_between_v(tag, &needle, &quote)
}

pub fn extract_attr(tag: &str, attr: &str) -> (r: Option<String>)
    ensures
        opt_view(r) == spec_extract_attr(tag@, attr@),
{
    let t = chars_of(tag);
    match extract_attr_v(&t, attr) {
        Some(v) => Some(string_of(&v)),
        None => None,
    }
}

/// The `src` and `alt` attributes of an image tag.
pub fn parse_img_src_alt(tag: &str) -> (r: (Option<String>, Option<String>))
    ensures
        opt_view(r.0) == spec_extract_attr(tag@, "src"@),
        opt_view(r.1) == spec_extract_attr(tag@, "alt"@),
{
    (extract_attr(tag, "src"), extract_attr(tag, "alt"))
}

/// The photo of one card of the grid: the trimmed card name (when there
/// is one) and the image tag made from the card's `<img>` (`src` needed,
/// the name standing in for a missing `alt`).
pub open spec fn card_photo(chunk: Seq<char>) -> Option<(Seq<char>, Seq<char>)> {
    match spec_extract_between(chunk, "class=\"card-name\">"@, "</div>"@) {
        None => None,
        Some(n) => {
            let name = trim(n);
            if name.len() == 0 {
                None
            } else {
                match spec_extract_img_tag(chunk) {
                    None => None,
                    Some(tag) => match spec_extract_attr(tag, "src"@) {
                        None => None,
                        Some(src) => {
                            let alt = match spec_extract_attr(tag, "alt"@) {
                                Some(a) => a,
                                None => name,
                            };
                            Some((name, spec_photo_html(src, alt)))
                        },
                    },
                }
            }
        },
    }
}

/// The photos of the cards, in the order of the page.
pub open spec fn card_photos(chunks: Seq<Seq<char>>) -> Seq<(Seq<char>, Seq<char>)>
    decreases chunks.len(),
{
    if chunks.len() == 0 {
        Seq::empty()
    } else {
        let rest = card_photos(chunks.drop_last());
        match card_photo(chunks.last()) {
            Some(p) => rest.push(p),
            None => rest,
        }
    }
}

/// Senator name and photo tag for each card of a saved senators page (the
/// page as stored, quoted-printable); the text before the first card is
/// not a card.
pub open spec fn spec_photos_from_html(raw: Seq<char>) -> Seq<(Seq<char>, Seq<char>)> {
    card_photos(split(spec_decode_quoted_printable(raw), "class=\"card\""@).drop_first())
}

pub open spec fn pairs_view(v: Seq<(String, String)>) -> Seq<(Seq<char>, Seq<char>)> {
    v.map_values(|x: (String, String)| (x.0@, x.1@))
}

fn card_photo_exec(chunk: &Vec<char>) -> (r: Option<(String, String)>)
    ensures
        match r {
            Some(p) => card_photo(chunk@) == Some((p.0@, p.1@)),
            None => card_photo(chunk@) is None,
        },
{
    let open = chars_of("class=\"card-name\">");
    let close = chars_of("</div>");
    let n = match extract_between_v(chunk, &open, &close) {
        None => {
            return None;
        },
        Some(n) => n,
    };
    let name = trim_vec(&n);
    if name.len() == 0 {
        return None;
    }
    let tag = match extract_img_tag_v(chunk) {
        None => {
            return None;
        },
        Some(t) => t,
    };
    let src = match extract_attr_v(&tag, "src") {
        None => {
            return None;
        },
        Some(s) => s,
    };
    let alt = match extract_attr_v(&tag, "alt") {
        Some(a) => a,
        None => name.clone(),
    };
    let name_s = string_of(&name);
    let src_s = string_of(&src);
    let alt_s = string_of(&alt);
    let html = photo_html(src_s.as_str(), alt_s.as_str());
    Some((name_s, html))
}

pub fn photos_from_html(raw: &str) -> (r: Vec<(String, String)>)
    ensures
        pairs_view(r@) == spec_photos_from_html(raw@),
{
    let html_s = decode_quoted_printable(raw);
    let html = chars_of(html_s.as_str());
    let sep = chars_of("class=\"card\"");
    proof {
        reveal_strlit("class=\"card\"");
    }
    let chunks = split_vec(&html, &sep);
    let ghost cv = views(chunks@).drop_first();
    let mut out: Vec<(String, String)> = Vec::new();
    let mut i: usize = 1;
    assert(views(chunks@).len() == chunks@.len());
    while i < chunks.len()
        invariant
            1 <= i <= chunks.len() || chunks.len() == 0,
            cv == views(chunks@).drop_first(),
            pairs_view(out@) == card_photos(cv.take(i - 1)),
        decreases chunks.len() - i,
    {
        proof {
            assert(cv.take(i as int).drop_last() =~= cv.take(i - 1));
            assert(cv.take(i as int).last() == chunks@[i as int]@);
        }
        let ghost before = pairs_view(out@);
        match card_photo_exec(&chunks[i]) {
            Some(p) => {
                out.push(p);
                assert(pairs_view(out@) =~= before.push((out@.last().0@, out@.last().1@)));
            },
            None => {},
        }
        i += 1;
    }
    proof {
        if chunks.len() > 0 {
            assert(cv.take(chunks.len() - 1) =~= cv);
        }
    }
    out
}

/// The photo for `name`: the last pair that names it.
pub open spec fn photo_for(photos: Seq<(Seq<char>, Seq<char>)>, name: Seq<char>) -> Option<Seq<char>>
    decreases photos.len(),
{
    if photos.len() == 0 {
        None
    } else if photos.last().0 == name {
        Some(photos.last().1)
    } else {
        photo_for(photos.drop_last(), name)
    }
}

fn find_photo(photos: &Vec<(String, String)>, name: &String) -> (r: Option<String>)
    ensures
        opt_view(r) == photo_for(pairs_view(photos@), name@),
{
    let mut k = photos.len();
    let ghost pv = pairs_view(photos@);
    assert(pv.take(k as int) =~= pv);
    while k > 0
        invariant
            k <= photos.len(),
            pv == pairs_view(photos@),
            photo_for(pv, name@) == photo_for(pv.take(k as int), name@),
        decreases k,
    {
        proof {
            assert(pv.take(k as int).drop_last() =~= pv.take(k - 1));
            assert(pv.take(k as int).last() == (photos@[k - 1].0@, photos@[k - 1].1@));
        }
        if photos[k - 1].0 == *name {
            return Some(photos[k - 1].1.clone());
        }
        k -= 1;
    }
    None
}

/// Each record whose name has a photo gets it; the others keep theirs.
pub fn merge_photos(records: &mut Vec<SenatorRecord>, photos: &Vec<(String, String)>)
    ensures
        final(records)@.len() == old(records)@.len(),
        forall|i: int| 0 <= i < final(records)@.len() ==> {
            let o = #[trigger] old(records)@[i];
            let n = final(records)@[i];
            &&& n.name == o.name
            &&& n.state == o.state
            &&& n.party == o.party
            &&& n.since == o.since
            &&& n.background == o.background
            &&& n.trivia == o.trivia
            &&& n.personal_fact == o.personal_fact
            &&& n.photo@ == match photo_for(pairs_view(photos@), o.name@) {
                Some(h) => h,
                None => o.photo@,
            }
        },
{
    let mut i: usize = 0;
    let ghost start = records@;
    while i < records.len()
        invariant
            i <= records.len(),
            records@.len() == start.len(),
            start == old(records)@,
            forall|j: int| i <= j < records@.len() ==> #[trigger] records@[j] == start[j],
            forall|j: int| 0 <= j < i ==> {
                let o = #[trigger] start[j];
                let n = records@[j];
                &&& n.name == o.name
                &&& n.state == o.state
                &&& n.party == o.party
                &&& n.since == o.since
                &&& n.background == o.background
                &&& n.trivia == o.trivia
                &&& n.personal_fact == o.personal_fact
                &&& n.photo@ == match photo_for(pairs_view(photos@), o.name@) {
                    Some(h) => h,
                    None => o.photo@,
                }
            },
        decreases records.len() - i,
    {
        match find_photo(photos, &records[i].name) {
            Some(h) => {
                records[i].photo = h;
            },
            None => {},
        }
        i += 1;
    }
}

// ---------------------------------------------------------------------------
// Importing the records
// ---------------------------------------------------------------------------

/// What `format!("{:?}", s)` writes for a string: the text quoted, with
/// characters escaped as `str::escape_debug` does.
pub uninterp spec fn spec_debug_str(s: Seq<char>) -> Seq<char>;

/// `format!("{:?}", s)` for a `&str`. Claimed: the text depends on `s`
/// alone.
#[verifier::external_body]
fn debug_str(s: &str) -> (r: String)
    ensures
        r@ == spec_debug_str(s@),
{
    format!("{:?}", s)
}

/// What to do with one senator: skip it with a warning when its name gives
/// no slug, else write its note and its two cards.
pub enum SenatorPlan {
    Skip(String),
    Insert { note_id: String, card_ids: Vec<String> },
}

pub open spec fn plan_matches(p: SenatorPlan, name: Seq<char>) -> bool {
    let slug = spec_senator_slug(name);
    if slug.len() == 0 {
        p matches SenatorPlan::Skip(w) && w@ == "Skip empty slug for name "@ + spec_debug_str(name)
    } else {
        p matches SenatorPlan::Insert { note_id, card_ids } && note_id@ == "n_sen_"@ + slug && strings(card_ids@)
            == seq!["c_sen_"@ + slug + "_0"@, "c_sen_"@ + slug + "_1"@]
    }
}

fn join3(a: &str, b: &str, c: &str) -> (r: String)
    ensures
        r@ == a@ + b@ + c@,
{
    let mut v: Vec<char> = Vec::new();
    push_str(&mut v, a);
    push_str(&mut v, b);
    push_str(&mut v, c);
    assert(v@ =~= a@ + b@ + c@);
    string_of(&v)
}

pub fn plan_senator(rec: &SenatorRecord) -> (p: SenatorPlan)
    ensures
        plan_matches(p, rec.name@),
{
    let slug = senator_slug(rec.name.as_str());
    let sv = chars_of(slug.as_str());
    if sv.len() == 0 {
        let d = debug_str(rec.name.as_str());
        return SenatorPlan::Skip(crate::text::join_str("Skip empty slug for name ", d.as_str()));
    }
    let note_id = crate::text::join_str("n_sen_", slug.as_str());
    let mut card_ids: Vec<String> = Vec::new();
    card_ids.push(join3("c_sen_", slug.as_str(), "_0"));
    card_ids.push(join3("c_sen_", slug.as_str(), "_1"));
    assert(strings(card_ids@) =~= seq!["c_sen_"@ + slug@ + "_0"@, "c_sen_"@ + slug@ + "_1"@]);
    SenatorPlan::Insert { note_id, card_ids }
}

/// Books one senator's note: a note written adds the note and its two
/// cards; a note that was already there adds the warning "Note already
/// exists: <name>".
pub fn record_senator_note(result: &mut ImportResult, name: &str, inserted: bool)
    requires
        inserted ==> old(result).notes_imported < usize::MAX && old(result).cards_imported <= usize::MAX - 2,
    ensures
        inserted ==> final(result).notes_imported == old(result).notes_imported + 1
            && final(result).cards_imported == old(result).cards_imported + 2
            && strings(final(result).warnings@) == strings(old(result).warnings@),
        !inserted ==> final(result).notes_imported == old(result).notes_imported
            && final(result).cards_imported == old(result).cards_imported
            && strings(final(result).warnings@) == strings(old(result).warnings@).push("Note already exists: "@ + name@),
        final(result).decks_imported == old(result).decks_imported,
        final(result).media_imported == old(result).media_imported,
{
    if inserted {
        result.notes_imported = result.notes_imported + 1;
        result.cards_imported = result.cards_imported + 2;
    } else {
        result.warn(crate::text::join_str("Note already exists: ", name));
    }
}

pub open spec fn without_photo(records: Seq<SenatorRecord>) -> nat
    decreases records.len(),
{
    if records.len() == 0 {
        0
    } else {
        without_photo(records.drop_last()) + if records.last().photo@.len() == 0 { 1nat } else { 0nat }
    }
}

/// The warnings after an import: a Senate of other than 100 senators, and
/// how many senators have no photo.
pub open spec fn spec_import_warnings(records: Seq<SenatorRecord>) -> Seq<Seq<char>> {
    (if records.len() != 100 {
        seq!["Expected 100 senators, got "@ + crate::text::decimal(records.len())]
    } else {
        Seq::empty()
    }) + (if without_photo(records) > 0 {
        seq![crate::text::decimal(without_photo(records)) + " senators have no photo (pass senators_standalone.html to merge)"@]
    } else {
        Seq::empty()
    })
}

pub fn import_warnings(records: &Vec<SenatorRecord>) -> (r: Vec<String>)
    ensures
        strings(r@) == spec_import_warnings(records@),
{
    let mut out: Vec<String> = Vec::new();
    if records.len() != 100 {
        let mut m: Vec<char> = Vec::new();
        push_str(&mut m, "Expected 100 senators, got ");
        crate::text::push_decimal(&mut m, records.len());
        out.push(string_of(&m));
    }
    let ghost first = strings(out@);
    let mut n: usize = 0;
    let mut i: usize = 0;
    while i < records.len()
        invariant
            i <= records.len(),
            n <= i,
            n as nat == without_photo(records@.take(i as int)),
            strings(out@) == first,
        decreases records.len() - i,
    {
        assert(records@.take(i + 1).drop_last() =~= records@.take(i as int));
        assert(records@.take(i + 1).last() == records@[i as int]);
        let pv = chars_of(records[i].photo.as_str());
        if pv.len() == 0 {
            n += 1;
        }
        i += 1;
    }
    assert(records@.take(records.len() as int) =~= records@);
    if n > 0 {
        let mut m: Vec<char> = Vec::new();
        crate::text::push_decimal(&mut m, n);
        push_str(&mut m, " senators have no photo (pass senators_standalone.html to merge)");
        let ghost mv = m@;
        out.push(string_of(&m));
        assert(strings(out@) =~= first.push(mv));
    }
    assert(strings(out@) =~= spec_import_warnings(records@));
    out
}

/// Normalizing a party twice gives what normalizing once gives.
pub proof fn law_normalize_party_idempotent(code: Seq<char>)
    ensures
        spec_normalize_party(spec_normalize_party(code)) == spec_normalize_party(code),
{
    reveal_strlit("Republican");
    reveal_strlit("Democrat");
    reveal_strlit("Independent");
    reveal_strlit("R");
    reveal_strlit("D");
    reveal_strlit("I");
    reveal_strlit("Democratic");
    crate::text::lemma_trim_idempotent(code);
    let n = spec_normalize_party(code);
    if n == "Republican"@ || n == "Democrat"@ || n == "Independent"@ {
        assert(crate::text::ws_prefix_len(n) == 0);
        assert(crate::text::ws_suffix_len(n) == 0);
        assert(trim(n) =~= n);
    }
}

} // verus!
