//! Inline rendering: the ordered substitution rules applied to leaf text.
use vstd::prelude::*;
use crate::text::{append, append_str, chars_of, slice, starts_at, starts_at_exec};

verus! {

/// The first index at or after `j` where `lit` begins, provided that no line
/// break comes before it: a captured span never crosses a line.
pub open spec fn find_lit(s: Seq<char>, j: int, lit: Seq<char>) -> Option<int>
    decreases s.len() - j,
{
    if j < 0 || j >= s.len() {
        None
    } else if starts_at(s, j, lit) {
        Some(j)
    } else if s[j] == '\n' {
        None
    } else {
        find_lit(s, j + 1, lit)
    }
}

pub open spec fn as_int(o: Option<usize>) -> Option<int> {
    match o {
        Some(k) => Some(k as int),
        None => None,
    }
}

pub fn find_lit_exec(s: &Vec<char>, j: usize, lit: &Vec<char>) -> (r: Option<usize>)
    ensures
        r matches Some(k) ==> j <= k && k + lit@.len() <= s@.len(),
        as_int(r) == find_lit(s@, j as int, lit@),
{
    let mut k: usize = j;
    while k < s.len()
        invariant
            j <= k,
            find_lit(s@, j as int, lit@) == find_lit(s@, k as int, lit@),
        decreases s.len() - k,
    {
        if starts_at_exec(s, k, lit) {
            return Some(k);
        }
        if s[k] == '\n' {
            return None;
        }
        k = k + 1;
    }
    None
}

/// A span `open` (one or more characters) `close`, with the first `close`
/// ending it; the index where the close begins.
pub open spec fn pair_match(s: Seq<char>, p: int, open: Seq<char>, close: Seq<char>) -> Option<int> {
    let q = p + open.len();
    if starts_at(s, p, open) && q < s.len() && s[q] != '\n' {
        find_lit(s, q + 1, close)
    } else {
        None
    }
}

/// Every span `open` text `close`, left to right and without overlap,
/// replaced by `pre` text `post`; `s` is read from index `i` on.
pub open spec fn replace_pair(
    s: Seq<char>,
    i: int,
    open: Seq<char>,
    close: Seq<char>,
    pre: Seq<char>,
    post: Seq<char>,
) -> Seq<char>
    decreases s.len() - i,
{
    if i < 0 || i >= s.len() {
        Seq::empty()
    } else {
        match pair_match(s, i, open, close) {
            Some(c) if i < c + close.len() <= s.len() => pre + s.subrange(i + open.len(), c) + post
                + replace_pair(s, c + close.len(), open, close, pre, post),
            _ => seq![s[i]] + replace_pair(s, i + 1, open, close, pre, post),
        }
    }
}

fn replace_pair_exec(s: &Vec<char>, open: &str, close: &str, pre: &str, post: &str) -> (r: Vec<char>)
    requires
        open@.len() > 0,
    ensures
        r@ == replace_pair(s@, 0, open@, close@, pre@, post@),
{
    let open_v = chars_of(open);
    let close_v = chars_of(close);
    let mut out: Vec<char> = Vec::new();
    let mut i: usize = 0;
    while i < s.len()
        invariant
            i <= s.len(),
            open_v@ == open@,
            close_v@ == close@,
            out@ + replace_pair(s@, i as int, open@, close@, pre@, post@) == replace_pair(
                s@,
                0,
                open@,
                close@,
                pre@,
                post@,
            ),
        decreases s.len() - i,
    {
        let ghost prev = out@;
        let mut q: usize = i;
        let mut found: Option<usize> = None;
        if starts_at_exec(s, i, &open_v) {
            q = i + open_v.len();
            if q < s.len() && s[q] != '\n' {
                found = find_lit_exec(s, q + 1, &close_v);
            }
        }
        assert(as_int(found) == pair_match(s@, i as int, open@, close@));
        match found {
            Some(c) => {
                let end = c + close_v.len();
                append_str(&mut out, pre);
                let mid = slice(s, q, c);
                append(&mut out, &mid);
                append_str(&mut out, post);
                assert(out@ + replace_pair(s@, end as int, open@, close@, pre@, post@) =~= prev
                    + replace_pair(s@, i as int, open@, close@, pre@, post@));
                i = end;
            },
            None => {
                out.push(s[i]);
                assert(out@ + replace_pair(s@, i + 1, open@, close@, pre@, post@) =~= prev
                    + replace_pair(s@, i as int, open@, close@, pre@, post@));
                i = i + 1;
            },
        }
    }
    assert(out@ =~= out@ + replace_pair(s@, i as int, open@, close@, pre@, post@));
    out
}


/// A span `open` alt `](` url `)`, where alt ends at the first `](` and url
/// at the first `)` after it; the indices where `](` and `)` begin.
pub open spec fn link_match(s: Seq<char>, p: int, open: Seq<char>) -> Option<(int, int)> {
    if starts_at(s, p, open) {
        match find_lit(s, p + open.len(), "]("@) {
            Some(a) => match find_lit(s, a + 2, ")"@) {
                Some(u) => Some((a, u)),
                None => None,
            },
            None => None,
        }
    } else {
        None
    }
}

/// The markup for an image (`img`) or a link with the given alt text and url.
pub open spec fn link_markup(img: bool, alt: Seq<char>, url: Seq<char>) -> Seq<char> {
    if img {
        "<img src=\""@ + url + "\"alt=\""@ + alt + "\">"@
    } else {
        "<a href=\""@ + url + "\">"@ + alt + "</a>"@
    }
}

/// Every image (`img`, opened by `![`) or link (opened by `[`), left to right
/// and without overlap, replaced by its markup; `s` is read from index `i` on.
pub open spec fn replace_link(s: Seq<char>, i: int, img: bool) -> Seq<char>
    decreases s.len() - i,
{
    let open = if img { "!["@ } else { "["@ };
    if i < 0 || i >= s.len() {
        Seq::empty()
    } else {
        match link_match(s, i, open) {
            Some((a, u)) if i < u + 1 <= s.len() => link_markup(
                img,
                s.subrange(i + open.len(), a),
                s.subrange(a + 2, u),
            ) + replace_link(s, u + 1, img),
            _ => seq![s[i]] + replace_link(s, i + 1, img),
        }
    }
}

fn link_markup_exec(img: bool, alt: &Vec<char>, url: &Vec<char>) -> (r: Vec<char>)
    ensures
        r@ == link_markup(img, alt@, url@),
{
    let mut out: Vec<char> = Vec::new();
    if img {
        append_str(&mut out, "<img src=\"");
        append(&mut out, url);
        append_str(&mut out, "\"alt=\"");
        append(&mut out, alt);
        append_str(&mut out, "\">");
    } else {
        append_str(&mut out, "<a href=\"");
        append(&mut out, url);
        append_str(&mut out, "\">");
        append(&mut out, alt);
        append_str(&mut out, "</a>");
    }
    out
}

fn replace_link_exec(s: &Vec<char>, img: bool) -> (r: Vec<char>)
    ensures
        r@ == replace_link(s@, 0, img),
{
    let open_v = if img { chars_of("![") } else { chars_of("[") };
    let mid_v = chars_of("](");
    let close_v = chars_of(")");
    proof {
        reveal_strlit("![");
        reveal_strlit("[");
        reveal_strlit("](");
        reveal_strlit(")");
    }
    let mut out: Vec<char> = Vec::new();
    let mut i: usize = 0;
    while i < s.len()
        invariant
            i <= s.len(),
            open_v@ == (if img { "!["@ } else { "["@ }),
            open_v@.len() > 0,
            mid_v@ == "]("@,
            mid_v@.len() == 2,
            close_v@ == ")"@,
            close_v@.len() == 1,
            out@ + replace_link(s@, i as int, img) == replace_link(s@, 0, img),
        decreases s.len() - i,
    {
        let ghost prev = out@;
        let mut found: Option<(usize, usize)> = None;
        let mut q: usize = i;
        if starts_at_exec(s, i, &open_v) {
            q = i + open_v.len();
            match find_lit_exec(s, q, &mid_v) {
                Some(a) => {
                    match find_lit_exec(s, a + 2, &close_v) {
                        Some(u) => {
                            found = Some((a, u));
                        },
                        None => {},
                    }
                },
                None => {},
            }
        }
        match found {
            Some((a, u)) => {
                assert(link_match(s@, i as int, open_v@) == Some((a as int, u as int)));
                let alt = slice(s, q, a);
                let url = slice(s, a + 2, u);
                let m = link_markup_exec(img, &alt, &url);
                append(&mut out, &m);
                assert(out@ + replace_link(s@, u + 1, img) =~= prev + replace_link(
                    s@,
                    i as int,
                    img,
                ));
                i = u + 1;
            },
            None => {
                assert(link_match(s@, i as int, open_v@) is None);
                out.push(s[i]);
                assert(out@ + replace_link(s@, i + 1, img) =~= prev + replace_link(
                    s@,
                    i as int,
                    img,
                ));
                i = i + 1;
            },
        }
    }
    assert(out@ =~= out@ + replace_link(s@, i as int, img));
    out
}


/// A decimal digit: a character of the Unicode (15.0) general category `Nd`,
/// which is what the `\d` class of the grammar reads in the size of an image.
pub open spec fn is_digit(c: char) -> bool {
    let u = c as u32;
    (0x30 <= u && u <= 0x39)
        || (0x660 <= u && u <= 0x669)
        || (0x6F0 <= u && u <= 0x6F9)
        || (0x7C0 <= u && u <= 0x7C9)
        || (0x966 <= u && u <= 0x96F)
        || (0x9E6 <= u && u <= 0x9EF)
        || (0xA66 <= u && u <= 0xA6F)
        || (0xAE6 <= u && u <= 0xAEF)
        || (0xB66 <= u && u <= 0xB6F)
        || (0xBE6 <= u && u <= 0xBEF)
        || (0xC66 <= u && u <= 0xC6F)
        || (0xCE6 <= u && u <= 0xCEF)
        || (0xD66 <= u && u <= 0xD6F)
        || (0xDE6 <= u && u <= 0xDEF)
        || (0xE50 <= u && u <= 0xE59)
        || (0xED0 <= u && u <= 0xED9)
        || (0xF20 <= u && u <= 0xF29)
        || (0x1040 <= u && u <= 0x1049)
        || (0x1090 <= u && u <= 0x1099)
        || (0x17E0 <= u && u <= 0x17E9)
        || (0x1810 <= u && u <= 0x1819)
        || (0x1946 <= u && u <= 0x194F)
        || (0x19D0 <= u && u <= 0x19D9)
        || (0x1A80 <= u && u <= 0x1A89)
        || (0x1A90 <= u && u <= 0x1A99)
        || (0x1B50 <= u && u <= 0x1B59)
        || (0x1BB0 <= u && u <= 0x1BB9)
        || (0x1C40 <= u && u <= 0x1C49)
        || (0x1C50 <= u && u <= 0x1C59)
        || (0xA620 <= u && u <= 0xA629)
        || (0xA8D0 <= u && u <= 0xA8D9)
        || (0xA900 <= u && u <= 0xA909)
        || (0xA9D0 <= u && u <= 0xA9D9)
        || (0xA9F0 <= u && u <= 0xA9F9)
        || (0xAA50 <= u && u <= 0xAA59)
        || (0xABF0 <= u && u <= 0xABF9)
        || (0xFF10 <= u && u <= 0xFF19)
        || (0x104A0 <= u && u <= 0x104A9)
        || (0x10D30 <= u && u <= 0x10D39)
        || (0x11066 <= u && u <= 0x1106F)
        || (0x110F0 <= u && u <= 0x110F9)
        || (0x11136 <= u && u <= 0x1113F)
        || (0x111D0 <= u && u <= 0x111D9)
        || (0x112F0 <= u && u <= 0x112F9)
        || (0x11450 <= u && u <= 0x11459)
        || (0x114D0 <= u && u <= 0x114D9)
        || (0x11650 <= u && u <= 0x11659)
        || (0x116C0 <= u && u <= 0x116C9)
        || (0x11730 <= u && u <= 0x11739)
        || (0x118E0 <= u && u <= 0x118E9)
        || (0x11950 <= u && u <= 0x11959)
        || (0x11C50 <= u && u <= 0x11C59)
        || (0x11D50 <= u && u <= 0x11D59)
        || (0x11DA0 <= u && u <= 0x11DA9)
        || (0x11F50 <= u && u <= 0x11F59)
        || (0x16A60 <= u && u <= 0x16A69)
        || (0x16AC0 <= u && u <= 0x16AC9)
        || (0x16B50 <= u && u <= 0x16B59)
        || (0x1D7CE <= u && u <= 0x1D7FF)
        || (0x1E140 <= u && u <= 0x1E149)
        || (0x1E2F0 <= u && u <= 0x1E2F9)
        || (0x1E4F0 <= u && u <= 0x1E4F9)
        || (0x1E950 <= u && u <= 0x1E959)
        || (0x1FBF0 <= u && u <= 0x1FBF9)
}

fn is_digit_char(c: char) -> (r: bool)
    ensures
        r == is_digit(c),
{
    let u = c as u32;
    (0x30 <= u && u <= 0x39)
        || (0x660 <= u && u <= 0x669)
        || (0x6F0 <= u && u <= 0x6F9)
        || (0x7C0 <= u && u <= 0x7C9)
        || (0x966 <= u && u <= 0x96F)
        || (0x9E6 <= u && u <= 0x9EF)
        || (0xA66 <= u && u <= 0xA6F)
        || (0xAE6 <= u && u <= 0xAEF)
        || (0xB66 <= u && u <= 0xB6F)
        || (0xBE6 <= u && u <= 0xBEF)
        || (0xC66 <= u && u <= 0xC6F)
        || (0xCE6 <= u && u <= 0xCEF)
        || (0xD66 <= u && u <= 0xD6F)
        || (0xDE6 <= u && u <= 0xDEF)
        || (0xE50 <= u && u <= 0xE59)
        || (0xED0 <= u && u <= 0xED9)
        || (0xF20 <= u && u <= 0xF29)
        || (0x1040 <= u && u <= 0x1049)
        || (0x1090 <= u && u <= 0x1099)
        || (0x17E0 <= u && u <= 0x17E9)
        || (0x1810 <= u && u <= 0x1819)
        || (0x1946 <= u && u <= 0x194F)
        || (0x19D0 <= u && u <= 0x19D9)
        || (0x1A80 <= u && u <= 0x1A89)
        || (0x1A90 <= u && u <= 0x1A99)
        || (0x1B50 <= u && u <= 0x1B59)
        || (0x1BB0 <= u && u <= 0x1BB9)
        || (0x1C40 <= u && u <= 0x1C49)
        || (0x1C50 <= u && u <= 0x1C59)
        || (0xA620 <= u && u <= 0xA629)
        || (0xA8D0 <= u && u <= 0xA8D9)
        || (0xA900 <= u && u <= 0xA909)
        || (0xA9D0 <= u && u <= 0xA9D9)
        || (0xA9F0 <= u && u <= 0xA9F9)
        || (0xAA50 <= u && u <= 0xAA59)
        || (0xABF0 <= u && u <= 0xABF9)
        || (0xFF10 <= u && u <= 0xFF19)
        || (0x104A0 <= u && u <= 0x104A9)
        || (0x10D30 <= u && u <= 0x10D39)
        || (0x11066 <= u && u <= 0x1106F)
        || (0x110F0 <= u && u <= 0x110F9)
        || (0x11136 <= u && u <= 0x1113F)
        || (0x111D0 <= u && u <= 0x111D9)
        || (0x112F0 <= u && u <= 0x112F9)
        || (0x11450 <= u && u <= 0x11459)
        || (0x114D0 <= u && u <= 0x114D9)
        || (0x11650 <= u && u <= 0x11659)
        || (0x116C0 <= u && u <= 0x116C9)
        || (0x11730 <= u && u <= 0x11739)
        || (0x118E0 <= u && u <= 0x118E9)
        || (0x11950 <= u && u <= 0x11959)
        || (0x11C50 <= u && u <= 0x11C59)
        || (0x11D50 <= u && u <= 0x11D59)
        || (0x11DA0 <= u && u <= 0x11DA9)
        || (0x11F50 <= u && u <= 0x11F59)
        || (0x16A60 <= u && u <= 0x16A69)
        || (0x16AC0 <= u && u <= 0x16AC9)
        || (0x16B50 <= u && u <= 0x16B59)
        || (0x1D7CE <= u && u <= 0x1D7FF)
        || (0x1E140 <= u && u <= 0x1E149)
        || (0x1E2F0 <= u && u <= 0x1E2F9)
        || (0x1E4F0 <= u && u <= 0x1E4F9)
        || (0x1E950 <= u && u <= 0x1E959)
        || (0x1FBF0 <= u && u <= 0x1FBF9)
}

/// The index where the run of digits that starts at `j` ends.
pub open spec fn digits_end(t: Seq<char>, j: int) -> int
    decreases t.len() - j,
{
    if 0 <= j < t.len() && is_digit(t[j]) {
        digits_end(t, j + 1)
    } else {
        j
    }
}

/// The digits that follow the first `key` in `t` that some digit follows;
/// `t` is searched from index `k` on.
pub open spec fn attr_value(t: Seq<char>, k: int, key: Seq<char>) -> Option<Seq<char>>
    decreases t.len() - k,
{
    if k < 0 || k >= t.len() {
        None
    } else if starts_at(t, k, key) && k + key.len() < t.len() && is_digit(t[k + key.len()]) {
        Some(t.subrange(k + key.len(), digits_end(t, k + key.len())))
    } else {
        attr_value(t, k + 1, key)
    }
}

fn attr_value_exec(t: &Vec<char>, key: &str) -> (r: Option<Vec<char>>)
    ensures
        match r {
            Some(v) => attr_value(t@, 0, key@) == Some(v@),
            None => attr_value(t@, 0, key@) is None,
        },
{
    let key_v = chars_of(key);
    let mut k: usize = 0;
    while k < t.len()
        invariant
            key_v@ == key@,
            attr_value(t@, 0, key@) == attr_value(t@, k as int, key@),
        decreases t.len() - k,
    {
        if starts_at_exec(t, k, &key_v) {
            let v = k + key_v.len();
            if v < t.len() && is_digit_char(t[v]) {
                let mut e: usize = v;
                while e < t.len() && is_digit_char(t[e])
                    invariant
                        v <= e <= t.len(),
                        digits_end(t@, v as int) == digits_end(t@, e as int),
                    decreases t.len() - e,
                {
                    e = e + 1;
                }
                return Some(slice(t, v, e));
            }
        }
        k = k + 1;
    }
    None
}

/// A span `![` alt `](` url `){` attrs `}`, each part ending at the first
/// delimiter that follows; the indices where `](`, `){` and `}` begin.
pub open spec fn sized_match(s: Seq<char>, p: int) -> Option<(int, int, int)> {
    if starts_at(s, p, "!["@) {
        match find_lit(s, p + 2, "]("@) {
            Some(a) => match find_lit(s, a + 2, "){"@) {
                Some(u) => match find_lit(s, u + 2, "}"@) {
                    Some(e) => Some((a, u, e)),
                    None => None,
                },
                None => None,
            },
            None => None,
        }
    } else {
        None
    }
}

pub open spec fn opt_attr(name: Seq<char>, v: Option<Seq<char>>) -> Seq<char> {
    match v {
        Some(d) => " "@ + name + "=\""@ + d + "\""@,
        None => Seq::empty(),
    }
}

/// The markup for an image with a size: `width` and `height` are each taken
/// from `attrs` when it gives them.
pub open spec fn sized_markup(alt: Seq<char>, url: Seq<char>, attrs: Seq<char>) -> Seq<char> {
    "<img src=\""@ + url + "\" alt=\""@ + alt + "\""@ + opt_attr(
        "width"@,
        attr_value(attrs, 0, "width="@),
    ) + opt_attr("height"@, attr_value(attrs, 0, "height="@)) + ">"@
}

/// Every image with a size, left to right and without overlap, replaced by
/// its markup; `s` is read from index `i` on.
pub open spec fn replace_sized(s: Seq<char>, i: int) -> Seq<char>
    decreases s.len() - i,
{
    if i < 0 || i >= s.len() {
        Seq::empty()
    } else {
        match sized_match(s, i) {
            Some((a, u, e)) if i < e + 1 <= s.len() => sized_markup(
                s.subrange(i + 2, a),
                s.subrange(a + 2, u),
                s.subrange(u + 2, e),
            ) + replace_sized(s, e + 1),
            _ => seq![s[i]] + replace_sized(s, i + 1),
        }
    }
}

fn opt_attr_exec(out: &mut Vec<char>, name: &str, v: &Option<Vec<char>>)
    ensures
        final(out)@ == old(out)@ + opt_attr(
            name@,
            match v {
                Some(d) => Some(d@),
                None => None,
            },
        ),
{
    match v {
        Some(d) => {
            append_str(out, " ");
            append_str(out, name);
            append_str(out, "=\"");
            append(out, d);
            append_str(out, "\"");
        },
        None => {
            assert(old(out)@ =~= old(out)@ + Seq::<char>::empty());
        },
    }
}

fn sized_markup_exec(alt: &Vec<char>, url: &Vec<char>, attrs: &Vec<char>) -> (r: Vec<char>)
    ensures
        r@ == sized_markup(alt@, url@, attrs@),
{
    let mut out: Vec<char> = Vec::new();
    append_str(&mut out, "<img src=\"");
    append(&mut out, url);
    append_str(&mut out, "\" alt=\"");
    append(&mut out, alt);
    append_str(&mut out, "\"");
    let w = attr_value_exec(attrs, "width=");
    opt_attr_exec(&mut out, "width", &w);
    let h = attr_value_exec(attrs, "height=");
    opt_attr_exec(&mut out, "height", &h);
    append_str(&mut out, ">");
    out
}

fn replace_sized_exec(s: &Vec<char>) -> (r: Vec<char>)
    ensures
        r@ == replace_sized(s@, 0),
{
    let open_v = chars_of("![");
    let mid_v = chars_of("](");
    let attr_v = chars_of("){");
    let close_v = chars_of("}");
    proof {
        reveal_strlit("![");
        reveal_strlit("](");
        reveal_strlit("){");
        reveal_strlit("}");
    }
    let mut out: Vec<char> = Vec::new();
    let mut i: usize = 0;
    while i < s.len()
        invariant
            i <= s.len(),
            open_v@ == "!["@,
            open_v@.len() == 2,
            mid_v@ == "]("@,
            mid_v@.len() == 2,
            attr_v@ == "){"@,
            attr_v@.len() == 2,
            close_v@ == "}"@,
            close_v@.len() == 1,
            out@ + replace_sized(s@, i as int) == replace_sized(s@, 0),
        decreases s.len() - i,
    {
        let ghost prev = out@;
        let mut found: Option<(usize, usize, usize)> = None;
        if starts_at_exec(s, i, &open_v) {
            match find_lit_exec(s, i + 2, &mid_v) {
                Some(a) => match find_lit_exec(s, a + 2, &attr_v) {
                    Some(u) => match find_lit_exec(s, u + 2, &close_v) {
                        Some(e) => {
                            found = Some((a, u, e));
                        },
                        None => {},
                    },
                    None => {},
                },
                None => {},
            }
        }
        match found {
            Some((a, u, e)) => {
                assert(sized_match(s@, i as int) == Some((a as int, u as int, e as int)));
                let alt = slice(s, i + 2, a);
                let url = slice(s, a + 2, u);
                let attrs = slice(s, u + 2, e);
                let m = sized_markup_exec(&alt, &url, &attrs);
                append(&mut out, &m);
                assert(out@ + replace_sized(s@, e + 1) =~= prev + replace_sized(s@, i as int));
                i = e + 1;
            },
            None => {
                assert(sized_match(s@, i as int) is None);
                out.push(s[i]);
                assert(out@ + replace_sized(s@, i + 1) =~= prev + replace_sized(s@, i as int));
                i = i + 1;
            },
        }
    }
    assert(out@ =~= out@ + replace_sized(s@, i as int));
    out
}

/// Every backslash that ends a line replaced by a `<br>` and a line break;
/// `s` is read from index `i` on.
pub open spec fn replace_breaks(s: Seq<char>, i: int) -> Seq<char>
    decreases s.len() - i,
{
    if i < 0 || i >= s.len() {
        Seq::empty()
    } else if s[i] == '\\' && i + 2 < s.len() && s[i + 1] == '\r' && s[i + 2] == '\n' {
        "<br>\n"@ + replace_breaks(s, i + 3)
    } else if s[i] == '\\' && i + 1 < s.len() && (s[i + 1] == '\n' || s[i + 1] == '\r') {
        "<br>\n"@ + replace_breaks(s, i + 2)
    } else {
        seq![s[i]] + replace_breaks(s, i + 1)
    }
}

fn replace_breaks_exec(s: &Vec<char>) -> (r: Vec<char>)
    ensures
        r@ == replace_breaks(s@, 0),
{
    let mut out: Vec<char> = Vec::new();
    let mut i: usize = 0;
    while i < s.len()
        invariant
            i <= s.len(),
            out@ + replace_breaks(s@, i as int) == replace_breaks(s@, 0),
        decreases s.len() - i,
    {
        let ghost prev = out@;
        if s[i] == '\\' && s.len() - i > 2 && s[i + 1] == '\r' && s[i + 2] == '\n' {
            append_str(&mut out, "<br>\n");
            assert(out@ + replace_breaks(s@, i + 3) =~= prev + replace_breaks(s@, i as int));
            i = i + 3;
        } else if s[i] == '\\' && i + 1 < s.len() && (s[i + 1] == '\n' || s[i + 1] == '\r') {
            append_str(&mut out, "<br>\n");
            assert(out@ + replace_breaks(s@, i + 2) =~= prev + replace_breaks(s@, i as int));
            i = i + 2;
        } else {
            out.push(s[i]);
            assert(out@ + replace_breaks(s@, i + 1) =~= prev + replace_breaks(s@, i as int));
            i = i + 1;
        }
    }
    assert(out@ =~= out@ + replace_breaks(s@, i as int));
    out
}

/// Every `--`, left to right and without overlap, replaced by `-`; `s` is
/// read from index `i` on.
pub open spec fn collapse_dashes(s: Seq<char>, i: int) -> Seq<char>
    decreases s.len() - i,
{
    if i < 0 || i >= s.len() {
        Seq::empty()
    } else if i + 1 < s.len() && s[i] == '-' && s[i + 1] == '-' {
        seq!['-'] + collapse_dashes(s, i + 2)
    } else {
        seq![s[i]] + collapse_dashes(s, i + 1)
    }
}

fn collapse_dashes_exec(s: &Vec<char>) -> (r: Vec<char>)
    ensures
        r@ == collapse_dashes(s@, 0),
{
    let mut out: Vec<char> = Vec::new();
    let mut i: usize = 0;
    while i < s.len()
        invariant
            i <= s.len(),
            out@ + collapse_dashes(s@, i as int) == collapse_dashes(s@, 0),
        decreases s.len() - i,
    {
        let ghost prev = out@;
        if i + 1 < s.len() && s[i] == '-' && s[i + 1] == '-' {
            out.push('-');
            assert(out@ + collapse_dashes(s@, i + 2) =~= prev + collapse_dashes(s@, i as int));
            i = i + 2;
        } else {
            out.push(s[i]);
            assert(out@ + collapse_dashes(s@, i + 1) =~= prev + collapse_dashes(s@, i as int));
            i = i + 1;
        }
    }
    assert(out@ =~= out@ + collapse_dashes(s@, i as int));
    out
}

/// The inline rendering of a leaf text span: the substitution rules in their
/// fixed order, each applied to the result of the one before.
pub open spec fn inline_html(t: Seq<char>) -> Seq<char> {
    let t1 = collapse_dashes(t, 0);
    let t2 = replace_sized(t1, 0);
    let t3 = replace_breaks(t2, 0);
    let t4 = replace_pair(t3, 0, "**"@, "**"@, "<strong>"@, "</strong>"@);
    let t5 = replace_pair(t4, 0, "*"@, "*"@, "<em>"@, "</em>"@);
    let t6 = replace_pair(t5, 0, "~~"@, "~~"@, "<s>"@, "</s>"@);
    let t7 = replace_link(t6, 0, true);
    let t8 = replace_link(t7, 0, false);
    replace_pair(t8, 0, "`"@, "`"@, "<code>"@, "</code>"@)
}

pub fn inline_parse(t: &Vec<char>) -> (r: Vec<char>)
    ensures
        r@ == inline_html(t@),
{
    proof {
        reveal_strlit("**");
        reveal_strlit("*");
        reveal_strlit("~~");
        reveal_strlit("`");
    }
    let t1 = collapse_dashes_exec(t);
    let t2 = replace_sized_exec(&t1);
    let t3 = replace_breaks_exec(&t2);
    let t4 = replace_pair_exec(&t3, "**", "**", "<strong>", "</strong>");
    let t5 = replace_pair_exec(&t4, "*", "*", "<em>", "</em>");
    let t6 = replace_pair_exec(&t5, "~~", "~~", "<s>", "</s>");
    let t7 = replace_link_exec(&t6, true);
    let t8 = replace_link_exec(&t7, false);
    replace_pair_exec(&t8, "`", "`", "<code>", "</code>")
}

} // verus!
