//! The decisions of a live-preview editor around the converter: when an edit
//! re-renders the preview at once or after a pause, and how a rendered
//! fragment is placed into the page template.
use vstd::prelude::*;
use crate::text::{
    append, chars_of, is_ws_char, join, join_exec, nl, split_exec, split_on, string_of, trim,
    trim_exec, trim_start, views,
};

verus! {

/// The characters whose insertion re-renders the preview at once.
pub open spec fn is_markup_char(c: char) -> bool {
    c == '#' || c == '*' || c == '_' || c == '-' || c == '+' || c == '[' || c == ']' || c == '('
        || c == ')' || c == '>' || c == '`'
}

/// Whether a line, read past its leading whitespace, begins like a list item.
pub open spec fn starts_list_marker(line: Seq<char>) -> bool {
    let t = trim_start(line);
    t.len() > 0 && (t[0] == '-' || t[0] == '+' || t[0] == '*')
}

/// Whether inserting `inserted`, which leaves its line as `line`, should
/// re-render the preview at once rather than after a pause.
pub open spec fn wants_immediate_update(line: Seq<char>, inserted: Seq<char>) -> bool {
    starts_list_marker(line) || exists|k: int| 0 <= k < inserted.len() && is_markup_char(inserted[k])
}

pub fn immediate_update(line: &str, inserted: &str) -> (r: bool)
    ensures
        r == wants_immediate_update(line@, inserted@),
{
    let l = chars_of(line);
    let mut lo: usize = 0;
    assert(l@.subrange(0, l@.len() as int) =~= l@);
    while lo < l.len() && is_ws_char(l[lo])
        invariant
            lo <= l.len(),
            trim_start(l@.subrange(lo as int, l@.len() as int)) == trim_start(l@),
        decreases l.len() - lo,
    {
        assert(l@.subrange(lo as int, l@.len() as int).drop_first() =~= l@.subrange(
            lo + 1,
            l@.len() as int,
        ));
        lo = lo + 1;
    }
    if lo < l.len() && (l[lo] == '-' || l[lo] == '+' || l[lo] == '*') {
        assert(trim_start(l@)[0] == l@[lo as int]);
        return true;
    }
    let ins = chars_of(inserted);
    let mut k: usize = 0;
    while k < ins.len()
        invariant
            k <= ins.len(),
            ins@ == inserted@,
            !starts_list_marker(line@),
            forall|m: int| 0 <= m < k ==> !is_markup_char(ins@[m]),
        decreases ins.len() - k,
    {
        let c = ins[k];
        if c == '#' || c == '*' || c == '_' || c == '-' || c == '+' || c == '[' || c == ']' || c
            == '(' || c == ')' || c == '>' || c == '`' {
            assert(is_markup_char(ins@[k as int]));
            return true;
        }
        k = k + 1;
    }
    false
}

/// An edit of the document.
pub enum Edit {
    /// Text was inserted; `immediate` tells whether it asks for an update at once.
    Insert { immediate: bool },
    /// A range was deleted.
    Delete,
    /// The buffer changed in any way, a paste included.
    Change,
}

/// A timer that an edit starts.
#[derive(PartialEq, Eq, Structural, Clone, Copy, Debug)]
pub struct Timer {
    pub delay_ms: u64,
    /// Whether the preview is re-rendered when it fires; it clears the
    /// pending mark either way.
    pub render: bool,
}

/// What the editor does in answer to an edit or a timer.
#[derive(PartialEq, Eq, Structural, Clone, Copy, Debug)]
pub struct Reaction {
    /// Re-render the preview now.
    pub render_now: bool,
    /// Whether an update is pending afterwards.
    pub pending: bool,
    /// The timer to start, if any.
    pub timer: Option<Timer>,
}

pub const PAUSE_MS: u64 = 200;

pub const SETTLE_MS: u64 = 20;

/// The reaction to an edit while an update is `pending` or not: an edit that
/// asks for it renders at once; other insertions and deletions, with nothing
/// pending, mark an update pending and render after a pause; any other change,
/// with nothing pending, renders at once and clears the mark shortly after.
pub open spec fn edit_reaction(pending: bool, edit: Edit) -> Reaction {
    match edit {
        Edit::Insert { immediate: true } => Reaction { render_now: true, pending, timer: None },
        Edit::Insert { immediate: false } | Edit::Delete => if pending {
            Reaction { render_now: false, pending: true, timer: None }
        } else {
            Reaction {
                render_now: false,
                pending: true,
                timer: Some(Timer { delay_ms: PAUSE_MS, render: true }),
            }
        },
        Edit::Change => if pending {
            Reaction { render_now: false, pending: true, timer: None }
        } else {
            Reaction {
                render_now: true,
                pending: true,
                timer: Some(Timer { delay_ms: SETTLE_MS, render: false }),
            }
        },
    }
}

pub fn on_edit(pending: bool, edit: Edit) -> (r: Reaction)
    ensures
        r == edit_reaction(pending, edit),
{
    match edit {
        Edit::Insert { immediate: true } => Reaction { render_now: true, pending, timer: None },
        Edit::Insert { immediate: false } | Edit::Delete => {
            if pending {
                Reaction { render_now: false, pending: true, timer: None }
            } else {
                Reaction {
                    render_now: false,
                    pending: true,
                    timer: Some(Timer { delay_ms: PAUSE_MS, render: true }),
                }
            }
        },
        Edit::Change => {
            if pending {
                Reaction { render_now: false, pending: true, timer: None }
            } else {
                Reaction {
                    render_now: true,
                    pending: true,
                    timer: Some(Timer { delay_ms: SETTLE_MS, render: false }),
                }
            }
        },
    }
}

/// The reaction to a timer that fires: it renders if it was started to, and
/// leaves no update pending.
pub fn on_timer(t: Timer) -> (r: Reaction)
    ensures
        r == (Reaction { render_now: t.render, pending: false, timer: None }),
{
    Reaction { render_now: t.render, pending: false, timer: None }
}

/// `l` without a final carriage return.
pub open spec fn drop_cr(l: Seq<char>) -> Seq<char> {
    if l.len() > 0 && l.last() == '\r' {
        l.drop_last()
    } else {
        l
    }
}

/// The lines of `s` as `str::lines` gives them: split at line feeds, each
/// that a line feed ends without a carriage return before it, and no empty
/// line after a final line feed.
pub open spec fn text_lines(s: Seq<char>) -> Seq<Seq<char>> {
    let p = split_on(s, '\n');
    let ended = p.drop_last().map_values(|l: Seq<char>| drop_cr(l));
    if p.last().len() == 0 {
        ended
    } else {
        ended.push(p.last())
    }
}

/// A fragment line indented by four spaces, unless it is blank.
pub open spec fn indent_line(l: Seq<char>) -> Seq<char> {
    if trim(l).len() == 0 {
        l
    } else {
        "    "@ + l
    }
}

/// The lines of a fragment, indented, with line feeds between them.
pub open spec fn indented(fragment: Seq<char>) -> Seq<char> {
    join(text_lines(fragment).map_values(|l: Seq<char>| indent_line(l)), nl())
}

/// `template` with every `{}` replaced by `body`; read from index `i` on.
pub open spec fn fill(template: Seq<char>, i: int, body: Seq<char>) -> Seq<char>
    decreases template.len() - i,
{
    if i < 0 || i >= template.len() {
        Seq::empty()
    } else if i + 1 < template.len() && template[i] == '{' && template[i + 1] == '}' {
        body + fill(template, i + 2, body)
    } else {
        seq![template[i]] + fill(template, i + 1, body)
    }
}

/// The page: the template with the indented fragment in place of each `{}`.
pub open spec fn page(template: Seq<char>, fragment: Seq<char>) -> Seq<char> {
    fill(template, 0, indented(fragment))
}

fn indent_line_exec(l: &Vec<char>) -> (r: Vec<char>)
    ensures
        r@ == indent_line(l@),
{
    let t = trim_exec(l);
    if t.len() == 0 {
        let c = crate::text::slice(l, 0, l.len());
        assert(c@ =~= l@);
        c
    } else {
        let mut out = chars_of("    ");
        append(&mut out, l);
        out
    }
}

fn indented_exec(fragment: &Vec<char>) -> (r: Vec<char>)
    ensures
        r@ == indented(fragment@),
{
    let parts = split_exec(fragment, '\n');
    proof {
        crate::text::lemma_split_on_len(fragment@, '\n');
    }
    let ghost p = views(parts@);
    let ghost want = text_lines(fragment@).map_values(|l: Seq<char>| indent_line(l));
    let last = parts.len() - 1;
    let n: usize = if parts[last].len() == 0 {
        last
    } else {
        parts.len()
    };
    assert(want.len() == n);
    let mut lines: Vec<Vec<char>> = Vec::new();
    let mut k: usize = 0;
    assert(views(lines@) =~= want.subrange(0, 0));
    while k < n
        invariant
            k <= n <= parts.len(),
            last == parts.len() - 1,
            p == views(parts@),
            p == split_on(fragment@, '\n'),
            want == text_lines(fragment@).map_values(|l: Seq<char>| indent_line(l)),
            want.len() == n,
            views(lines@) == want.subrange(0, k as int),
        decreases n - k,
    {
        let piece = &parts[k];
        let line = if k < last && piece.len() > 0 && piece[piece.len() - 1] == '\r' {
            crate::text::slice(piece, 0, piece.len() - 1)
        } else {
            crate::text::slice(piece, 0, piece.len())
        };
        assert(k < last ==> line@ =~= drop_cr(p[k as int]));
        assert(k == last ==> line@ =~= p[k as int]);
        assert(line@ == text_lines(fragment@)[k as int]);
        let il = indent_line_exec(&line);
        let ghost before = views(lines@);
        lines.push(il);
        assert(views(lines@) =~= before.push(il@));
        k = k + 1;
        assert(views(lines@) =~= want.subrange(0, k as int));
    }
    assert(want.subrange(0, n as int) =~= want);
    let sep = chars_of("\n");
    proof {
        reveal_strlit("\n");
        assert(sep@ =~= nl());
    }
    join_exec(&lines, &sep)
}

/// Places a rendered fragment into a page template: each non-blank line of
/// the fragment indented by four spaces, in place of every `{}`.
pub fn page_html(template: &str, fragment: &str) -> (r: String)
    ensures
        r@ == page(template@, fragment@),
{
    let t = chars_of(template);
    let f = chars_of(fragment);
    let body = indented_exec(&f);
    let mut out: Vec<char> = Vec::new();
    let mut i: usize = 0;
    while i < t.len()
        invariant
            i <= t.len(),
            out@ + fill(t@, i as int, body@) == fill(t@, 0, body@),
        decreases t.len() - i,
    {
        let ghost prev = out@;
        if t.len() - i > 1 && t[i] == '{' && t[i + 1] == '}' {
            append(&mut out, &body);
            assert(out@ + fill(t@, i + 2, body@) =~= prev + fill(t@, i as int, body@));
            i = i + 2;
        } else {
            out.push(t[i]);
            assert(out@ + fill(t@, i + 1, body@) =~= prev + fill(t@, i as int, body@));
            i = i + 1;
        }
    }
    assert(out@ =~= out@ + fill(t@, i as int, body@));
    string_of(&out)
}

} // verus!
