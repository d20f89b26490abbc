//! The block renderer: each block to HTML, with tables probed out of
//! paragraphs and lists nested by their indent widths.
use vstd::prelude::*;
use crate::inline::{inline_html, inline_parse};
use crate::segment::{Block, BlockModel, block_wf, items_view};
use crate::text::{
    append, append_str, chars_of, contains_char, join, join_exec, nl, slice, split_exec, split_on,
    trim, trim_exec, views,
};

verus! {

/// Appends one line to a sequence of lines.
fn push_line(lines: &mut Vec<Vec<char>>, l: Vec<char>)
    ensures
        views(final(lines)@) == views(old(lines)@).push(l@),
{
    lines.push(l);
    assert(views(lines@) =~= views(old(lines)@).push(l@));
}

/// Appends a line holding the literal `lit`.
fn push_lit(lines: &mut Vec<Vec<char>>, lit: &str)
    ensures
        views(final(lines)@) == views(old(lines)@).push(lit@),
{
    push_line(lines, chars_of(lit));
}

/// `xs` without its leading empty pieces.
pub open spec fn strip_front(xs: Seq<Seq<char>>) -> Seq<Seq<char>>
    decreases xs.len(),
{
    if xs.len() > 0 && xs[0].len() == 0 {
        strip_front(xs.drop_first())
    } else {
        xs
    }
}

/// `xs` without its trailing empty pieces.
pub open spec fn strip_back(xs: Seq<Seq<char>>) -> Seq<Seq<char>>
    decreases xs.len(),
{
    if xs.len() > 0 && xs.last().len() == 0 {
        strip_back(xs.drop_last())
    } else {
        xs
    }
}

pub open spec fn trimmed(xs: Seq<Seq<char>>) -> Seq<Seq<char>> {
    xs.map_values(|c: Seq<char>| trim(c))
}

/// The cells of a table row: the pieces between `|`, trimmed, less the empty
/// ones at either end. A line without `|` has none.
pub open spec fn row_cells(line: Seq<char>) -> Seq<Seq<char>> {
    if line.contains('|') {
        strip_back(strip_front(trimmed(split_on(line, '|'))))
    } else {
        Seq::empty()
    }
}

/// An optional `:`, three or more `-`, an optional `:`.
pub open spec fn is_sep_cell(c: Seq<char>) -> bool {
    sep_hi(c) - sep_lo(c) >= 3 && forall|k: int| sep_lo(c) <= k < sep_hi(c) ==> c[k] == '-'
}

/// Where the dashes of a separator cell begin: after a leading `:`.
pub open spec fn sep_lo(c: Seq<char>) -> int {
    if c.len() > 0 && c[0] == ':' { 1 } else { 0 }
}

/// Where the dashes of a separator cell end: before a trailing `:`.
pub open spec fn sep_hi(c: Seq<char>) -> int {
    if c.len() > sep_lo(c) && c.last() == ':' { c.len() - 1 } else { c.len() as int }
}

pub open spec fn is_header_row(line: Seq<char>) -> bool {
    let cs = row_cells(line);
    cs.len() > 0 && forall|k: int| 0 <= k < cs.len() ==> cs[k].len() > 0
}

pub open spec fn is_sep_row(line: Seq<char>) -> bool {
    let cs = row_cells(line);
    cs.len() > 0 && forall|k: int| 0 <= k < cs.len() ==> is_sep_cell(cs[k])
}

/// Whether the lines of a paragraph have the shape of a table: a header row,
/// a separator row with as many cells, and body rows with as many cells.
pub open spec fn table_ok(ls: Seq<Seq<char>>) -> bool {
    &&& ls.len() >= 2
    &&& is_header_row(ls[0])
    &&& is_sep_row(ls[1])
    &&& row_cells(ls[0]).len() == row_cells(ls[1]).len()
    &&& forall|k: int|
        2 <= k < ls.len() ==> ls[k].contains('|') && row_cells(ls[k]).len() == row_cells(
            ls[0],
        ).len()
}

/// One line per cell, each cell rendered inline between `open` and `close`.
pub open spec fn cell_lines(cells: Seq<Seq<char>>, open: Seq<char>, close: Seq<char>) -> Seq<
    Seq<char>,
> {
    cells.map_values(|c: Seq<char>| open + inline_html(c) + close)
}

pub open spec fn row_lines(line: Seq<char>) -> Seq<Seq<char>> {
    seq!["    <tr>"@] + cell_lines(row_cells(line), "      <td>"@, "</td>"@) + seq!["    </tr>"@]
}

pub open spec fn body_lines(rows: Seq<Seq<char>>) -> Seq<Seq<char>>
    decreases rows.len(),
{
    if rows.len() == 0 {
        Seq::empty()
    } else {
        body_lines(rows.drop_last()) + row_lines(rows.last())
    }
}

/// The lines of the table that the lines `ls` of a paragraph make.
pub open spec fn table_lines(ls: Seq<Seq<char>>) -> Seq<Seq<char>> {
    seq!["<table>"@, "  <thead>"@, "    <tr>"@] + cell_lines(row_cells(ls[0]), "      <th>"@, "</th>"@)
        + seq!["    </tr>"@, "  </thead>"@] + (if ls.len() > 2 {
        seq!["  <tbody>"@] + body_lines(ls.subrange(2, ls.len() as int)) + seq!["  </tbody>"@]
    } else {
        Seq::empty()
    }) + seq!["</table>"@]
}

/// A paragraph: a table where its lines have the shape of one, else `<p>`.
pub open spec fn paragraph_html(t: Seq<char>) -> Seq<char> {
    let ls = split_on(t, '\n');
    if table_ok(ls) {
        join(table_lines(ls), nl())
    } else {
        "<p>"@ + inline_html(t) + "</p>"@
    }
}

/// A paragraph whose first two lines split into different numbers of cells
/// is no table: it renders as `<p>` around its inline rendering.
pub proof fn mismatched_rows_are_a_paragraph(t: Seq<char>)
    requires
        split_on(t, '\n').len() >= 2,
        row_cells(split_on(t, '\n')[0]).len() != row_cells(split_on(t, '\n')[1]).len(),
    ensures
        paragraph_html(t) == "<p>"@ + inline_html(t) + "</p>"@,
{
}

pub fn parse_table_row(line: &Vec<char>) -> (r: Vec<Vec<char>>)
    ensures
        views(r@) == row_cells(line@),
{
    if !contains_char(line, '|') {
        let r: Vec<Vec<char>> = Vec::new();
        assert(views(r@) =~= Seq::<Seq<char>>::empty());
        return r;
    }
    let parts = split_exec(line, '|');
    let ghost all = trimmed(views(parts@));
    let mut cells: Vec<Vec<char>> = Vec::new();
    let mut k: usize = 0;
    while k < parts.len()
        invariant
            k <= parts.len(),
            all == trimmed(views(parts@)),
            views(cells@) == all.subrange(0, k as int),
        decreases parts.len() - k,
    {
        let c = trim_exec(&parts[k]);
        push_line(&mut cells, c);
        k = k + 1;
        assert(views(cells@) =~= all.subrange(0, k as int));
    }
    let n = cells.len();
    assert(all.subrange(0, n as int) =~= all);
    let mut lo: usize = 0;
    while lo < n && cells[lo].len() == 0
        invariant
            lo <= n == cells.len(),
            views(cells@) == all,
            strip_front(all) == strip_front(all.subrange(lo as int, n as int)),
        decreases n - lo,
    {
        assert(all.subrange(lo as int, n as int).drop_first() =~= all.subrange(lo + 1, n as int));
        lo = lo + 1;
    }
    let mut hi: usize = n;
    while hi > lo && cells[hi - 1].len() == 0
        invariant
            lo <= hi <= n == cells.len(),
            views(cells@) == all,
            strip_back(all.subrange(lo as int, n as int)) == strip_back(
                all.subrange(lo as int, hi as int),
            ),
        decreases hi,
    {
        assert(all.subrange(lo as int, hi as int).drop_last() =~= all.subrange(
            lo as int,
            hi - 1,
        ));
        hi = hi - 1;
    }
    let mut r: Vec<Vec<char>> = Vec::new();
    let mut j: usize = lo;
    while j < hi
        invariant
            lo <= j <= hi <= n == cells.len(),
            views(cells@) == all,
            views(r@) == all.subrange(lo as int, j as int),
        decreases hi - j,
    {
        let c = slice(&cells[j], 0, cells[j].len());
        assert(c@ =~= all[j as int]);
        push_line(&mut r, c);
        j = j + 1;
        assert(views(r@) =~= all.subrange(lo as int, j as int));
    }
    r
}

fn is_sep_cell_exec(c: &Vec<char>) -> (r: bool)
    ensures
        r == is_sep_cell(c@),
{
    let lo: usize = if c.len() > 0 && c[0] == ':' {
        1
    } else {
        0
    };
    let hi: usize = if c.len() > lo && c[c.len() - 1] == ':' {
        c.len() - 1
    } else {
        c.len()
    };
    let ghost slo = sep_lo(c@);
    let ghost shi = sep_hi(c@);
    assert(slo == lo && shi == hi);
    if hi < lo + 3 {
        return false;
    }
    let mut k: usize = lo;
    while k < hi
        invariant
            lo <= k <= hi <= c.len(),
            sep_lo(c@) == lo && sep_hi(c@) == hi,
            hi - lo >= 3,
            forall|m: int| lo <= m < k ==> c@[m] == '-',
        decreases hi - k,
    {
        if c[k] != '-' {
            assert(c@[k as int] != '-');
            return false;
        }
        k = k + 1;
    }
    true
}

pub fn is_table_header(line: &Vec<char>) -> (r: bool)
    ensures
        r == is_header_row(line@),
{
    let cells = parse_table_row(line);
    if cells.len() == 0 {
        return false;
    }
    let mut k: usize = 0;
    while k < cells.len()
        invariant
            k <= cells.len(),
            views(cells@) == row_cells(line@),
            forall|m: int| 0 <= m < k ==> row_cells(line@)[m].len() > 0,
        decreases cells.len() - k,
    {
        if cells[k].len() == 0 {
            assert(row_cells(line@)[k as int].len() == 0);
            return false;
        }
        k = k + 1;
    }
    true
}

pub fn is_table_separator(line: &Vec<char>) -> (r: bool)
    ensures
        r == is_sep_row(line@),
{
    let cells = parse_table_row(line);
    if cells.len() == 0 {
        return false;
    }
    let mut k: usize = 0;
    while k < cells.len()
        invariant
            k <= cells.len(),
            views(cells@) == row_cells(line@),
            forall|m: int| 0 <= m < k ==> is_sep_cell(row_cells(line@)[m]),
        decreases cells.len() - k,
    {
        if !is_sep_cell_exec(&cells[k]) {
            assert(!is_sep_cell(row_cells(line@)[k as int]));
            return false;
        }
        k = k + 1;
    }
    true
}

pub fn is_table_row(line: &Vec<char>) -> (r: bool)
    ensures
        r == line@.contains('|'),
{
    contains_char(line, '|')
}


/// Whether every body row of `ls`, from index 2 on, holds a `|` and as many
/// cells as the header row.
fn body_rows_fit(ls: &Vec<Vec<char>>, width: usize) -> (r: bool)
    requires
        ls.len() >= 2,
    ensures
        r == (forall|k: int|
            2 <= k < ls@.len() ==> views(ls@)[k].contains('|') && row_cells(views(ls@)[k]).len()
                == width),
{
    let mut k: usize = 2;
    while k < ls.len()
        invariant
            2 <= k <= ls.len(),
            forall|m: int|
                2 <= m < k ==> views(ls@)[m].contains('|') && row_cells(views(ls@)[m]).len()
                    == width,
        decreases ls.len() - k,
    {
        if !is_table_row(&ls[k]) || parse_table_row(&ls[k]).len() != width {
            assert(!(views(ls@)[k as int].contains('|') && row_cells(views(ls@)[k as int]).len()
                == width));
            return false;
        }
        k = k + 1;
    }
    true
}

/// Whether the lines `ls` of a paragraph have the shape of a table.
fn table_shape(ls: &Vec<Vec<char>>) -> (r: bool)
    ensures
        r == table_ok(views(ls@)),
{
    if ls.len() < 2 || !is_table_header(&ls[0]) || !is_table_separator(&ls[1]) {
        return false;
    }
    let header = parse_table_row(&ls[0]);
    let sep = parse_table_row(&ls[1]);
    if header.len() != sep.len() {
        return false;
    }
    body_rows_fit(ls, header.len())
}

/// Appends one line per cell, each rendered inline between `open` and `close`.
fn push_cells(lines: &mut Vec<Vec<char>>, cells: &Vec<Vec<char>>, open: &str, close: &str)
    ensures
        views(final(lines)@) == views(old(lines)@) + cell_lines(views(cells@), open@, close@),
{
    let ghost base = views(lines@);
    let ghost cl = cell_lines(views(cells@), open@, close@);
    let mut j: usize = 0;
    assert(base =~= base + cl.subrange(0, 0));
    while j < cells.len()
        invariant
            j <= cells.len(),
            cl == cell_lines(views(cells@), open@, close@),
            views(lines@) == base + cl.subrange(0, j as int),
        decreases cells.len() - j,
    {
        let mut l = chars_of(open);
        let body = inline_parse(&cells[j]);
        append(&mut l, &body);
        append_str(&mut l, close);
        push_line(lines, l);
        j = j + 1;
        assert(views(lines@) =~= base + cl.subrange(0, j as int));
    }
    assert(cl.subrange(0, j as int) =~= cl);
}

/// The lines of a table whose shape has been checked.
fn table_html(ls: &Vec<Vec<char>>) -> (r: Vec<char>)
    requires
        table_ok(views(ls@)),
    ensures
        r@ == join(table_lines(views(ls@)), nl()),
{
    let ghost v = views(ls@);
    let mut lines: Vec<Vec<char>> = Vec::new();
    push_lit(&mut lines, "<table>");
    push_lit(&mut lines, "  <thead>");
    push_lit(&mut lines, "    <tr>");
    let header = parse_table_row(&ls[0]);
    push_cells(&mut lines, &header, "      <th>", "</th>");
    push_lit(&mut lines, "    </tr>");
    push_lit(&mut lines, "  </thead>");
    let ghost head = views(lines@);
    assert(head =~= seq!["<table>"@, "  <thead>"@, "    <tr>"@] + cell_lines(
        row_cells(v[0]),
        "      <th>"@,
        "</th>"@,
    ) + seq!["    </tr>"@, "  </thead>"@]);
    if ls.len() > 2 {
        push_lit(&mut lines, "  <tbody>");
        let ghost open_body = views(lines@);
        let mut k: usize = 2;
        assert(open_body =~= open_body + body_lines(v.subrange(2, 2)));
        while k < ls.len()
            invariant
                2 <= k <= ls.len(),
                v == views(ls@),
                views(lines@) == open_body + body_lines(v.subrange(2, k as int)),
            decreases ls.len() - k,
        {
            let ghost before = views(lines@);
            push_lit(&mut lines, "    <tr>");
            let cells = parse_table_row(&ls[k]);
            push_cells(&mut lines, &cells, "      <td>", "</td>");
            push_lit(&mut lines, "    </tr>");
            assert(v.subrange(2, k + 1).drop_last() =~= v.subrange(2, k as int));
            assert(views(lines@) =~= before + row_lines(v[k as int]));
            k = k + 1;
            assert(views(lines@) =~= open_body + body_lines(v.subrange(2, k as int)));
        }
        push_lit(&mut lines, "  </tbody>");
        assert(v.subrange(2, v.len() as int) =~= v.subrange(2, k as int));
        assert(views(lines@) =~= head + (seq!["  <tbody>"@] + body_lines(
            v.subrange(2, v.len() as int),
        ) + seq!["  </tbody>"@]));
    } else {
        assert(views(lines@) =~= head + Seq::<Seq<char>>::empty());
    }
    push_lit(&mut lines, "</table>");
    assert(views(lines@) =~= table_lines(v));
    let sep = chars_of("\n");
    proof {
        reveal_strlit("\n");
        assert(sep@ =~= nl());
    }
    join_exec(&lines, &sep)
}

/// Renders a paragraph: as a table where its lines have the shape of one,
/// else as `<p>` around its inline rendering.
pub fn parse_paragraph(content: &Vec<char>) -> (r: Vec<char>)
    ensures
        r@ == paragraph_html(content@),
{
    let ls = split_exec(content, '\n');
    if table_shape(&ls) {
        return table_html(&ls);
    }
    let mut out = chars_of("<p>");
    let body = inline_parse(content);
    append(&mut out, &body);
    append_str(&mut out, "</p>");
    out
}

pub open spec fn indents(items: Seq<(int, Seq<char>)>) -> Seq<int> {
    items.map_values(|it: (int, Seq<char>)| it.0)
}

/// How many distinct widths in `ws` are below `w`.
pub open spec fn rank(ws: Seq<int>, w: int) -> int
    decreases ws.len(),
{
    if ws.len() == 0 {
        0
    } else {
        rank(ws.drop_last(), w) + if ws.last() < w && !ws.drop_last().contains(ws.last()) {
            1int
        } else {
            0int
        }
    }
}

/// The nesting level of item `k`: the rank of its indent width among the
/// distinct widths of the list.
pub open spec fn level(items: Seq<(int, Seq<char>)>, k: int) -> int {
    rank(indents(items), items[k].0)
}

/// Two spaces for each level.
pub open spec fn pad(n: int) -> Seq<char> {
    Seq::new((2 * n) as nat, |_i: int| ' ')
}

/// The lines that open a `<ul>` at each level from `a` to `b`.
pub open spec fn opens(a: int, b: int) -> Seq<Seq<char>>
    decreases b - a + 1,
{
    if b < a {
        Seq::empty()
    } else {
        opens(a, b - 1).push(pad(b) + "<ul>"@)
    }
}

/// The levels of all the items of a list.
pub open spec fn levels(items: Seq<(int, Seq<char>)>) -> Seq<int> {
    Seq::new(items.len(), |k: int| level(items, k))
}

/// Among the first `k` levels of `lv`, the last one that is at most `l`.
pub open spec fn last_at_most(lv: Seq<int>, k: int, l: int) -> Option<int>
    decreases k,
{
    if k <= 0 {
        None
    } else if lv[k - 1] <= l {
        Some(lv[k - 1])
    } else {
        last_at_most(lv, k - 1, l)
    }
}

/// Whether level `l` holds an open `<li>` before item `k`: the last earlier
/// item at level `l` or below is at level `l` itself. A level that a jump
/// opened, with no item of its own since, holds none.
pub open spec fn holds_item(lv: Seq<int>, k: int, l: int) -> bool {
    last_at_most(lv, k, l) == Some(l)
}

/// The lines that close level `m` before item `k`: its open `<li>`, if it
/// holds one, and its `<ul>`.
pub open spec fn close_level(lv: Seq<int>, k: int, m: int) -> Seq<Seq<char>> {
    (if holds_item(lv, k, m) {
        seq![pad(m) + "</li>"@]
    } else {
        Seq::empty()
    }) + seq![pad(m) + "</ul>"@]
}

/// The lines that close each level from `c` down to just above `l`, before
/// item `k`.
pub open spec fn closes(lv: Seq<int>, k: int, c: int, l: int) -> Seq<Seq<char>>
    decreases c - l,
{
    if c <= l {
        Seq::empty()
    } else {
        closes(lv, k, c, l + 1) + close_level(lv, k, l + 1)
    }
}

/// The lines that item `k` of a list adds: the `<ul>` that its level opens,
/// or the deeper levels that it closes and the `<li>` still open at its own
/// level; then its own `<li>`.
pub open spec fn item_lines(items: Seq<(int, Seq<char>)>, k: int) -> Seq<Seq<char>> {
    let lv = levels(items);
    let prev = if k == 0 { -1 } else { lv[k - 1] };
    let l = lv[k];
    (if l > prev {
        opens(prev + 1, l)
    } else {
        closes(lv, k, prev, l) + if holds_item(lv, k, l) {
            seq![pad(l) + "</li>"@]
        } else {
            Seq::empty()
        }
    }) + seq![pad(l) + "<li>"@ + inline_html(items[k].1)]
}

/// The lines of the first `n` items of a list.
pub open spec fn list_body(items: Seq<(int, Seq<char>)>, n: int) -> Seq<Seq<char>>
    decreases n,
{
    if n <= 0 {
        Seq::empty()
    } else {
        list_body(items, n - 1) + item_lines(items, n - 1)
    }
}

/// A list as nested `<ul>`, with every level still open closed at the end.
pub open spec fn list_html(items: Seq<(int, Seq<char>)>) -> Seq<char> {
    let n = items.len() as int;
    if n == 0 {
        "<ul></ul>"@
    } else {
        join(list_body(items, n) + closes(levels(items), n, levels(items)[n - 1], -1), nl())
    }
}

/// The nesting level of item `k`.
fn level_exec(items: &Vec<(usize, Vec<char>)>, k: usize) -> (r: usize)
    requires
        k < items.len(),
    ensures
        r as int == level(items_view(items@), k as int),
        r < items.len(),
{
    let ghost ws = indents(items_view(items@));
    let w = items[k].0;
    assert(ws[k as int] == w);
    let mut cnt: usize = 0;
    let mut j: usize = 0;
    assert(ws.subrange(0, 0) =~= Seq::<int>::empty());
    while j < items.len()
        invariant
            j <= items.len(),
            k < items.len(),
            w == items@[k as int].0,
            ws == indents(items_view(items@)),
            cnt as int == rank(ws.subrange(0, j as int), w as int),
            cnt + (if j > k { 1int } else { 0int }) <= j,
        decreases items.len() - j,
    {
        let x = items[j].0;
        assert(ws[j as int] == x);
        assert(ws.subrange(0, j + 1).drop_last() =~= ws.subrange(0, j as int));
        if x < w {
            let mut m: usize = 0;
            let mut seen = false;
            while m < j
                invariant
                    m <= j < items.len(),
                    ws == indents(items_view(items@)),
                    x == ws[j as int],
                    seen == (exists|p: int| 0 <= p < m && ws[p] == x),
                decreases j - m,
            {
                assert(ws[m as int] == items@[m as int].0);
                if items[m].0 == x {
                    seen = true;
                }
                m = m + 1;
            }
            if seen {
                let ghost p = choose|p: int| 0 <= p < j && ws[p] == x;
                assert(ws.subrange(0, j as int)[p] == x);
            } else {
                assert(!ws.subrange(0, j as int).contains(x as int));
                cnt = cnt + 1;
            }
        }
        j = j + 1;
    }
    assert(ws.subrange(0, items.len() as int) =~= ws);
    cnt
}

fn pad_exec(n: usize) -> (r: Vec<char>)
    ensures
        r@ == pad(n as int),
{
    let mut r: Vec<char> = Vec::new();
    let mut k: usize = 0;
    while k < n
        invariant
            k <= n,
            r@ == pad(k as int),
        decreases n - k,
    {
        r.push(' ');
        r.push(' ');
        k = k + 1;
        assert(r@ =~= pad(k as int));
    }
    r
}

/// Appends the line `pad(n)` followed by `lit`.
fn push_padded(lines: &mut Vec<Vec<char>>, n: usize, lit: &str)
    ensures
        views(final(lines)@) == views(old(lines)@).push(pad(n as int) + lit@),
{
    let mut l = pad_exec(n);
    append_str(&mut l, lit);
    push_line(lines, l);
}

pub open spec fn ints(v: Seq<usize>) -> Seq<int> {
    v.map_values(|x: usize| x as int)
}

/// The levels of all the items of a list.
fn levels_exec(items: &Vec<(usize, Vec<char>)>) -> (r: Vec<usize>)
    ensures
        ints(r@) == levels(items_view(items@)),
        forall|j: int| 0 <= j < r@.len() ==> r@[j] < items.len(),
{
    let ghost want = levels(items_view(items@));
    let mut r: Vec<usize> = Vec::new();
    let mut k: usize = 0;
    while k < items.len()
        invariant
            k <= items.len(),
            want == levels(items_view(items@)),
            ints(r@) == want.subrange(0, k as int),
            forall|j: int| 0 <= j < r@.len() ==> r@[j] < items.len(),
        decreases items.len() - k,
    {
        let l = level_exec(items, k);
        let ghost before = ints(r@);
        r.push(l);
        assert(ints(r@) =~= before.push(l as int));
        assert(want[k as int] == level(items_view(items@), k as int));
        k = k + 1;
        assert(ints(r@) =~= want.subrange(0, k as int));
    }
    assert(want.subrange(0, k as int) =~= want);
    r
}

/// Whether level `l` holds an open `<li>` before item `k`.
fn holds_exec(lv: &Vec<usize>, k: usize, l: usize) -> (r: bool)
    requires
        k <= lv.len(),
    ensures
        r == holds_item(ints(lv@), k as int, l as int),
{
    let ghost s = ints(lv@);
    let mut j: usize = k;
    while j > 0 && lv[j - 1] > l
        invariant
            j <= k <= lv.len(),
            s == ints(lv@),
            last_at_most(s, k as int, l as int) == last_at_most(s, j as int, l as int),
        decreases j,
    {
        j = j - 1;
    }
    j > 0 && lv[j - 1] == l
}

/// Appends the lines that close level `m` before item `k`.
fn push_close_level(lines: &mut Vec<Vec<char>>, lv: &Vec<usize>, k: usize, m: usize)
    requires
        k <= lv.len(),
    ensures
        views(final(lines)@) == views(old(lines)@) + close_level(ints(lv@), k as int, m as int),
{
    let ghost base = views(old(lines)@);
    if holds_exec(lv, k, m) {
        push_padded(lines, m, "</li>");
    }
    push_padded(lines, m, "</ul>");
    assert(views(lines@) =~= base + close_level(ints(lv@), k as int, m as int));
}

/// Appends the lines that close levels `c` down to just above `l`, before
/// item `k`.
fn push_closes(lines: &mut Vec<Vec<char>>, lv: &Vec<usize>, k: usize, c: usize, l: usize)
    requires
        l <= c,
        k <= lv.len(),
    ensures
        views(final(lines)@) == views(old(lines)@) + closes(ints(lv@), k as int, c as int, l as int),
{
    let ghost base = views(lines@);
    let ghost s = ints(lv@);
    let mut top: usize = c;
    assert(base =~= base + closes(s, k as int, c as int, c as int));
    while top > l
        invariant
            l <= top <= c,
            k <= lv.len(),
            s == ints(lv@),
            views(lines@) == base + closes(s, k as int, c as int, top as int),
        decreases top,
    {
        push_close_level(lines, lv, k, top);
        assert(views(lines@) =~= base + closes(s, k as int, c as int, top - 1));
        top = top - 1;
    }
}

/// Renders a list as nested `<ul>`: levels come from the ranks of the
/// distinct indent widths, and every item closes the `<li>` still open at
/// its level.
pub fn parse_list(items: &Vec<(usize, Vec<char>)>) -> (r: Vec<char>)
    ensures
        r@ == list_html(items_view(items@)),
{
    let ghost its = items_view(items@);
    if items.len() == 0 {
        return chars_of("<ul></ul>");
    }
    let lv = levels_exec(items);
    let ghost s = ints(lv@);
    assert(s.len() == items.len());
    let mut lines: Vec<Vec<char>> = Vec::new();
    let mut prev: usize = 0;
    let mut k: usize = 0;
    assert(views(lines@) =~= list_body(its, 0));
    while k < items.len()
        invariant
            k <= items.len() == lv.len(),
            its == items_view(items@),
            s == ints(lv@),
            s == levels(its),
            forall|j: int| 0 <= j < lv@.len() ==> lv@[j] < items.len(),
            views(lines@) == list_body(its, k as int),
            k > 0 ==> prev as int == s[k - 1],
            prev < items.len(),
        decreases items.len() - k,
    {
        let ghost base = views(lines@);
        let l = lv[k];
        assert(s[k as int] == l);
        let ghost sprev: int = if k == 0 { -1 } else { s[k - 1] };
        if k == 0 || l > prev {
            let start: usize = if k == 0 {
                0
            } else {
                prev + 1
            };
            assert(start as int == sprev + 1);
            let mut m: usize = start;
            assert(base =~= base + opens(start as int, start - 1));
            while m <= l
                invariant
                    start <= m <= l + 1,
                    l < items.len(),
                    views(lines@) == base + opens(start as int, m - 1),
                decreases l + 1 - m,
            {
                push_padded(&mut lines, m, "<ul>");
                assert(views(lines@) =~= base + opens(start as int, m as int));
                m = m + 1;
            }
        } else {
            push_closes(&mut lines, &lv, k, prev, l);
            if holds_exec(&lv, k, l) {
                push_padded(&mut lines, l, "</li>");
            }
            assert(views(lines@) =~= base + (closes(s, k as int, sprev, l as int) + if holds_item(
                s,
                k as int,
                l as int,
            ) {
                seq![pad(l as int) + "</li>"@]
            } else {
                Seq::empty()
            }));
        }
        let mut li = pad_exec(l);
        append_str(&mut li, "<li>");
        let body = inline_parse(&items[k].1);
        append(&mut li, &body);
        push_line(&mut lines, li);
        assert(views(lines@) =~= base + item_lines(its, k as int));
        prev = l;
        k = k + 1;
    }
    let ghost body = views(lines@);
    let n = items.len();
    let mut t: usize = prev + 1;
    assert(body =~= body + closes(s, n as int, prev as int, prev as int));
    while t > 0
        invariant
            t <= prev + 1,
            n == lv.len(),
            s == ints(lv@),
            views(lines@) == body + closes(s, n as int, prev as int, t - 1),
        decreases t,
    {
        push_close_level(&mut lines, &lv, n, t - 1);
        assert(views(lines@) =~= body + closes(s, n as int, prev as int, t - 2));
        t = t - 1;
    }
    let sep = chars_of("\n");
    proof {
        reveal_strlit("\n");
        assert(sep@ =~= nl());
    }
    join_exec(&lines, &sep)
}

/// The digit of a header level, between one and six.
pub open spec fn level_char(l: int) -> char {
    if l == 1 {
        '1'
    } else if l == 2 {
        '2'
    } else if l == 3 {
        '3'
    } else if l == 4 {
        '4'
    } else if l == 5 {
        '5'
    } else {
        '6'
    }
}

/// The HTML of one block.
pub open spec fn render_block(b: BlockModel) -> Seq<char> {
    match b {
        BlockModel::Paragraph(t) => paragraph_html(t),
        BlockModel::List(items) => list_html(items),
        BlockModel::Header(l, t) => "<h"@ + seq![level_char(l)] + ">"@ + inline_html(t) + "</h"@
            + seq![level_char(l)] + ">"@,
        BlockModel::Code(t) => "<pre><code>"@ + t + "</code></pre>"@,
        BlockModel::Hr => "<hr>"@,
    }
}

fn level_char_exec(l: usize) -> (r: char)
    ensures
        r == level_char(l as int),
{
    if l == 1 {
        '1'
    } else if l == 2 {
        '2'
    } else if l == 3 {
        '3'
    } else if l == 4 {
        '4'
    } else if l == 5 {
        '5'
    } else {
        '6'
    }
}

/// Renders one block to HTML.
pub fn parse_block(block: &Block) -> (r: Vec<char>)
    requires
        block_wf(block@),
    ensures
        r@ == render_block(block@),
{
    match block {
        Block::Paragraph(t) => parse_paragraph(t),
        Block::List(items) => parse_list(items),
        Block::Header(l, t) => {
            let d = level_char_exec(*l);
            let mut out = chars_of("<h");
            out.push(d);
            append_str(&mut out, ">");
            let body = inline_parse(t);
            append(&mut out, &body);
            append_str(&mut out, "</h");
            out.push(d);
            append_str(&mut out, ">");
            assert(out@ =~= render_block(block@));
            out
        },
        Block::Code(t) => {
            let mut out = chars_of("<pre><code>");
            append(&mut out, t);
            append_str(&mut out, "</code></pre>");
            out
        },
        Block::Hr => chars_of("<hr>"),
    }
}

} // verus!
