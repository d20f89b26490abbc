//! The block segmenter: one left-to-right pass over the lines of a document,
//! carrying at most one open construct at a time.
use vstd::prelude::*;
use crate::text::{
    chars_of, is_ws, is_ws_char, join, join_exec, lemma_split_on_len, nl, slice, split_exec,
    split_on, starts_at, starts_at_exec, trim_end, trim_end_exec, views,
};

verus! {

/// A finished top-level construct of a document.
pub enum Block {
    Paragraph(Vec<char>),
    List(Vec<(usize, Vec<char>)>),
    Header(usize, Vec<char>),
    Code(Vec<char>),
    Hr,
}

/// What a [`Block`] holds, as mathematical values.
pub enum BlockModel {
    Paragraph(Seq<char>),
    List(Seq<(int, Seq<char>)>),
    Header(int, Seq<char>),
    Code(Seq<char>),
    Hr,
}

/// A header's level is between one and six.
pub open spec fn block_wf(b: BlockModel) -> bool {
    match b {
        BlockModel::Header(l, _) => 1 <= l <= 6,
        _ => true,
    }
}

pub open spec fn all_wf(bs: Seq<BlockModel>) -> bool {
    forall|j: int| 0 <= j < bs.len() ==> block_wf(#[trigger] bs[j])
}

pub open spec fn item_view(it: (usize, Vec<char>)) -> (int, Seq<char>) {
    (it.0 as int, it.1@)
}

pub open spec fn items_view(v: Seq<(usize, Vec<char>)>) -> Seq<(int, Seq<char>)> {
    v.map_values(|it: (usize, Vec<char>)| item_view(it))
}

impl View for Block {
    type V = BlockModel;

    open spec fn view(&self) -> BlockModel {
        match self {
            Block::Paragraph(t) => BlockModel::Paragraph(t@),
            Block::List(items) => BlockModel::List(items_view(items@)),
            Block::Header(level, t) => BlockModel::Header(*level as int, t@),
            Block::Code(t) => BlockModel::Code(t@),
            Block::Hr => BlockModel::Hr,
        }
    }
}

pub open spec fn blocks_view(v: Seq<Block>) -> Seq<BlockModel> {
    v.map_values(|b: Block| b@)
}

/// The construct that the segmenter is building.
pub enum Open {
    Para(Vec<Vec<char>>),
    Items(Vec<(usize, Vec<char>)>),
    Code(Vec<Vec<char>>),
}

pub enum OpenModel {
    Para(Seq<Seq<char>>),
    Items(Seq<(int, Seq<char>)>),
    Code(Seq<Seq<char>>),
}

impl View for Open {
    type V = OpenModel;

    open spec fn view(&self) -> OpenModel {
        match self {
            Open::Para(ls) => OpenModel::Para(views(ls@)),
            Open::Items(items) => OpenModel::Items(items_view(items@)),
            Open::Code(ls) => OpenModel::Code(views(ls@)),
        }
    }
}

pub open spec fn open_view(o: Option<Open>) -> Option<OpenModel> {
    match o {
        Some(x) => Some(x@),
        None => None,
    }
}

/// `blocks` with the open construct, if any, finished and appended.
pub open spec fn flush(blocks: Seq<BlockModel>, cur: Option<OpenModel>) -> Seq<BlockModel> {
    match cur {
        None => blocks,
        Some(OpenModel::Para(ls)) => blocks.push(BlockModel::Paragraph(join(ls, nl()))),
        Some(OpenModel::Items(items)) => blocks.push(BlockModel::List(items)),
        Some(OpenModel::Code(ls)) => blocks.push(BlockModel::Code(join(ls, nl()))),
    }
}

pub open spec fn is_fence(line: Seq<char>) -> bool {
    starts_at(line, 0, "```"@)
}

pub open spec fn is_rule(line: Seq<char>) -> bool {
    line.len() >= 3 && forall|k: int| 0 <= k < line.len() ==> line[k] == '-'
}

/// The index where the run of `#` that starts at `j` ends.
pub open spec fn hash_end(s: Seq<char>, j: int) -> int
    decreases s.len() - j,
{
    if 0 <= j < s.len() && s[j] == '#' {
        hash_end(s, j + 1)
    } else {
        j
    }
}

/// The index where the run of whitespace that starts at `j` ends.
pub open spec fn ws_end(s: Seq<char>, j: int) -> int
    decreases s.len() - j,
{
    if 0 <= j < s.len() && is_ws(s[j]) {
        ws_end(s, j + 1)
    } else {
        j
    }
}

/// One to six `#`, then whitespace.
pub open spec fn is_header(line: Seq<char>) -> bool {
    let k = hash_end(line, 0);
    1 <= k <= 6 && k < line.len() && is_ws(line[k])
}

pub open spec fn header_text(line: Seq<char>) -> Seq<char> {
    line.subrange(ws_end(line, hash_end(line, 0)), line.len() as int)
}

/// Optional whitespace, `- `, then at least one character.
pub open spec fn is_item(line: Seq<char>) -> bool {
    let w = ws_end(line, 0);
    w + 2 < line.len() && line[w] == '-' && line[w + 1] == ' '
}

/// The indent width and the content of a list item line.
pub open spec fn item_of(line: Seq<char>) -> (int, Seq<char>) {
    let w = ws_end(line, 0);
    (w, line.subrange(w + 2, line.len() as int))
}

/// One step of the segmenter on a line that is not a fence and that no open
/// code block takes.
pub open spec fn step_plain(blocks: Seq<BlockModel>, cur: Option<OpenModel>, line: Seq<char>) -> (
    Seq<BlockModel>,
    Option<OpenModel>,
) {
    if line.len() == 0 {
        (flush(blocks, cur), None)
    } else if is_rule(line) {
        (flush(blocks, cur).push(BlockModel::Hr), None)
    } else if is_header(line) {
        (flush(blocks, cur).push(BlockModel::Header(hash_end(line, 0), header_text(line))), None)
    } else if is_item(line) {
        match cur {
            Some(OpenModel::Items(items)) => (
                blocks,
                Some(OpenModel::Items(items.push(item_of(line)))),
            ),
            _ => (flush(blocks, cur), Some(OpenModel::Items(seq![item_of(line)]))),
        }
    } else {
        match cur {
            Some(OpenModel::Para(ls)) => (blocks, Some(OpenModel::Para(ls.push(line)))),
            _ => (flush(blocks, cur), Some(OpenModel::Para(seq![line]))),
        }
    }
}

/// One step of the segmenter: the finished blocks and the open construct
/// after `line`. A fence closes an open code block; otherwise it opens one
/// and drops whatever else was open.
pub open spec fn step(st: (Seq<BlockModel>, Option<OpenModel>), line: Seq<char>) -> (
    Seq<BlockModel>,
    Option<OpenModel>,
) {
    let blocks = st.0;
    let cur = st.1;
    if is_fence(line) {
        match cur {
            Some(OpenModel::Code(ls)) => (blocks.push(BlockModel::Code(join(ls, nl()))), None),
            _ => (blocks, Some(OpenModel::Code(Seq::empty()))),
        }
    } else {
        match cur {
            Some(OpenModel::Code(ls)) => (blocks, Some(OpenModel::Code(ls.push(line)))),
            _ => step_plain(blocks, cur, line),
        }
    }
}

/// The state of the segmenter after `lines`.
pub open spec fn run(lines: Seq<Seq<char>>) -> (Seq<BlockModel>, Option<OpenModel>)
    decreases lines.len(),
{
    if lines.len() == 0 {
        (Seq::empty(), None)
    } else {
        step(run(lines.drop_last()), lines.last())
    }
}

/// The lines of `doc`: the pieces between line feeds, less a last empty one.
pub open spec fn doc_lines(doc: Seq<char>) -> Seq<Seq<char>> {
    let p = split_on(doc, '\n');
    if p.last().len() == 0 {
        p.drop_last()
    } else {
        p
    }
}

/// The lines of `doc`, each without its trailing whitespace.
pub open spec fn trimmed_lines(doc: Seq<char>) -> Seq<Seq<char>> {
    doc_lines(doc).map_values(|l: Seq<char>| trim_end(l))
}

/// The blocks of `doc`. A code block that is still open at the end is kept.
pub open spec fn segment(doc: Seq<char>) -> Seq<BlockModel> {
    let st = run(trimmed_lines(doc));
    flush(st.0, st.1)
}

proof fn lemma_push_wf(bs: Seq<BlockModel>, b: BlockModel)
    requires
        all_wf(bs),
        block_wf(b),
    ensures
        all_wf(bs.push(b)),
{
    assert forall|j: int| 0 <= j < bs.push(b).len() implies block_wf(#[trigger] bs.push(b)[j]) by {
        if j < bs.len() {
            assert(bs.push(b)[j] == bs[j]);
        }
    }
}

proof fn lemma_flush_wf(bs: Seq<BlockModel>, cur: Option<OpenModel>)
    requires
        all_wf(bs),
    ensures
        all_wf(flush(bs, cur)),
{
    match cur {
        None => {},
        Some(OpenModel::Para(ls)) => lemma_push_wf(bs, BlockModel::Paragraph(join(ls, nl()))),
        Some(OpenModel::Items(items)) => lemma_push_wf(bs, BlockModel::List(items)),
        Some(OpenModel::Code(ls)) => lemma_push_wf(bs, BlockModel::Code(join(ls, nl()))),
    }
}

proof fn lemma_run_wf(lines: Seq<Seq<char>>)
    ensures
        all_wf(run(lines).0),
    decreases lines.len(),
{
    if lines.len() > 0 {
        lemma_run_wf(lines.drop_last());
        let st = run(lines.drop_last());
        let line = lines.last();
        let bs = st.0;
        let cur = st.1;
        lemma_flush_wf(bs, cur);
        if is_fence(line) {
            if let Some(OpenModel::Code(ls)) = cur {
                lemma_push_wf(bs, BlockModel::Code(join(ls, nl())));
            }
        } else if is_header(line) {
            lemma_push_wf(flush(bs, cur), BlockModel::Header(hash_end(line, 0), header_text(line)));
        } else {
            lemma_push_wf(flush(bs, cur), BlockModel::Hr);
        }
    }
}

/// Every header that the segmenter makes has a level between one and six.
pub proof fn lemma_segment_wf(doc: Seq<char>)
    ensures
        all_wf(segment(doc)),
{
    let st = run(trimmed_lines(doc));
    lemma_run_wf(trimmed_lines(doc));
    lemma_flush_wf(st.0, st.1);
}

/// In a run of `#` that ends at `n`, the run from any `j` up to `n` ends there.
pub proof fn lemma_hash_end(s: Seq<char>, j: int, n: int)
    requires
        0 <= j <= n < s.len(),
        s[n] != '#',
        forall|k: int| j <= k < n ==> s[k] == '#',
    ensures
        hash_end(s, j) == n,
    decreases n - j,
{
    if j < n {
        lemma_hash_end(s, j + 1, n);
    }
}

/// After an opening fence, every line that is not a fence joins the open
/// code block.
pub proof fn lemma_run_code(f: Seq<char>, ls: Seq<Seq<char>>, k: int)
    requires
        is_fence(f),
        0 <= k <= ls.len(),
        forall|j: int| 0 <= j < ls.len() ==> !is_fence(#[trigger] ls[j]),
    ensures
        run(seq![f] + ls.subrange(0, k)) == (
            Seq::<BlockModel>::empty(),
            Some(OpenModel::Code(ls.subrange(0, k))),
        ),
    decreases k,
{
    if k == 0 {
        assert(seq![f] + ls.subrange(0, 0) =~= seq![f]);
        assert(seq![f].drop_last() =~= Seq::<Seq<char>>::empty());
        assert(ls.subrange(0, 0) =~= Seq::<Seq<char>>::empty());
        assert(run(Seq::<Seq<char>>::empty()) == (Seq::<BlockModel>::empty(), None::<OpenModel>));
        assert(run(seq![f]) == step(run(seq![f].drop_last()), seq![f].last()));
    } else {
        lemma_run_code(f, ls, k - 1);
        assert((seq![f] + ls.subrange(0, k)).drop_last() =~= seq![f] + ls.subrange(0, k - 1));
        assert((seq![f] + ls.subrange(0, k)).last() == ls[k - 1]);
        assert(!is_fence(ls[k - 1]));
        assert(ls.subrange(0, k - 1).push(ls[k - 1]) =~= ls.subrange(0, k));
    }
}

fn finish_lines(ls: &Vec<Vec<char>>) -> (r: Vec<char>)
    ensures
        r@ == join(views(ls@), nl()),
{
    let sep = chars_of("\n");
    proof {
        reveal_strlit("\n");
        assert(sep@ =~= nl());
    }
    join_exec(ls, &sep)
}

fn flush_exec(blocks: &mut Vec<Block>, cur: Option<Open>)
    ensures
        blocks_view(final(blocks)@) == flush(blocks_view(old(blocks)@), open_view(cur)),
{
    let ghost before = blocks_view(blocks@);
    match cur {
        None => {},
        Some(Open::Para(ls)) => {
            let t = finish_lines(&ls);
            let b = Block::Paragraph(t);
            blocks.push(b);
            assert(blocks_view(blocks@) =~= before.push(b@));
        },
        Some(Open::Items(items)) => {
            let b = Block::List(items);
            blocks.push(b);
            assert(blocks_view(blocks@) =~= before.push(b@));
        },
        Some(Open::Code(ls)) => {
            let t = finish_lines(&ls);
            let b = Block::Code(t);
            blocks.push(b);
            assert(blocks_view(blocks@) =~= before.push(b@));
        },
    }
}

fn hash_end_exec(s: &Vec<char>) -> (r: usize)
    ensures
        r as int == hash_end(s@, 0),
        r <= s.len(),
{
    let mut j: usize = 0;
    while j < s.len() && s[j] == '#'
        invariant
            j <= s.len(),
            hash_end(s@, 0) == hash_end(s@, j as int),
        decreases s.len() - j,
    {
        j = j + 1;
    }
    j
}

fn ws_end_exec(s: &Vec<char>, from: usize) -> (r: usize)
    requires
        from <= s.len(),
    ensures
        r as int == ws_end(s@, from as int),
        from <= r <= s.len(),
{
    let mut j: usize = from;
    while j < s.len() && is_ws_char(s[j])
        invariant
            from <= j <= s.len(),
            ws_end(s@, from as int) == ws_end(s@, j as int),
        decreases s.len() - j,
    {
        j = j + 1;
    }
    j
}

fn is_rule_exec(s: &Vec<char>) -> (r: bool)
    ensures
        r == is_rule(s@),
{
    if s.len() < 3 {
        return false;
    }
    let mut k: usize = 0;
    while k < s.len()
        invariant
            k <= s.len(),
            forall|m: int| 0 <= m < k ==> s@[m] == '-',
        decreases s.len() - k,
    {
        if s[k] != '-' {
            return false;
        }
        k = k + 1;
    }
    true
}

fn push_block(blocks: &mut Vec<Block>, b: Block)
    ensures
        blocks_view(final(blocks)@) == blocks_view(old(blocks)@).push(b@),
{
    blocks.push(b);
    assert(blocks_view(blocks@) =~= blocks_view(old(blocks)@).push(b@));
}

fn step_plain_exec(blocks: &mut Vec<Block>, cur: Option<Open>, line: Vec<char>) -> (r: Option<Open>)
    ensures
        (blocks_view(final(blocks)@), open_view(r)) == step_plain(
            blocks_view(old(blocks)@),
            open_view(cur),
            line@,
        ),
{
    if line.len() == 0 {
        flush_exec(blocks, cur);
        return None;
    }
    if is_rule_exec(&line) {
        flush_exec(blocks, cur);
        push_block(blocks, Block::Hr);
        return None;
    }
    let k = hash_end_exec(&line);
    if 1 <= k && k <= 6 && k < line.len() && is_ws_char(line[k]) {
        let w = ws_end_exec(&line, k);
        let text = slice(&line, w, line.len());
        flush_exec(blocks, cur);
        push_block(blocks, Block::Header(k, text));
        return None;
    }
    let w = ws_end_exec(&line, 0);
    if line.len() - w > 2 && line[w] == '-' && line[w + 1] == ' ' {
        let content = slice(&line, w + 2, line.len());
        let item = (w, content);
        assert(item_view(item) == item_of(line@));
        match cur {
            Some(Open::Items(mut items)) => {
                let ghost before = items_view(items@);
                items.push(item);
                assert(items_view(items@) =~= before.push(item_of(line@)));
                Some(Open::Items(items))
            },
            other => {
                flush_exec(blocks, other);
                let mut items: Vec<(usize, Vec<char>)> = Vec::new();
                items.push(item);
                assert(items_view(items@) =~= seq![item_of(line@)]);
                Some(Open::Items(items))
            },
        }
    } else {
        match cur {
            Some(Open::Para(mut ls)) => {
                let ghost before = views(ls@);
                ls.push(line);
                assert(views(ls@) =~= before.push(line@));
                Some(Open::Para(ls))
            },
            other => {
                flush_exec(blocks, other);
                let mut ls: Vec<Vec<char>> = Vec::new();
                ls.push(line);
                assert(views(ls@) =~= seq![line@]);
                Some(Open::Para(ls))
            },
        }
    }
}

fn split_blocks_reducer(blocks: &mut Vec<Block>, cur: Option<Open>, line: Vec<char>) -> (r: Option<Open>)
    ensures
        (blocks_view(final(blocks)@), open_view(r)) == step(
            (blocks_view(old(blocks)@), open_view(cur)),
            line@,
        ),
{
    let fence = chars_of("```");
    if starts_at_exec(&line, 0, &fence) {
        match cur {
            Some(Open::Code(ls)) => {
                let t = finish_lines(&ls);
                push_block(blocks, Block::Code(t));
                None
            },
            _ => {
                let ls: Vec<Vec<char>> = Vec::new();
                assert(views(ls@) =~= Seq::<Seq<char>>::empty());
                Some(Open::Code(ls))
            },
        }
    } else {
        match cur {
            Some(Open::Code(mut ls)) => {
                let ghost before = views(ls@);
                ls.push(line);
                assert(views(ls@) =~= before.push(line@));
                Some(Open::Code(ls))
            },
            other => step_plain_exec(blocks, other, line),
        }
    }
}

/// Splits a document into its blocks.
pub fn split_blocks(doc: &Vec<char>) -> (r: Vec<Block>)
    ensures
        blocks_view(r@) == segment(doc@),
        all_wf(blocks_view(r@)),
{
    let parts = split_exec(doc, '\n');
    proof {
        lemma_split_on_len(doc@, '\n');
    }
    let n: usize = if parts[parts.len() - 1].len() == 0 {
        parts.len() - 1
    } else {
        parts.len()
    };
    let ghost lines = doc_lines(doc@);
    assert(lines =~= views(parts@).subrange(0, n as int));
    let mut blocks: Vec<Block> = Vec::new();
    let mut cur: Option<Open> = None;
    let mut i: usize = 0;
    assert(blocks_view(blocks@) =~= Seq::<BlockModel>::empty());
    assert(trimmed_lines(doc@).subrange(0, 0) =~= Seq::<Seq<char>>::empty());
    while i < n
        invariant
            i <= n <= parts.len(),
            lines == views(parts@).subrange(0, n as int),
            lines == doc_lines(doc@),
            (blocks_view(blocks@), open_view(cur)) == run(
                trimmed_lines(doc@).subrange(0, i as int),
            ),
        decreases n - i,
    {
        let line = trim_end_exec(&parts[i]);
        assert(trimmed_lines(doc@).subrange(0, i + 1).drop_last() =~= trimmed_lines(
            doc@,
        ).subrange(0, i as int));
        assert(line@ == trimmed_lines(doc@)[i as int]);
        cur = split_blocks_reducer(&mut blocks, cur, line);
        i = i + 1;
    }
    assert(trimmed_lines(doc@).subrange(0, n as int) =~= trimmed_lines(doc@));
    flush_exec(&mut blocks, cur);
    proof {
        lemma_segment_wf(doc@);
    }
    blocks
}

} // verus!
