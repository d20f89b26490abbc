//! Conversion of a markdown-like plain-text dialect into an HTML fragment.
//!
//! The conversion runs in two phases: [`segment::split_blocks`] folds the
//! lines of a document into blocks, and [`render::parse_block`] renders each
//! block, applying [`inline::inline_parse`] to its leaf text. [`editor`]
//! holds the decisions of a live-preview editor around the conversion.
use vstd::prelude::*;

pub mod editor;
pub mod inline;
pub mod render;
pub mod segment;
pub mod text;

use crate::inline::inline_html;
use crate::render::{level_char, parse_block, render_block};
use crate::segment::{
    all_wf, block_wf, blocks_view, doc_lines, header_text, is_fence, is_header, is_rule, lemma_hash_end,
    lemma_run_code, run, segment, split_blocks, step, trimmed_lines, ws_end, BlockModel,
    OpenModel,
};
use crate::text::{
    chars_of, is_ws, join, join_exec, lemma_join_split, lemma_split_on_concat,
    lemma_split_on_single, nl, split_on, string_of, trim_end, views,
};

verus! {

/// The HTML fragment of a document: its blocks rendered, one after another,
/// with a line break between neighbours and after the last.
pub open spec fn markdown_html(doc: Seq<char>) -> Seq<char> {
    join(segment(doc).map_values(|b: BlockModel| render_block(b)), nl()) + nl()
}

/// Converts a document to an HTML fragment. Never fails; the fragment ends
/// with a line break.
pub fn markdown_to_html(markdown: &str) -> (r: String)
    ensures
        r@ == markdown_html(markdown@),
        r@.len() > 0 && r@.last() == '\n',
{
    let doc = chars_of(markdown);
    let blocks = split_blocks(&doc);
    let ghost rendered = segment(doc@).map_values(|b: BlockModel| render_block(b));
    let mut parts: Vec<Vec<char>> = Vec::new();
    let mut k: usize = 0;
    assert(views(parts@) =~= rendered.subrange(0, 0));
    while k < blocks.len()
        invariant
            k <= blocks.len(),
            blocks_view(blocks@) == segment(doc@),
            all_wf(blocks_view(blocks@)),
            rendered == segment(doc@).map_values(|b: BlockModel| render_block(b)),
            views(parts@) == rendered.subrange(0, k as int),
        decreases blocks.len() - k,
    {
        assert(block_wf(blocks_view(blocks@)[k as int]));
        let h = parse_block(&blocks[k]);
        let ghost before = views(parts@);
        parts.push(h);
        assert(blocks_view(blocks@)[k as int] == blocks@[k as int]@);
        assert(views(parts@) =~= before.push(h@));
        assert(rendered[k as int] == h@);
        k = k + 1;
        assert(views(parts@) =~= rendered.subrange(0, k as int));
    }
    assert(rendered.subrange(0, k as int) =~= rendered);
    let sep = chars_of("\n");
    proof {
        reveal_strlit("\n");
        assert(sep@ =~= nl());
    }
    let mut out = join_exec(&parts, &sep);
    out.push('\n');
    assert(out@ =~= markdown_html(doc@));
    string_of(&out)
}

/// Converting is a function of the document alone: two conversions of the
/// same text give the same fragment, byte for byte.
pub proof fn conversion_is_pure(doc: Seq<char>, r1: Seq<char>, r2: Seq<char>)
    requires
        r1 == markdown_html(doc),
        r2 == markdown_html(doc),
    ensures
        r1 == r2,
{
}


/// A line of three or more hyphens and nothing else is a horizontal rule.
pub proof fn hyphen_run_is_rule(n: nat)
    requires
        n >= 3,
    ensures
        markdown_html(Seq::new(n, |_i: int| '-')) == "<hr>\n"@,
{
    let s = Seq::new(n, |_i: int| '-');
    assert(!s.contains('\n')) by {
        if s.contains('\n') {
            let k = choose|k: int| 0 <= k < s.len() && s[k] == '\n';
            assert(s[k] == '-');
        }
    }
    lemma_split_on_single(s, '\n');
    assert(!is_ws('-'));
    assert(trim_end(s) == s);
    assert(trimmed_lines(s) =~= seq![s]);
    assert(seq![s].drop_last() =~= Seq::<Seq<char>>::empty());
    reveal_strlit("```");
    assert(!is_fence(s)) by {
        if is_fence(s) {
            assert(s.subrange(0, 3)[0] == '`');
        }
    }
    assert(is_rule(s));
    assert(run(Seq::<Seq<char>>::empty()) == (Seq::<BlockModel>::empty(), None::<OpenModel>));
    assert(run(seq![s]) == step(run(seq![s].drop_last()), seq![s].last()));
    assert(Seq::<BlockModel>::empty().push(BlockModel::Hr) =~= seq![BlockModel::Hr]);
    assert(run(seq![s]) == (seq![BlockModel::Hr], None::<OpenModel>));
    assert(segment(s) == seq![BlockModel::Hr]);
    reveal_strlit("<hr>");
    reveal_strlit("<hr>\n");
    assert(seq![BlockModel::Hr].map_values(|b: BlockModel| render_block(b)) =~= seq!["<hr>"@]);
    assert(markdown_html(s) =~= "<hr>\n"@);
}

/// Text between an opening and a closing fence comes out verbatim inside
/// `<pre><code>`, whatever markup it holds, provided that none of its lines
/// is a fence or ends in whitespace (lines lose trailing whitespace before
/// they are read).
pub proof fn fenced_text_is_verbatim(body: Seq<char>)
    requires
        forall|k: int|
            0 <= k < split_on(body, '\n').len() ==> !is_fence(#[trigger] split_on(body, '\n')[k])
                && trim_end(split_on(body, '\n')[k]) == split_on(body, '\n')[k],
    ensures
        markdown_html("```\n"@ + body + "\n```"@) == "<pre><code>"@ + body + "</code></pre>\n"@,
{
    reveal_strlit("```");
    reveal_strlit("```\n");
    reveal_strlit("\n```");
    let f = "```"@;
    let doc = "```\n"@ + body + "\n```"@;
    let ls = split_on(body, '\n');
    assert(doc =~= f + seq!['\n'] + (body + seq!['\n'] + f));
    lemma_split_on_concat(f, body + seq!['\n'] + f, '\n');
    lemma_split_on_concat(body, f, '\n');
    assert(!f.contains('\n')) by {
        if f.contains('\n') {
            let k = choose|k: int| 0 <= k < f.len() && f[k] == '\n';
        }
    }
    lemma_split_on_single(f, '\n');
    let lines = seq![f] + ls + seq![f];
    assert(split_on(doc, '\n') == lines);
    assert(doc_lines(doc) == lines);
    assert(!is_ws('`'));
    assert(trim_end(f) == f);
    assert(trimmed_lines(doc) =~= lines);
    assert(is_fence(f)) by {
        assert(f.subrange(0, 3) =~= f);
    }
    lemma_run_code(f, ls, ls.len() as int);
    assert(ls.subrange(0, ls.len() as int) =~= ls);
    assert(lines.drop_last() =~= seq![f] + ls);
    lemma_join_split(body, '\n');
    assert(join(ls, nl()) == body);
    assert(run(lines) == (seq![BlockModel::Code(body)], None::<OpenModel>));
    assert(segment(doc) == seq![BlockModel::Code(body)]);
    reveal_strlit("<pre><code>");
    reveal_strlit("</code></pre>");
    reveal_strlit("</code></pre>\n");
    assert(seq![BlockModel::Code(body)].map_values(|b: BlockModel| render_block(b)) =~= seq![
        "<pre><code>"@ + body + "</code></pre>"@,
    ]);
    assert(markdown_html(doc) =~= "<pre><code>"@ + body + "</code></pre>\n"@);
}


/// One to six `#`, a space and a text make a header of that level around the
/// inline rendering of the text (here a text on one line that neither starts
/// nor ends with whitespace).
pub proof fn hashes_make_a_header(n: nat, t: Seq<char>)
    requires
        1 <= n <= 6,
        t.len() > 0,
        !t.contains('\n'),
        !is_ws(t[0]),
        !is_ws(t.last()),
    ensures
        markdown_html(Seq::new(n, |_i: int| '#') + " "@ + t) == "<h"@ + seq![level_char(n as int)]
            + ">"@ + inline_html(t) + "</h"@ + seq![level_char(n as int)] + ">\n"@,
{
    reveal_strlit(" ");
    let h = Seq::new(n, |_i: int| '#');
    let s = h + " "@ + t;
    assert(s.len() == n + 1 + t.len());
    assert(forall|k: int| 0 <= k < n ==> s[k] == '#');
    assert(s[n as int] == ' ');
    assert(forall|k: int| 0 <= k < t.len() ==> s[n + 1 + k] == t[k]);
    assert(!s.contains('\n')) by {
        if s.contains('\n') {
            let k = choose|k: int| 0 <= k < s.len() && s[k] == '\n';
            if k > n {
                assert(t[k - n - 1] == '\n');
            }
        }
    }
    lemma_split_on_single(s, '\n');
    assert(s.last() == t.last());
    assert(trim_end(s) == s);
    assert(trimmed_lines(s) =~= seq![s]);
    assert(seq![s].drop_last() =~= Seq::<Seq<char>>::empty());
    reveal_strlit("```");
    assert(!is_fence(s)) by {
        if is_fence(s) {
            assert(s.subrange(0, 3)[0] == '`');
        }
    }
    assert(!is_rule(s)) by {
        if is_rule(s) {
            assert(s[0] == '-');
        }
    }
    lemma_hash_end(s, 0, n as int);
    assert(is_ws(' '));
    assert(is_header(s));
    assert(ws_end(s, (n + 1) as int) == n + 1);
    assert(ws_end(s, n as int) == n + 1);
    assert(header_text(s) =~= t);
    assert(run(Seq::<Seq<char>>::empty()) == (Seq::<BlockModel>::empty(), None::<OpenModel>));
    assert(run(seq![s]) == step(run(seq![s].drop_last()), seq![s].last()));
    let hb = BlockModel::Header(n as int, t);
    assert(Seq::<BlockModel>::empty().push(hb) =~= seq![hb]);
    assert(run(seq![s]) == (seq![hb], None::<OpenModel>));
    assert(segment(s) == seq![hb]);
    assert(seq![hb].map_values(|b: BlockModel| render_block(b)) =~= seq![render_block(hb)]);
    reveal_strlit(">");
    reveal_strlit(">\n");
    assert(markdown_html(s) =~= "<h"@ + seq![level_char(n as int)] + ">"@ + inline_html(t) + "</h"@
        + seq![level_char(n as int)] + ">\n"@);
}

} // verus!
