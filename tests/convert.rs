use mdconvert::inline::inline_parse;
use mdconvert::markdown_to_html;
use mdconvert::render::parse_table_row;

fn chars(s: &str) -> Vec<char> {
    s.chars().collect()
}

fn count(hay: &str, needle: &str) -> usize {
    hay.matches(needle).count()
}

#[test]
fn header_levels_one_to_six() {
    for n in 1..=6 {
        let input = format!("{} T", "#".repeat(n));
        assert_eq!(markdown_to_html(&input), format!("<h{}>T</h{}>\n", n, n));
    }
}

#[test]
fn seven_hashes_is_a_paragraph() {
    assert_eq!(markdown_to_html("####### T"), "<p>####### T</p>\n");
}

#[test]
fn header_needs_whitespace_and_skips_all_of_it() {
    assert_eq!(markdown_to_html("#T"), "<p>#T</p>\n");
    assert_eq!(markdown_to_html("##   T"), "<h2>T</h2>\n");
    assert_eq!(markdown_to_html("# T  "), "<h1>T</h1>\n");
}

#[test]
fn horizontal_rule() {
    assert_eq!(markdown_to_html("---"), "<hr>\n");
    assert_eq!(markdown_to_html("-----"), "<hr>\n");
}

#[test]
fn two_hyphens_are_a_paragraph() {
    assert_eq!(markdown_to_html("--"), "<p>-</p>\n");
}

#[test]
fn list_nesting() {
    let out = markdown_to_html("- a\n  - b\n- c");
    assert_eq!(
        out,
        "<ul>\n<li>a\n  <ul>\n  <li>b\n  </li>\n  </ul>\n</li>\n<li>c\n</li>\n</ul>\n"
    );
    assert_eq!(count(&out, "<ul>"), 1 + 1);
    assert_eq!(count(&out, "<ul>"), count(&out, "</ul>"));
    assert_eq!(count(&out, "<li>"), count(&out, "</li>"));
}

#[test]
fn list_level_jump_opens_every_level() {
    let out = markdown_to_html("- a\n    - b\n  - c");
    assert_eq!(
        out,
        "<ul>\n<li>a\n  <ul>\n    <ul>\n    <li>b\n    </li>\n    </ul>\n  <li>c\n  </li>\n  </ul>\n</li>\n</ul>\n"
    );
    assert_eq!(count(&out, "<ul>"), count(&out, "</ul>"));
    assert_eq!(count(&out, "<li>"), 3);
    assert_eq!(count(&out, "</li>"), 3);
}

#[test]
fn list_dedent_past_a_jumped_level() {
    let out = markdown_to_html("        - a\n- b\n    - c");
    assert_eq!(
        out,
        "<ul>\n  <ul>\n    <ul>\n    <li>a\n    </li>\n    </ul>\n  </ul>\n<li>b\n  <ul>\n  <li>c\n  </li>\n  </ul>\n</li>\n</ul>\n"
    );
    assert_eq!(count(&out, "<ul>"), count(&out, "</ul>"));
    assert_eq!(count(&out, "<li>"), 3);
    assert_eq!(count(&out, "</li>"), 3);
}

#[test]
fn list_then_paragraph() {
    assert_eq!(markdown_to_html("- a\nb"), "<ul>\n<li>a\n</li>\n</ul>\n<p>b</p>\n");
}

#[test]
fn table_fallback_on_mismatched_separator() {
    assert_eq!(
        markdown_to_html("| a | b |\n| --- |"),
        "<p>| a | b |\n| -- |</p>\n"
    );
}

#[test]
fn table_fallback_on_mismatched_body_row() {
    assert_eq!(
        markdown_to_html("| a | b |\n|---|---|\n| 1 |"),
        "<p>| a | b |\n|--|--|\n| 1 |</p>\n"
    );
}

#[test]
fn table_with_body() {
    assert_eq!(
        markdown_to_html("| a | b |\n|---|---|\n| 1 | 2 |"),
        "<table>\n  <thead>\n    <tr>\n      <th>a</th>\n      <th>b</th>\n    </tr>\n  </thead>\n  <tbody>\n    <tr>\n      <td>1</td>\n      <td>2</td>\n    </tr>\n  </tbody>\n</table>\n"
    );
}

#[test]
fn table_without_body() {
    assert_eq!(
        markdown_to_html("a | b\n--- | :---:"),
        "<table>\n  <thead>\n    <tr>\n      <th>a</th>\n      <th>b</th>\n    </tr>\n  </thead>\n</table>\n"
    );
}

#[test]
fn table_row_cells() {
    let cells = parse_table_row(&chars("| a |  b | |"));
    assert_eq!(cells, vec![chars("a"), chars("b")]);
    assert_eq!(parse_table_row(&chars("| a || b |")), vec![chars("a"), chars(""), chars("b")]);
    assert!(parse_table_row(&chars("no pipe")).is_empty());
}

#[test]
fn inline_bold_before_italic() {
    assert_eq!(markdown_to_html("**a*b*c**"), "<p><strong>a<em>b</em>c</strong></p>\n");
}

#[test]
fn code_fence_is_verbatim() {
    assert_eq!(
        markdown_to_html("```\n**not bold**\n```"),
        "<pre><code>**not bold**</code></pre>\n"
    );
}

#[test]
fn code_fence_keeps_empty_lines() {
    assert_eq!(markdown_to_html("```\na\n\nb\n```"), "<pre><code>a\n\nb</code></pre>\n");
}

#[test]
fn unterminated_fence_is_kept_at_end() {
    assert_eq!(markdown_to_html("```\nx\ny"), "<pre><code>x\ny</code></pre>\n");
}

#[test]
fn fence_drops_open_list() {
    assert_eq!(markdown_to_html("- a\n```\ncode\n```"), "<pre><code>code</code></pre>\n");
}

#[test]
fn empty_document() {
    assert_eq!(markdown_to_html(""), "\n");
    assert_eq!(markdown_to_html("\n\n  \n"), "\n");
}

#[test]
fn paragraphs_split_on_empty_lines() {
    assert_eq!(markdown_to_html("a\nb\n\nc"), "<p>a\nb</p>\n<p>c</p>\n");
    assert_eq!(markdown_to_html("a\r\nb"), "<p>a\nb</p>\n");
}

#[test]
fn header_closes_paragraph() {
    assert_eq!(markdown_to_html("p\n# H"), "<p>p</p>\n<h1>H</h1>\n");
}

#[test]
fn link_and_unsized_image() {
    assert_eq!(
        markdown_to_html("[x](http://e.com)"),
        "<p><a href=\"http://e.com\">x</a></p>\n"
    );
    assert_eq!(markdown_to_html("![alt](p.png)"), "<p><img src=\"p.png\"alt=\"alt\"></p>\n");
}

#[test]
fn sized_image() {
    assert_eq!(
        markdown_to_html("![alt](p.png){width=100 height=50}"),
        "<p><img src=\"p.png\" alt=\"alt\" width=\"100\" height=\"50\"></p>\n"
    );
    assert_eq!(
        markdown_to_html("![alt](p.png){width=7}"),
        "<p><img src=\"p.png\" alt=\"alt\" width=\"7\"></p>\n"
    );
    assert_eq!(
        markdown_to_html("![alt](p.png){big}"),
        "<p><img src=\"p.png\" alt=\"alt\"></p>\n"
    );
}

#[test]
fn escaped_line_break() {
    assert_eq!(markdown_to_html("a\\\nb"), "<p>a<br>\nb</p>\n");
}

#[test]
fn strike_and_inline_code() {
    assert_eq!(markdown_to_html("~~x~~ `y`"), "<p><s>x</s> <code>y</code></p>\n");
}

#[test]
fn double_hyphens_collapse() {
    assert_eq!(markdown_to_html("a--b"), "<p>a-b</p>\n");
    assert_eq!(markdown_to_html("a---b"), "<p>a--b</p>\n");
}

#[test]
fn unbalanced_delimiters_stay() {
    assert_eq!(markdown_to_html("*a"), "<p>*a</p>\n");
    assert_eq!(markdown_to_html("**a\nb**"), "<p>**a\nb**</p>\n");
}

#[test]
fn inline_span_ends_at_first_close() {
    let out: String = inline_parse(&chars("*a* b *c*")).into_iter().collect();
    assert_eq!(out, "<em>a</em> b <em>c</em>");
}

#[test]
fn conversion_is_repeatable() {
    let doc = "# T\n\n- a\n  - b\n\n| a |\n|---|\n| 1 |\n\n```\nx\n```";
    assert_eq!(markdown_to_html(doc), markdown_to_html(doc));
}

#[test]
fn sized_image_reads_any_decimal_digits() {
    assert_eq!(
        markdown_to_html("![a](p.png){width=\u{661}\u{662}}"),
        "<p><img src=\"p.png\" alt=\"a\" width=\"\u{661}\u{662}\"></p>\n"
    );
}
