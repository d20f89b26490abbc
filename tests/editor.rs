use mdconvert::editor::{immediate_update, on_edit, on_timer, page_html, Edit, Reaction, Timer};
use mdconvert::markdown_to_html;

#[test]
fn list_marker_line_updates_at_once() {
    assert!(immediate_update("  - item", "m"));
    assert!(immediate_update("+ x", "x"));
    assert!(immediate_update("\t* x", "x"));
    assert!(!immediate_update("plain", "n"));
}

#[test]
fn markup_insertion_updates_at_once() {
    assert!(immediate_update("a b", "#"));
    assert!(immediate_update("a b", "x`y"));
    assert!(!immediate_update("a b", "xyz"));
}

#[test]
fn plain_insert_schedules_a_render() {
    assert_eq!(
        on_edit(false, Edit::Insert { immediate: false }),
        Reaction { render_now: false, pending: true, timer: Some(Timer { delay_ms: 200, render: true }) }
    );
    assert_eq!(
        on_edit(true, Edit::Delete),
        Reaction { render_now: false, pending: true, timer: None }
    );
}

#[test]
fn immediate_insert_renders_and_keeps_pending() {
    assert_eq!(
        on_edit(true, Edit::Insert { immediate: true }),
        Reaction { render_now: true, pending: true, timer: None }
    );
}

#[test]
fn change_renders_then_settles() {
    assert_eq!(
        on_edit(false, Edit::Change),
        Reaction { render_now: true, pending: true, timer: Some(Timer { delay_ms: 20, render: false }) }
    );
    assert_eq!(
        on_timer(Timer { delay_ms: 200, render: true }),
        Reaction { render_now: true, pending: false, timer: None }
    );
}

#[test]
fn page_indents_non_blank_lines() {
    let frag = markdown_to_html("# T\n\nx");
    assert_eq!(page_html("<body>\n{}\n</body>", &frag), "<body>\n    <h1>T</h1>\n    <p>x</p>\n</body>");
    assert_eq!(page_html("a{}b{}", "x\n\ny\r\n"), "a    x\n\n    yb    x\n\n    y");
    assert_eq!(page_html("<p>{}</p>", ""), "<p></p>");
}
