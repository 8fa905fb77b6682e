use chronos::report_assets::{get_css_styles, get_javascript};

#[test]
fn assets_are_the_same_text_on_every_call() {
    assert_eq!(get_css_styles(), get_css_styles());
    assert_eq!(get_javascript(), get_javascript());
    assert!(!get_css_styles().is_empty());
    assert!(!get_javascript().is_empty());
}

#[test]
fn css_styles_cover_the_event_categories() {
    let css = get_css_styles();
    assert!(css.contains(".timeline-table"));
    assert!(css.contains(".file-creation"));
    assert!(css.contains(".program-execution"));
}

#[test]
fn javascript_sorts_the_timeline_table() {
    let js = get_javascript();
    assert!(js.contains("timeline-table"));
    assert!(js.contains("sortTable"));
}
