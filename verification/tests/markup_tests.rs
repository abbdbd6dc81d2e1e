use lifetime_svg::markup::markup_runs;
use lifetime_svg::markup::markup_to_svg;

#[test]
fn plain_text_passes_through() {
    assert_eq!(markup_to_svg("hello world"), "hello world");
    assert_eq!(markup_to_svg(""), "");
}

#[test]
fn bold_and_code_render_as_tspans() {
    assert_eq!(
        markup_to_svg("*Hello* `world!`"),
        "<tspan class=\"m_bold   \">Hello</tspan> <tspan class=\"   m_code\">world!</tspan>"
    );
}

#[test]
fn overlapping_toggles_stay_flat() {
    assert_eq!(
        markup_to_svg("*foo _bar* baz_"),
        "<tspan class=\"m_bold   \">foo </tspan><tspan class=\"m_bold m_underline  \">bar</tspan><tspan class=\" m_underline  \"> baz</tspan>"
    );
}

#[test]
fn three_flat_runs_from_interleaved_markup() {
    let runs = markup_runs("*foo_bar*baz_");
    assert_eq!(runs.len(), 3);
    assert_eq!(runs[0].text, "foo");
    assert!(runs[0].styles.bold);
    assert!(!runs[0].styles.underline);
    assert!(!runs[0].styles.italic);
    assert!(!runs[0].styles.code);
    assert_eq!(runs[1].text, "bar");
    assert!(runs[1].styles.bold);
    assert!(runs[1].styles.underline);
    assert!(!runs[1].styles.italic);
    assert!(!runs[1].styles.code);
    assert_eq!(runs[2].text, "baz");
    assert!(!runs[2].styles.bold);
    assert!(runs[2].styles.underline);
    assert!(!runs[2].styles.italic);
    assert!(!runs[2].styles.code);
}

#[test]
fn trailing_open_style_is_closed_structurally() {
    assert_eq!(markup_to_svg("*bold"), "<tspan class=\"m_bold   \">bold</tspan>");
}

#[test]
fn backslash_escapes_delimiters() {
    assert_eq!(markup_to_svg("a\\*b"), "a*b");
    assert_eq!(markup_to_svg("a\\\\b"), "a\\b");
}

#[test]
fn italic_and_underline_classes() {
    assert_eq!(
        markup_to_svg("/i/_u_"),
        "<tspan class=\"  m_italic \">i</tspan><tspan class=\" m_underline  \">u</tspan>"
    );
}
