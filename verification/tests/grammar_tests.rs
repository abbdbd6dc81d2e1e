use lifetime_svg::grammar::match_annotation;

#[test]
fn open_annotation_is_split_into_parts() {
    let a = match_annotation("let x = 5; // --\\ two dashes").unwrap();
    assert_eq!(a.prefix, "let x = 5; ");
    assert_eq!(a.width, 2);
    assert!(a.is_open);
    assert_eq!(a.label, "two dashes");
}

#[test]
fn close_annotation_may_have_no_label() {
    let a = match_annotation("   // ----/").unwrap();
    assert_eq!(a.prefix, "   ");
    assert_eq!(a.width, 4);
    assert!(!a.is_open);
    assert_eq!(a.label, "");
}

#[test]
fn only_one_space_is_consumed_before_the_label() {
    let a = match_annotation("// -\\   spaced").unwrap();
    assert_eq!(a.label, "  spaced");
}

#[test]
fn lines_without_the_token_do_not_match() {
    assert!(match_annotation("let x = 5;").is_none());
    assert!(match_annotation("// a comment").is_none());
    assert!(match_annotation("// -x no glyph").is_none());
    assert!(match_annotation("//-\\ no space after slashes").is_none());
}

#[test]
fn the_last_token_on_the_line_wins() {
    let a = match_annotation("a // -\\ b // --/ c").unwrap();
    assert_eq!(a.prefix, "a // -\\ b ");
    assert_eq!(a.width, 2);
    assert!(!a.is_open);
    assert_eq!(a.label, "c");
}
