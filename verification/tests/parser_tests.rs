use lifetime_svg::parser::Lifetime;
use lifetime_svg::parser::ParseError;
use lifetime_svg::parser::find_lifetimes;

fn lines(v: &[&str]) -> Vec<String> {
    v.iter().map(|s| s.to_string()).collect()
}

#[test]
fn two_nested_spans_resolve_in_close_order() {
    let mut code = lines(&[
        "let r;         // -------\\ Lifetime of `r`",
        "let x = 5; // -\\ Lifetime of `b`",
        "r = &x;",
        "               // -/",
        "               // -------/",
    ]);
    let spans = find_lifetimes(&mut code).unwrap();
    assert_eq!(code.len(), 5);
    assert_eq!(
        code,
        lines(&[
            "let r;         ",
            "let x = 5; ",
            "r = &x;",
            "               ",
            "               ",
        ])
    );
    assert_eq!(spans.len(), 2);
    // the width-1 span closed first, so it is enumerated first
    assert_eq!(
        spans[0],
        Lifetime { starting_line: 1, ending_line: 3, comment: "Lifetime of `b`".to_string() }
    );
    assert_eq!(
        spans[1],
        Lifetime { starting_line: 0, ending_line: 4, comment: "Lifetime of `r`".to_string() }
    );
}

#[test]
fn paired_annotations_give_one_span_each() {
    let mut code = lines(&["a // -\\ one", "b", "c // -/", "d // --\\ two", "e // --/"]);
    let spans = find_lifetimes(&mut code).unwrap();
    assert_eq!(spans.len(), 2);
    assert_eq!(code.len(), 5);
}

#[test]
fn stripping_is_idempotent() {
    let mut code = lines(&["a // -\\ one", "b", "c // -/"]);
    let spans = find_lifetimes(&mut code).unwrap();
    assert_eq!(spans.len(), 1);
    let cleaned = code.clone();
    let again = find_lifetimes(&mut code).unwrap();
    assert_eq!(again.len(), 0);
    assert_eq!(code, cleaned);
}

#[test]
fn reused_width_while_open_is_a_conflict() {
    let mut code = lines(&["// ---\\ a", "// ---\\ b"]);
    let err = find_lifetimes(&mut code).unwrap_err();
    assert_eq!(err, ParseError::AlreadyOpen { width: 3, opened_line: 0, line: 1 });
    // the buffer is untouched on failure
    assert_eq!(code, lines(&["// ---\\ a", "// ---\\ b"]));
}

#[test]
fn close_without_open_is_an_error() {
    let mut code = lines(&["// -/"]);
    let err = find_lifetimes(&mut code).unwrap_err();
    assert_eq!(err, ParseError::NotOpened { width: 1, line: 0 });
}

#[test]
fn interleaved_widths_all_succeed() {
    let mut code = lines(&["p // -\\ one", "q // --\\ two", "r // -/", "s // --/"]);
    let spans = find_lifetimes(&mut code).unwrap();
    assert_eq!(spans.len(), 2);
    // close order: width 1 at row 2, then width 2 at row 3
    assert_eq!(spans[0].ending_line, 2);
    assert_eq!(spans[0].starting_line, 0);
    assert_eq!(spans[1].ending_line, 3);
    assert_eq!(spans[1].starting_line, 1);
}

#[test]
fn width_may_be_reused_after_close() {
    let mut code = lines(&["a // -\\ first", "b // -/", "c // -\\ second", "d // -/"]);
    let spans = find_lifetimes(&mut code).unwrap();
    assert_eq!(spans.len(), 2);
    assert_eq!(spans[0].comment, "first");
    assert_eq!(spans[1].comment, "second");
}

#[test]
fn unterminated_open_is_dropped_silently() {
    let mut code = lines(&["a // -\\ dangling", "b"]);
    let spans = find_lifetimes(&mut code).unwrap();
    assert_eq!(spans.len(), 0);
    assert_eq!(code, lines(&["a ", "b"]));
}

#[test]
fn last_annotation_token_wins() {
    // the code prefix is greedy: the match is at the last `// ` token
    let mut code = lines(&["x // -\\ a // --\\ y", "z // --/"]);
    let spans = find_lifetimes(&mut code).unwrap();
    assert_eq!(spans.len(), 1);
    assert_eq!(spans[0].comment, "y");
    assert_eq!(code[0], "x // -\\ a ");
}

#[test]
fn label_keeps_text_after_optional_space() {
    let mut code = lines(&["f // --\\  two spaces", "g // --/"]);
    let spans = find_lifetimes(&mut code).unwrap();
    // exactly one space after the glyph is consumed
    assert_eq!(spans[0].comment, " two spaces");
}

#[test]
fn non_annotation_comments_are_kept() {
    let mut code = lines(&["// just a comment", "x // - not an annotation", "// -x/"]);
    let spans = find_lifetimes(&mut code).unwrap();
    assert_eq!(spans.len(), 0);
    assert_eq!(
        code,
        lines(&["// just a comment", "x // - not an annotation", "// -x/"])
    );
}

#[test]
fn conflict_message_names_width_and_both_rows() {
    let e = ParseError::AlreadyOpen { width: 3, opened_line: 0, line: 1 };
    assert_eq!(
        e.message(),
        "Lifetime of width 3 from line 0 not finished before it is started again on line 1"
    );
}

#[test]
fn unmatched_close_message_names_width_and_its_row() {
    let e = ParseError::NotOpened { width: 14, line: 12 };
    assert_eq!(e.message(), "Ending lifetime of width 14 on line 12 wasn't started");
}
