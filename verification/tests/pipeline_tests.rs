use lifetime_svg::escape::xml_escape;
use lifetime_svg::input_within_limits;
use lifetime_svg::lifetimes_to_svg;
use lifetime_svg::lines::split_lines;
use lifetime_svg::parser::ParseError;
use lifetime_svg::parser::find_lifetimes;
use lifetime_svg::render::generate_svg;

#[test]
fn split_lines_handles_both_line_endings() {
    let v = split_lines("a\nb\r\nc");
    assert_eq!(v, vec!["a".to_string(), "b".to_string(), "c".to_string()]);
    assert_eq!(split_lines("a\n"), vec!["a".to_string()]);
    assert_eq!(split_lines(""), Vec::<String>::new());
    assert_eq!(split_lines("\n"), vec!["".to_string()]);
}

#[test]
fn xml_escape_rewrites_markup_characters() {
    assert_eq!(xml_escape("r = &x;"), "r = &amp;x;");
    assert_eq!(xml_escape("a < b > c"), "a &lt; b &gt; c");
    assert_eq!(xml_escape("plain"), "plain");
}

#[test]
fn input_limit_accepts_ordinary_documents() {
    assert!(input_within_limits("let r;\nlet x = 5;\n"));
}

#[test]
fn pipeline_renders_full_document() {
    let input = "let r;         // -------\\ Lifetime of `r`\nlet x = 5; // -\\ Lifetime of `b`\nr = &x;\n               // -/\n               // -------/\n";
    let svg = lifetimes_to_svg(input).unwrap();
    // the document opens with the svg root and holds the stylesheet
    assert!(svg.starts_with("<svg"));
    assert!(svg.contains("<![CDATA["));
    assert!(svg.contains(".m_bold"));
    // every code row appears, with markup characters escaped
    assert!(svg.contains("\nlet r;"));
    assert!(svg.contains("\nr = &amp;x;"));
    // labels go through the inline formatter
    assert!(svg.contains("Lifetime of <tspan class=\"   m_code\">r</tspan>"));
    assert!(svg.contains("Lifetime of <tspan class=\"   m_code\">b</tspan>"));
    // the two labels fan out by their enumeration index
    assert!(svg.contains("x=\"390\""));
    assert!(svg.contains("x=\"410\""));
    // one bracket path per span
    assert_eq!(svg.matches("<path").count(), 2);
    // code rows sit at 20-unit steps
    assert!(svg.contains("y=\"20\""));
    assert!(svg.contains("y=\"100\""));
}

#[test]
fn pipeline_reports_conflicts_instead_of_rendering() {
    let input = "// ---\\ a\n// ---\\ b\n";
    let err = lifetimes_to_svg(input).unwrap_err();
    assert_eq!(err, ParseError::AlreadyOpen { width: 3, opened_line: 0, line: 1 });
}

#[test]
fn renderer_emits_one_text_element_per_row() {
    let mut code = vec!["a".to_string(), "".to_string(), "c".to_string()];
    let spans = find_lifetimes(&mut code).unwrap();
    assert!(spans.is_empty());
    let svg = generate_svg(&code, &spans);
    // blank rows are kept so that text selection stays contiguous
    assert_eq!(svg.matches("<text").count(), 3);
    assert!(svg.contains("y=\"40\""));
    assert!(svg.contains("y=\"60\""));
}
