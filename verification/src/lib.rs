//! Turns source-code text carrying paired "lifetime" annotation comments into
//! an SVG diagram: each annotated span of rows is bracketed by a polyline in a
//! gutter right of the code, labelled with lightly formatted text.
//!
//! The pipeline has three stages: the annotation parser recognises and strips
//! `// ---\ label` / `// ---/` suffixes and pairs them by dash-run width; the
//! inline markup formatter turns label text into flat style runs; the renderer
//! lays the cleaned rows out as fixed-height lines and computes the bracket
//! geometry, handing the finished element list to the `svg` crate for
//! serialization.

use vstd::prelude::*;

pub mod escape;
pub mod grammar;
pub mod laws;
pub mod lines;
pub mod markup;
pub mod parser;
pub mod render;
pub mod strutil;
pub mod svgdoc;

verus! {

/// The input sizes the renderer can lay out: every coordinate the document
/// needs stays within the range its encoding carries exactly.
pub open spec fn input_fits(s: Seq<char>) -> bool {
    20 * (s.len() + 1) + 400 <= 0x100_0000
}

/// Whether an input document is small enough for the pipeline.
pub fn input_within_limits(text: &str) -> (b: bool)
    ensures
        b == input_fits(text@),
{
    let n = text.unicode_len();
    n <= 838839
}

/// Runs the whole pipeline on one input document: split it into lines, parse
/// and strip the span annotations, and render the cleaned code with its span
/// brackets as an SVG document. A malformed input yields the parse error and
/// no document.
pub fn lifetimes_to_svg(input: &str) -> (r: Result<String, parser::ParseError>)
    requires
        input_fits(input@),
    ensures
        match r {
            Ok(s) => {
                &&& parser::parse_spec(lines::split_lines_spec(input@)) is Ok
                &&& s@ == svgdoc::svg_doc_text(
                    render::document_elems(
                        parser::parse_spec(lines::split_lines_spec(input@))->Ok_0.cleaned,
                        parser::parse_spec(lines::split_lines_spec(input@))->Ok_0.done,
                    ),
                )
            },
            Err(e) => parser::parse_spec(lines::split_lines_spec(input@))
                == Err::<parser::ParseSt, parser::ParseErrV>(e.deep_view()),
        },
{
    let ghost linesv = lines::split_lines_spec(input@);
    let mut code = lines::split_lines(input);
    proof {
        lines::lemma_split_lines_count(input@);
    }
    match parser::find_lifetimes(&mut code) {
        Err(e) => Err(e),
        Ok(lts) => {
            proof {
                laws::lemma_parse_counts(linesv);
                laws::lemma_spans_in_close_order(linesv);
                laws::lemma_close_count_bound(linesv, linesv.len() as int);
                assert(code.deep_view().len() == code@.len());
                assert(lts.deep_view().len() == lts@.len());
                assert forall|k: int|
                    0 <= k < lts@.len() implies (#[trigger] lts@[k]).starting_line * 20 + 25
                    <= 0x100_0000 && lts@[k].ending_line * 20 + 30 <= 0x100_0000 by {
                    assert(lts.deep_view()[k] == lts@[k].deep_view());
                    assert(lts.deep_view()[k].ending_line < linesv.len());
                    assert(lts.deep_view()[k].starting_line < lts.deep_view()[k].ending_line);
                }
            }
            let svg_text = render::generate_svg(&code, &lts);
            Ok(svg_text)
        },
    }
}

} // verus!
