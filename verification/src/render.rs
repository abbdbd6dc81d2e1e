//! The renderer. Code rows become fixed-height text elements; each resolved
//! span becomes one bracket polyline and one formatted label, fanned out
//! horizontally by the span's index in the completed-spans order so that
//! concurrently drawn brackets do not overlap. Rows are 20 units high, code
//! sits at the horizontal origin, the bracket's vertical segments stand in a
//! gutter at x = 150, and the bracket reaches out to x = 380 plus 20 units
//! per span index.

use vstd::prelude::*;

use crate::escape;
use crate::markup;
use crate::parser::Lifetime;
use crate::parser::LifetimeV;
use crate::svgdoc;

verus! {

/// One drawing command of a bracket polyline.
pub enum PathCmdV {
    MoveTo { x: nat, y: nat },
    LineTo { x: nat, y: nat },
}

/// One node of the finished document: the stylesheet block, a positioned
/// text element, or a bracket path.
pub enum ElemV {
    StyleDefs { css: Seq<char> },
    TextElem { x: nat, y: nat, class: Seq<char>, content: Seq<char> },
    PathElem { class: Seq<char>, cmds: Seq<PathCmdV> },
}

/// The stylesheet of every document: the text classes and the line style.
pub open spec fn css_text() -> Seq<char> {
    "<![CDATA[

.code {
    font-family: monospace;
    font-size: 16;
    white-space: pre;
    tab-size: 4;
}

.annotation {
    font-size: 16;
}

.m_code {
    font-family: monospace;
}

.m_italic {
    font-style: italic;
}

.m_underline {
    text-decoration: underline;
}

.m_bold {
    font-weight: bold;
}

.line {
    fill: none;
    stroke: black;
    stroke-width: 2;
    stroke-linecap: round;
    stroke-linejoin: round;
}

]]>"@
}

fn stylesheet() -> (r: &'static str)
    ensures
        r@ == css_text(),
{
    "<![CDATA[

.code {
    font-family: monospace;
    font-size: 16;
    white-space: pre;
    tab-size: 4;
}

.annotation {
    font-size: 16;
}

.m_code {
    font-family: monospace;
}

.m_italic {
    font-style: italic;
}

.m_underline {
    text-decoration: underline;
}

.m_bold {
    font-weight: bold;
}

.line {
    fill: none;
    stroke: black;
    stroke-width: 2;
    stroke-linecap: round;
    stroke-linejoin: round;
}

]]>"
}

/// The bracket polyline of the span at enumeration index `i`: a lead-in at
/// the opening row's middle, a drop to the label row, a reach out to the
/// label gutter and back, and a drop to just below the closing row.
pub open spec fn bracket_cmds(lt: LifetimeV, i: nat) -> Seq<PathCmdV> {
    let y0 = lt.starting_line * 20 + 10;
    let ym = (lt.starting_line + 1) * 20;
    let y1 = lt.ending_line * 20 + 30;
    let xm = 380 + 20 * i;
    let mx = (150 + xm) / 2;
    seq![
        PathCmdV::MoveTo { x: 150, y: y0 },
        PathCmdV::LineTo { x: mx, y: y0 },
        PathCmdV::LineTo { x: mx, y: ym },
        PathCmdV::LineTo { x: xm, y: ym },
        PathCmdV::LineTo { x: mx, y: ym },
        PathCmdV::LineTo { x: mx, y: y1 },
        PathCmdV::LineTo { x: 150, y: y1 },
    ]
}

/// The two nodes of the span at enumeration index `i`: its formatted label
/// and its bracket path.
pub open spec fn span_elems(lt: LifetimeV, i: nat) -> Seq<ElemV> {
    seq![
        ElemV::TextElem {
            x: 380 + 20 * i + 10,
            y: lt.starting_line * 20 + 10 + 15,
            class: "annotation"@,
            content: markup::markup_svg(lt.comment),
        },
        ElemV::PathElem { class: "line"@, cmds: bracket_cmds(lt, i) },
    ]
}

/// The text nodes of the first `i` code rows, blank rows included, each 20
/// units below the one before.
pub open spec fn code_elems(code: Seq<Seq<char>>, i: int) -> Seq<ElemV>
    decreases i,
{
    if i <= 0 {
        Seq::empty()
    } else {
        code_elems(code, i - 1).push(
            ElemV::TextElem {
                x: 0,
                y: ((i - 1) * 20 + 20) as nat,
                class: "code"@,
                content: escape::xml_escaped(code[i - 1]),
            },
        )
    }
}

/// The nodes of the first `i` spans, in enumeration order.
pub open spec fn spans_elems(spans: Seq<LifetimeV>, i: int) -> Seq<ElemV>
    decreases i,
{
    if i <= 0 {
        Seq::empty()
    } else {
        spans_elems(spans, i - 1) + span_elems(spans[i - 1], (i - 1) as nat)
    }
}

/// Every node of the finished document, in order: the stylesheet, one text
/// node per code row, then the label and bracket of each span.
pub open spec fn document_elems(code: Seq<Seq<char>>, spans: Seq<LifetimeV>) -> Seq<ElemV> {
    seq![ElemV::StyleDefs { css: css_text() }] + code_elems(code, code.len() as int)
        + spans_elems(spans, spans.len() as int)
}

proof fn lemma_code_elems_len(code: Seq<Seq<char>>, i: int)
    requires
        0 <= i,
    ensures
        code_elems(code, i).len() == i,
    decreases i,
{
    if i > 0 {
        lemma_code_elems_len(code, i - 1);
    }
}

proof fn lemma_spans_elems_len(spans: Seq<LifetimeV>, i: int)
    requires
        0 <= i,
    ensures
        spans_elems(spans, i).len() == 2 * i,
    decreases i,
{
    if i > 0 {
        lemma_spans_elems_len(spans, i - 1);
    }
}

/// The document holds exactly one stylesheet node, one text node per code
/// row, and one label with one bracket path per span.
pub proof fn lemma_document_shape(code: Seq<Seq<char>>, spans: Seq<LifetimeV>)
    ensures
        document_elems(code, spans).len() == 1 + code.len() + 2 * spans.len(),
{
    lemma_code_elems_len(code, code.len() as int);
    lemma_spans_elems_len(spans, spans.len() as int);
}

/// Renders the cleaned code rows and their resolved spans as a complete SVG
/// document. The bounds keep every coordinate within the range the document
/// encoding carries exactly.
pub fn generate_svg(code: &Vec<String>, lifetimes: &Vec<Lifetime>) -> (r: String)
    requires
        code@.len() * 20 + 20 <= usize::MAX,
        lifetimes@.len() * 20 + 390 <= 0x100_0000,
        forall|k: int|
            0 <= k < lifetimes@.len() ==> (#[trigger] lifetimes@[k]).starting_line * 20 + 25
                <= 0x100_0000 && lifetimes@[k].ending_line * 20 + 30 <= 0x100_0000,
    ensures
        r@ == svgdoc::svg_doc_text(document_elems(code.deep_view(), lifetimes.deep_view())),
{
    let ghost codev = code.deep_view();
    let ghost spansv = lifetimes.deep_view();
    let mut doc = svgdoc::new_document();
    svgdoc::append_style(&mut doc, stylesheet());
    let ghost head = seq![ElemV::StyleDefs { css: css_text() }];
    proof {
        assert(svgdoc::doc_nodes(doc) =~= head + code_elems(codev, 0));
    }
    let n = code.len();
    let mut row: usize = 0;
    while row < n
        invariant
            n == code@.len(),
            codev == code.deep_view(),
            head == seq![ElemV::StyleDefs { css: css_text() }],
            0 <= row <= n,
            code@.len() * 20 + 20 <= usize::MAX,
            svgdoc::doc_nodes(doc) == head + code_elems(codev, row as int),
        decreases n - row,
    {
        let esc = escape::xml_escape(code[row].as_str());
        svgdoc::append_text(&mut doc, 0, row * 20 + 20, "code", esc.as_str());
        proof {
            assert(codev[row as int] == code@[row as int]@);
            assert(svgdoc::doc_nodes(doc) =~= head + code_elems(codev, row as int + 1));
        }
        row = row + 1;
    }
    let ghost mid = head + code_elems(codev, codev.len() as int);
    let m = lifetimes.len();
    let mut i: usize = 0;
    while i < m
        invariant
            m == lifetimes@.len(),
            spansv == lifetimes.deep_view(),
            mid == head + code_elems(codev, codev.len() as int),
            0 <= i <= m,
            lifetimes@.len() * 20 + 390 <= 0x100_0000,
            forall|k: int|
                0 <= k < lifetimes@.len() ==> (#[trigger] lifetimes@[k]).starting_line * 20 + 25
                    <= 0x100_0000 && lifetimes@[k].ending_line * 20 + 30 <= 0x100_0000,
            svgdoc::doc_nodes(doc) == mid + spans_elems(spansv, i as int),
        decreases m - i,
    {
        let lt = &lifetimes[i];
        let ghost ltv = spansv[i as int];
        proof {
            assert(ltv == lifetimes@[i as int].deep_view());
            assert(lifetimes@[i as int].starting_line * 20 + 25 <= 0x100_0000);
            assert(lifetimes@[i as int].ending_line * 20 + 30 <= 0x100_0000);
        }
        let label = markup::markup_to_svg(lt.comment.as_str());
        let y0 = lt.starting_line * 20 + 10;
        let ym = (lt.starting_line + 1) * 20;
        let y1 = lt.ending_line * 20 + 30;
        let xm = 380 + 20 * i;
        let mx = (150 + xm) / 2;
        svgdoc::append_text(&mut doc, xm + 10, y0 + 15, "annotation", label.as_str());
        let d = svgdoc::data_new();
        let d = svgdoc::data_move_to(d, 150, y0);
        let d = svgdoc::data_line_to(d, mx, y0);
        let d = svgdoc::data_line_to(d, mx, ym);
        let d = svgdoc::data_line_to(d, xm, ym);
        let d = svgdoc::data_line_to(d, mx, ym);
        let d = svgdoc::data_line_to(d, mx, y1);
        let d = svgdoc::data_line_to(d, 150, y1);
        proof {
            assert(svgdoc::data_cmds(d) =~= bracket_cmds(ltv, i as nat));
        }
        svgdoc::append_path(&mut doc, "line", d);
        proof {
            assert(svgdoc::doc_nodes(doc) =~= mid + spans_elems(spansv, i as int + 1));
        }
        i = i + 1;
    }
    proof {
        assert(svgdoc::doc_nodes(doc) =~= document_elems(codev, spansv));
    }
    svgdoc::to_svg_string(&doc)
}

} // verus!
