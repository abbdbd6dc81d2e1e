//! The trusted boundary to the `svg` crate. The document under construction
//! is modelled as the sequence of nodes appended to the svg root, and a path
//! attribute as the sequence of its drawing commands; each wrapper states how
//! the call it makes grows that sequence. Serialization is deterministic in
//! the nodes: the crate prints attributes in sorted order and children in
//! insertion order, so the rendered text is a function of the node sequence
//! alone, named here without being spelled out.

use svg::Node;
use vstd::prelude::*;

use crate::render::ElemV;
use crate::render::PathCmdV;

verus! {

#[verifier::external_type_specification]
#[verifier::external_body]
pub struct ExSvg(svg::node::element::SVG);

#[verifier::external_type_specification]
#[verifier::external_body]
pub struct ExData(svg::node::element::path::Data);

// `Data` exposes its command list through its interface, so its element type
// must be declared alongside it.
#[verifier::external_type_specification]
#[verifier::external_body]
pub struct ExCommand(svg::node::element::path::Command);

/// The nodes appended to the svg root so far, in order.
pub uninterp spec fn doc_nodes(d: svg::node::element::SVG) -> Seq<ElemV>;

/// The drawing commands added to a path data attribute so far, in order.
pub uninterp spec fn data_cmds(d: svg::node::element::path::Data) -> Seq<PathCmdV>;

/// The serialized text of an svg document holding the given nodes.
pub uninterp spec fn svg_doc_text(nodes: Seq<ElemV>) -> Seq<char>;

/// Relies on `SVG::new` of the svg crate: a fresh svg root element with no
/// child nodes (and only its `xmlns` attribute).
#[verifier::external_body]
pub(crate) fn new_document() -> (d: svg::node::element::SVG)
    ensures
        doc_nodes(d) == Seq::<ElemV>::empty(),
{
    svg::node::element::SVG::new()
}

/// Relies on `Element::new`, `Blob::new` and `Node::append` of the svg
/// crate: appends one `defs` node holding one `style` node whose content is
/// exactly `css`, embedded verbatim.
#[verifier::external_body]
pub(crate) fn append_style(d: &mut svg::node::element::SVG, css: &str)
    ensures
        doc_nodes(*final(d)) == doc_nodes(*old(d)).push(ElemV::StyleDefs { css: css@ }),
{
    let mut style = svg::node::element::Element::new("style");
    style.append(svg::node::Blob::new(css));
    let mut defs = svg::node::element::Element::new("defs");
    defs.append(style);
    d.append(defs);
}

/// Relies on `Element::new`, `Node::assign`, `Blob::new` and `Node::append`
/// of the svg crate: appends one `text` node with the given position and
/// class attributes, whose content is embedded verbatim.
#[verifier::external_body]
pub(crate) fn append_text(
    d: &mut svg::node::element::SVG,
    x: usize,
    y: usize,
    class: &str,
    content: &str,
)
    ensures
        doc_nodes(*final(d)) == doc_nodes(*old(d)).push(
            ElemV::TextElem { x: x as nat, y: y as nat, class: class@, content: content@ },
        ),
{
    let mut t = svg::node::element::Element::new("text");
    t.assign("x", x);
    t.assign("y", y);
    t.assign("class", class);
    t.append(svg::node::Blob::new(content));
    d.append(t);
}

/// Relies on `Data::new` of the svg crate: a path data attribute with no
/// commands yet.
#[verifier::external_body]
pub(crate) fn data_new() -> (d: svg::node::element::path::Data)
    ensures
        data_cmds(d) == Seq::<PathCmdV>::empty(),
{
    svg::node::element::path::Data::new()
}

/// Relies on `Data::move_to` of the svg crate: appends one absolute move
/// command with exactly these coordinates. Coordinates stay below 2^24 so
/// that the crate's f32 path numbers hold them exactly.
#[verifier::external_body]
pub(crate) fn data_move_to(d: svg::node::element::path::Data, x: usize, y: usize) -> (r:
    svg::node::element::path::Data)
    requires
        x <= 0x100_0000,
        y <= 0x100_0000,
    ensures
        data_cmds(r) == data_cmds(d).push(PathCmdV::MoveTo { x: x as nat, y: y as nat }),
{
    d.move_to((x, y))
}

/// Relies on `Data::line_to` of the svg crate: appends one absolute line
/// command with exactly these coordinates. Coordinates stay below 2^24 so
/// that the crate's f32 path numbers hold them exactly.
#[verifier::external_body]
pub(crate) fn data_line_to(d: svg::node::element::path::Data, x: usize, y: usize) -> (r:
    svg::node::element::path::Data)
    requires
        x <= 0x100_0000,
        y <= 0x100_0000,
    ensures
        data_cmds(r) == data_cmds(d).push(PathCmdV::LineTo { x: x as nat, y: y as nat }),
{
    d.line_to((x, y))
}

/// Relies on `Element::new`, `Node::assign` and `Node::append` of the svg
/// crate: appends one `path` node with the given class, whose `d` attribute
/// renders exactly the commands of `data`.
#[verifier::external_body]
pub(crate) fn append_path(
    d: &mut svg::node::element::SVG,
    class: &str,
    data: svg::node::element::path::Data,
)
    ensures
        doc_nodes(*final(d)) == doc_nodes(*old(d)).push(
            ElemV::PathElem { class: class@, cmds: data_cmds(data) },
        ),
{
    let mut p = svg::node::element::Element::new("path");
    p.assign("class", class);
    p.assign("d", data);
    d.append(p);
}

/// Relies on the `Display` impl of the svg crate's element tree: the
/// document's serialized text, a function of its nodes alone.
#[verifier::external_body]
pub(crate) fn to_svg_string(d: &svg::node::element::SVG) -> (r: String)
    ensures
        r@ == svg_doc_text(doc_nodes(*d)),
{
    format!("{}", d)
}

} // verus!
