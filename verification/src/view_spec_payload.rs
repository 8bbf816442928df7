//! Wire forms of view-spec fields: an object kind travels as its
//! snake_case name (the `view_specs.applies_to` column value), and so
//! does a renderer; an unknown renderer name is kept as `Custom`.

use vstd::prelude::*;
use crate::text::{owned, chars_of, is_lit};
use crate::views::{
    InspectableObjectType, RendererKind, RendererKindV, object_type_name, object_type_of,
    object_type_wire_name, object_type_from_wire,
};

verus! {

/// The snake_case wire name of `kind`.
pub fn inspectable_to_wire(kind: InspectableObjectType) -> (r: String)
    ensures
        r@ == object_type_name(kind),
{
    owned(object_type_wire_name(kind))
}

/// The object kind named `s` on the wire; `None` for an unknown name.
pub fn wire_to_inspectable(s: &str) -> (r: Option<InspectableObjectType>)
    ensures
        r == object_type_of(s@),
{
    object_type_from_wire(s)
}

/// The renderer named `s`; an unknown name is kept as `Custom`.
pub open spec fn renderer_of(s: Seq<char>) -> RendererKindV {
    if s == "graph"@ {
        RendererKindV::Graph
    } else if s == "table"@ {
        RendererKindV::Table
    } else if s == "tree"@ {
        RendererKindV::Tree
    } else if s == "code"@ {
        RendererKindV::Code
    } else if s == "markdown"@ {
        RendererKindV::Markdown
    } else if s == "vega_lite"@ {
        RendererKindV::VegaLite
    } else if s == "json"@ {
        RendererKindV::Json
    } else if s == "composite"@ {
        RendererKindV::Composite
    } else {
        RendererKindV::Custom(s)
    }
}

/// The renderer named `s` on the wire (the `view_specs.renderer_kind`
/// column value).
pub fn renderer_kind_from_wire(s: &str) -> (r: RendererKind)
    ensures
        r@ == renderer_of(s@),
{
    let w = chars_of(s);
    if is_lit(&w, "graph") {
        RendererKind::Graph
    } else if is_lit(&w, "table") {
        RendererKind::Table
    } else if is_lit(&w, "tree") {
        RendererKind::Tree
    } else if is_lit(&w, "code") {
        RendererKind::Code
    } else if is_lit(&w, "markdown") {
        RendererKind::Markdown
    } else if is_lit(&w, "vega_lite") {
        RendererKind::VegaLite
    } else if is_lit(&w, "json") {
        RendererKind::Json
    } else if is_lit(&w, "composite") {
        RendererKind::Composite
    } else {
        RendererKind::Custom(owned(s))
    }
}

} // verus!
