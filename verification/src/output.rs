//! Attribute selection for the DOT rendering of the graph: the kind of an
//! edge or node picks its color, target-specific and workspace items get a
//! distinct style. The renderer itself consumes these read-only.

use vstd::prelude::*;
use crate::dep_info::{DepInfoInner, DepKind};
use crate::package::Package;

verus! {

/// The color attribute a dependency kind maps to: none for a plain normal
/// dependency, one color each for dev-only, build-only and unknown, and a
/// mixed color for every other combination.
pub open spec fn attr_for_dep_kind_spec(kind: DepKind) -> Option<&'static str> {
    if kind == DepKind::normal_spec() {
        None
    } else if kind == DepKind::dev_spec() {
        Some("color = blue")
    } else if kind == DepKind::build_spec() {
        Some("color = green3")
    } else if kind == DepKind::unknown_spec() {
        Some("color = red")
    } else {
        Some("color = turquoise3")
    }
}

#[verifier::when_used_as_spec(attr_for_dep_kind_spec)]
pub fn attr_for_dep_kind(kind: DepKind) -> (r: Option<&'static str>)
    ensures
        r == attr_for_dep_kind_spec(kind),
{
    if kind == DepKind::normal() {
        None
    } else if kind == DepKind::dev() {
        Some("color = blue")
    } else if kind == DepKind::build() {
        Some("color = green3")
    } else if kind == DepKind::unknown() {
        Some("color = red")
    } else {
        Some("color = turquoise3")
    }
}

/// The attribute list of an edge: its kind's color, and for a
/// target-specific edge a distinct arrow and fill.
pub open spec fn edge_attrs_spec(info: DepInfoInner) -> Seq<&'static str> {
    let base = match attr_for_dep_kind_spec(info.kind) {
        Some(attr) => seq![attr],
        None => Seq::empty(),
    };
    if info.is_target_dep {
        base + seq!["arrowType = empty", "fillcolor = lightgrey"]
    } else {
        base
    }
}

pub fn edge_attrs(info: &DepInfoInner) -> (r: Vec<&'static str>)
    ensures
        r@ == edge_attrs_spec(*info),
{
    let mut attrs: Vec<&'static str> = Vec::new();
    if let Some(attr) = attr_for_dep_kind(info.kind) {
        attrs.push(attr);
    }
    if info.is_target_dep {
        attrs.push("arrowType = empty");
        attrs.push("fillcolor = lightgrey");
    }
    proof {
        assert(attrs@ =~= edge_attrs_spec(*info));
    }
    attrs
}

/// The attribute list of a node: a workspace member gets a distinct shape;
/// any other node gets its aggregate kind's color, and a distinct fill when
/// it is a target-specific dependency.
pub open spec fn node_attrs_spec(pkg: Package) -> Seq<&'static str> {
    if pkg.is_ws_member {
        seq!["shape = box"]
    } else {
        let base = match attr_for_dep_kind_spec(pkg.dep_info.kind) {
            Some(attr) => seq![attr],
            None => Seq::empty(),
        };
        if pkg.dep_info.is_target_dep {
            base + seq!["style = filled", "fillcolor = lightgrey"]
        } else {
            base
        }
    }
}

pub fn node_attrs(pkg: &Package) -> (r: Vec<&'static str>)
    ensures
        r@ == node_attrs_spec(*pkg),
{
    let mut attrs: Vec<&'static str> = Vec::new();
    if pkg.is_ws_member {
        attrs.push("shape = box");
    } else {
        if let Some(attr) = attr_for_dep_kind(pkg.dep_info.kind) {
            attrs.push(attr);
        }
        if pkg.dep_info.is_target_dep {
            attrs.push("style = filled");
            attrs.push("fillcolor = lightgrey");
        }
    }
    proof {
        assert(attrs@ =~= node_attrs_spec(*pkg));
    }
    attrs
}

} // verus!
