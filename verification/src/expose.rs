//! What a graph exposes to its users: parameters, inputs, outputs and
//! actions, each bound to a field of a node.
//!
//! Numeric user-interface hints are held as the bit patterns of `f64`.
use vstd::prelude::*;

use crate::ids::{ANodeId, ExposedDeclId};
use crate::value::{FacetId, ValueTypeId};

verus! {

/// A field of a node: a config field or a socket, by name.
#[derive(Clone, Debug, PartialEq, Eq)]
pub struct ANodeFieldPath {
    pub node: ANodeId,
    pub field: String,
}

impl ANodeFieldPath {
    pub fn new(node: ANodeId, field: &str) -> (r: Self)
        ensures
            r.node == node,
            r.field@ == field@,
    {
        ANodeFieldPath { node, field: field.to_owned() }
    }
}

/// The type of an exposed value: one type, or any type with a facet.
#[derive(Clone, Debug, PartialEq, Eq)]
pub enum ValueTypeSpec {
    Exact(ValueTypeId),
    Facet(FacetId),
}

/// Hints for the editor of a parameter; bounds are `f64` bit patterns.
#[derive(Clone, Debug, Default, PartialEq, Eq)]
pub struct ParamUiHints {
    pub editor: Option<String>,
    pub minimum: Option<u64>,
    pub maximum: Option<u64>,
    pub step: Option<u64>,
}

/// A parameter that users set, bound to a node field.
#[derive(Clone, Debug, PartialEq, Eq)]
pub struct ExposedParam {
    pub decl_id: ExposedDeclId,
    pub label: String,
    pub description: Option<String>,
    pub target: ANodeFieldPath,
    pub value_type: ValueTypeSpec,
    pub ui: ParamUiHints,
}

/// An input fed from outside the graph.
#[derive(Clone, Debug, PartialEq, Eq)]
pub struct ExposedInput {
    pub decl_id: ExposedDeclId,
    pub label: String,
    pub target: ANodeFieldPath,
    pub value_type: ValueTypeSpec,
}

/// An output read from a node of the graph.
#[derive(Clone, Debug, PartialEq, Eq)]
pub struct ExposedOutput {
    pub decl_id: ExposedDeclId,
    pub label: String,
    pub source: ANodeFieldPath,
    pub value_type: ValueTypeSpec,
}

/// An action that users trigger.
#[derive(Clone, Debug, PartialEq, Eq)]
pub struct ExposedAction {
    pub decl_id: ExposedDeclId,
    pub label: String,
    pub target: ANodeFieldPath,
}

/// Everything a graph exposes.
#[derive(Clone, Debug, Default, PartialEq, Eq)]
pub struct ExposedSurface {
    pub params: Vec<ExposedParam>,
    pub inputs: Vec<ExposedInput>,
    pub outputs: Vec<ExposedOutput>,
    pub actions: Vec<ExposedAction>,
}

impl ExposedSurface {
    /// Nothing exposed.
    pub fn new() -> (s: Self)
        ensures
            s.params@.len() == 0,
            s.inputs@.len() == 0,
            s.outputs@.len() == 0,
            s.actions@.len() == 0,
    {
        ExposedSurface { params: Vec::new(), inputs: Vec::new(), outputs: Vec::new(), actions: Vec::new() }
    }
}

} // verus!
