//! Declarations of node types: their sockets, type parameters, config
//! fields and how they execute.
use indexmap::IndexMap;
use vstd::prelude::*;

use crate::ids::SocketId;
use crate::indexmap_specs::{constraint_entries, constraint_map_get, constraint_map_new};
use crate::ordered::{has_key, value_of};
use crate::registry::{ValueTypeDescriptor, ValueTypeRegistry};
use crate::typing::{accepts, constraint_accepts, TypeBindings, TypeConstraint, TypeVar};
use crate::value::{RuntimeValue, ValueStorageKind, ValueTypeId};

verus! {

/// The config field that chooses whether a node runs only when an input changed.
pub const PROCESS_ON_INPUT_CHANGE_ONLY_CONFIG: &'static str = "process_on_input_change_only";

/// The config field that chooses whether a node sends only changed outputs.
pub const SEND_ON_OUTPUT_CHANGE_ONLY_CONFIG: &'static str = "send_on_output_change_only";

/// How a node executes.
#[derive(Clone, Copy, Debug, PartialEq, Eq, Structural)]
pub enum ExecutionKind {
    Pure,
    Stateful,
    EventSource,
    EffectEmitter,
    Subgraph,
}

/// The state a node keeps between evaluations.
#[derive(Clone, Copy, Debug, PartialEq, Eq, Structural)]
pub enum NodeStateLayout {
    Stateless,
    RuntimeValues(usize),
}

impl NodeStateLayout {
    /// The number of state slots.
    pub fn slot_count(&self) -> (r: usize)
        ensures
            r == match *self {
                NodeStateLayout::Stateless => 0,
                NodeStateLayout::RuntimeValues(n) => n,
            },
    {
        match self {
            NodeStateLayout::Stateless => 0,
            NodeStateLayout::RuntimeValues(count) => *count,
        }
    }
}

/// An input socket of a node type.
#[derive(Debug)]
pub struct InputSocketDecl {
    pub id: SocketId,
    pub label: String,
    pub constraint: TypeConstraint,
    pub default_value: Option<RuntimeValue>,
}

impl InputSocketDecl {
    /// An input with no default value.
    pub fn new(id: &str, label: &str, constraint: TypeConstraint) -> (d: Self)
        ensures
            d.id@ == id@,
            d.label@ == label@,
            d.constraint == constraint,
            d.default_value is None,
    {
        InputSocketDecl { id: SocketId::new(id), label: label.to_owned(), constraint, default_value: None }
    }

    /// The input with default value `value`.
    pub fn with_default(self, value: RuntimeValue) -> (d: Self)
        ensures
            d.id == self.id && d.label == self.label && d.constraint == self.constraint,
            d.default_value == Some(value),
    {
        let mut d = self;
        d.default_value = Some(value);
        d
    }
}

/// An output socket of a node type.
#[derive(Debug, PartialEq, Eq)]
pub struct OutputSocketDecl {
    pub id: SocketId,
    pub label: String,
    pub constraint: TypeConstraint,
}

impl OutputSocketDecl {
    pub fn new(id: &str, label: &str, constraint: TypeConstraint) -> (d: Self)
        ensures
            d.id@ == id@,
            d.label@ == label@,
            d.constraint == constraint,
    {
        OutputSocketDecl { id: SocketId::new(id), label: label.to_owned(), constraint }
    }
}

/// The sockets, default type bindings and type-variable constraints of a node.
#[derive(Debug)]
pub struct ANodeSignature {
    pub inputs: Vec<InputSocketDecl>,
    pub outputs: Vec<OutputSocketDecl>,
    pub default_bindings: TypeBindings,
    pub generic_constraints: IndexMap<TypeVar, TypeConstraint>,
}

impl ANodeSignature {
    /// The constraints on type variables, keyed by variable name.
    pub open spec fn constraints(&self) -> Seq<(Seq<char>, TypeConstraint)> {
        constraint_entries(self.generic_constraints)
    }

    /// No sockets, bindings or constraints.
    pub fn new() -> (s: Self)
        ensures
            s.inputs@.len() == 0,
            s.outputs@.len() == 0,
            s.default_bindings.entries().len() == 0,
            s.constraints().len() == 0,
    {
        ANodeSignature {
            inputs: Vec::new(),
            outputs: Vec::new(),
            default_bindings: TypeBindings::new(),
            generic_constraints: constraint_map_new(),
        }
    }
}

/// A config field of a node type, with how editors show it.
#[derive(Debug)]
pub struct ANodeConfigFieldDecl {
    pub id: String,
    pub label: String,
    pub description: Option<String>,
    pub editor: Option<String>,
    pub enum_options: Vec<(String, String)>,
    pub type_variable: Option<TypeVar>,
    pub type_options: Vec<ValueTypeId>,
    pub default_value: RuntimeValue,
}

/// The value types a config field offers: its own list when it has one,
/// else every registered non-extension type that the constraint on its
/// type variable accepts (every one when there is no such constraint), in
/// registration order.
pub open spec fn offered_types(
    own: Seq<ValueTypeId>,
    constraint: Option<TypeConstraint>,
    entries: Seq<(Seq<char>, ValueTypeDescriptor)>,
) -> Seq<Seq<char>> {
    if own.len() > 0 {
        own.map_values(|t: ValueTypeId| t@)
    } else {
        offered_from(constraint, entries, entries.len())
    }
}

/// The registered types among the first `n` entries that a field offers.
pub open spec fn offered_from(
    constraint: Option<TypeConstraint>,
    entries: Seq<(Seq<char>, ValueTypeDescriptor)>,
    n: nat,
) -> Seq<Seq<char>>
    decreases n,
{
    if n == 0 || n > entries.len() {
        Seq::empty()
    } else {
        let rest = offered_from(constraint, entries, (n - 1) as nat);
        let d = entries[n - 1].1;
        if d.storage != ValueStorageKind::Extension && match constraint {
            None => true,
            Some(c) => accepts(c, d.id@, entries),
        } {
            rest.push(d.id@)
        } else {
            rest
        }
    }
}

impl ANodeConfigFieldDecl {
    /// A field with no description, editor, options or type variable.
    pub fn new(id: &str, label: &str, default_value: RuntimeValue) -> (d: Self)
        ensures
            d.id@ == id@,
            d.label@ == label@,
            d.description is None,
            d.editor is None,
            d.enum_options@.len() == 0,
            d.type_variable is None,
            d.type_options@.len() == 0,
            d.default_value == default_value,
    {
        ANodeConfigFieldDecl {
            id: id.to_owned(),
            label: label.to_owned(),
            description: None,
            editor: None,
            enum_options: Vec::new(),
            type_variable: None,
            type_options: Vec::new(),
            default_value,
        }
    }

    /// The field with a description.
    pub fn with_description(self, description: &str) -> (d: Self)
        ensures
            d.description matches Some(s) && s@ == description@,
            d.id == self.id && d.label == self.label && d.editor == self.editor,
            d.enum_options == self.enum_options && d.type_variable == self.type_variable,
            d.type_options == self.type_options && d.default_value == self.default_value,
    {
        let mut d = self;
        d.description = Some(description.to_owned());
        d
    }

    /// The field shown with editor `editor`.
    pub fn with_editor(self, editor: &str) -> (d: Self)
        ensures
            d.editor matches Some(s) && s@ == editor@,
            d.id == self.id && d.label == self.label && d.description == self.description,
            d.enum_options == self.enum_options && d.type_variable == self.type_variable,
            d.type_options == self.type_options && d.default_value == self.default_value,
    {
        let mut d = self;
        d.editor = Some(editor.to_owned());
        d
    }

    /// The field offering the choices `options`, each an identifier and a label.
    pub fn with_enum_options(self, options: Vec<(String, String)>) -> (d: Self)
        ensures
            d.enum_options == options,
            d.id == self.id && d.label == self.label && d.description == self.description,
            d.editor == self.editor && d.type_variable == self.type_variable,
            d.type_options == self.type_options && d.default_value == self.default_value,
    {
        let mut d = self;
        d.enum_options = options;
        d
    }

    /// The field that chooses the type of variable `variable`.
    pub fn with_type_variable(self, variable: TypeVar) -> (d: Self)
        ensures
            d.type_variable == Some(variable),
            d.id == self.id && d.label == self.label && d.description == self.description,
            d.editor == self.editor && d.enum_options == self.enum_options,
            d.type_options == self.type_options && d.default_value == self.default_value,
    {
        let mut d = self;
        d.type_variable = Some(variable);
        d
    }

    /// The field offering exactly the types `options`.
    pub fn with_type_options(self, options: Vec<ValueTypeId>) -> (d: Self)
        ensures
            d.type_options == options,
            d.id == self.id && d.label == self.label && d.description == self.description,
            d.editor == self.editor && d.enum_options == self.enum_options,
            d.type_variable == self.type_variable && d.default_value == self.default_value,
    {
        let mut d = self;
        d.type_options = options;
        d
    }

    /// The value types this field offers for `signature` in `registry`.
    pub fn resolved_type_options(&self, signature: &ANodeSignature, registry: &ValueTypeRegistry) -> (r: Vec<
        ValueTypeId,
    >)
        ensures
            r@.map_values(|t: ValueTypeId| t@) == offered_types(
                self.type_options@,
                match self.type_variable {
                    Some(v) => if has_key(signature.constraints(), v@) {
                        Some(value_of(signature.constraints(), v@))
                    } else {
                        None
                    },
                    None => None,
                },
                registry.entries(),
            ),
    {
        if self.type_options.len() > 0 {
            let mut r: Vec<ValueTypeId> = Vec::new();
            let mut i: usize = 0;
            while i < self.type_options.len()
                invariant
                    i <= self.type_options@.len(),
                    r@.len() == i,
                    forall|j: int| 0 <= j < i ==> r@[j]@ == self.type_options@[j]@,
                decreases self.type_options@.len() - i,
            {
                r.push(self.type_options[i].clone());
                i = i + 1;
            }
            proof {
                assert(r@.map_values(|t: ValueTypeId| t@) =~= self.type_options@.map_values(|t: ValueTypeId| t@));
            }
            return r;
        }
        let constraint = match &self.type_variable {
            Some(variable) => constraint_map_get(&signature.generic_constraints, variable),
            None => None,
        };
        let ghost spec_constraint = match constraint {
            Some(c) => Some(*c),
            None => None,
        };
        let mut r: Vec<ValueTypeId> = Vec::new();
        let n = registry.len();
        let mut i: usize = 0;
        while i < n
            invariant
                i <= n,
                n == registry.entries().len(),
                spec_constraint == match constraint {
                    Some(c) => Some(*c),
                    None => None,
                },
                r@.map_values(|t: ValueTypeId| t@) == offered_from(spec_constraint, registry.entries(), i as nat),
            decreases n - i,
        {
            let descriptor = registry.descriptor_at(i).unwrap();
            let keep = match descriptor.storage {
                ValueStorageKind::Extension => false,
                _ => match constraint {
                    None => true,
                    Some(c) => constraint_accepts(c, &descriptor.id, registry),
                },
            };
            if keep {
                r.push(descriptor.id.clone());
            }
            i = i + 1;
            proof {
                assert(r@.map_values(|t: ValueTypeId| t@) =~= offered_from(
                    spec_constraint,
                    registry.entries(),
                    i as nat,
                ));
            }
        }
        r
    }
}

} // verus!
