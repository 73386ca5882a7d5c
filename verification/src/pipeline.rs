//! Filter pipelines: checking the shape of the values that flow through a
//! chain of filters, and lowering a managed filter region into graph edits.
use vstd::prelude::*;

use crate::formula::{ManagedRegionDefinition, ManagedRegionInstance, ManagedRegionKind};
use crate::graph::{
    input_connected, instance_copy, ANodeInstance, AEdge, AlchemistGraph, GraphEditError, InputSocketRef,
    OutputSocketRef,
};
use crate::ids::{ANodeId, ANodeTypeId, ContextAxisId, SocketId};
use crate::ordered::{keys_distinct, lemma_key_pos, lemma_remove};
use crate::indexmap_specs::node_map_shift_remove;
use crate::library::{ANodeRoleCapability, AutoWirePolicy, PipelineCardinality};
use crate::node::{ANodeSignature, OutputSocketDecl};
use crate::ordered::{has_key, value_of};
use crate::formula::SurfaceItemKind;
use crate::typing::{merge_spec, TypeBinding, TypeBindings, TypeConstraint};
use crate::text::concat3;
use crate::value::ValueTypeId;

verus! {

/// The shape of what flows along a pipeline.
#[derive(Debug, PartialEq, Eq)]
pub enum PipelineShape {
    /// One value of a type.
    Single { value_type: ValueTypeId },
    /// A set of values of a type, along a context axis if known.
    ValueSet { item_type: ValueTypeId, axis: Option<ContextAxisId> },
    Trigger,
    CommandIntent,
    Unknown,
}

impl Clone for PipelineShape {
    fn clone(&self) -> (r: Self)
        ensures
            r == *self,
    {
        match self {
            PipelineShape::Single { value_type } => PipelineShape::Single { value_type: value_type.clone() },
            PipelineShape::ValueSet { item_type, axis } => PipelineShape::ValueSet {
                item_type: item_type.clone(),
                axis: match axis {
                    Some(a) => Some(a.clone()),
                    None => None,
                },
            },
            PipelineShape::Trigger => PipelineShape::Trigger,
            PipelineShape::CommandIntent => PipelineShape::CommandIntent,
            PipelineShape::Unknown => PipelineShape::Unknown,
        }
    }
}

/// One value of type `value_type`.
pub fn single_shape(value_type: &str) -> (s: PipelineShape)
    ensures
        s matches PipelineShape::Single { value_type: t } && t@ == value_type@,
{
    PipelineShape::Single { value_type: ValueTypeId::new(value_type) }
}

/// A set of values of type `item_type` along `axis`.
pub fn value_set_shape(item_type: &str, axis: Option<ContextAxisId>) -> (s: PipelineShape)
    ensures
        s matches PipelineShape::ValueSet { item_type: t, axis: a } && t@ == item_type@ && a == axis,
{
    PipelineShape::ValueSet { item_type: ValueTypeId::new(item_type), axis }
}

/// A filter of a pipeline, with what its declaration says of it: the roles
/// it can play and its signature, and the type bindings of its instance.
#[derive(Debug)]
pub struct PipelineShapeCheckItem<'a> {
    pub node_type: &'a ANodeTypeId,
    pub capabilities: &'a Vec<ANodeRoleCapability>,
    pub signature: &'a ANodeSignature,
    pub instance_bindings: &'a TypeBindings,
}

/// How one filter of a pipeline changed the shape.
#[derive(Debug, PartialEq, Eq)]
pub struct PipelineShapeStep {
    pub item_index: usize,
    pub node_type: ANodeTypeId,
    pub input: PipelineShape,
    pub output: PipelineShape,
    pub cardinality: PipelineCardinality,
}

/// Why a filter of a pipeline does not fit the shape that reaches it.
#[derive(Debug, PartialEq, Eq)]
pub struct PipelineShapeDiagnostic {
    pub item_index: usize,
    pub node_type: ANodeTypeId,
    pub message: String,
}

/// The outcome of checking a pipeline.
#[derive(Debug, PartialEq, Eq)]
pub struct PipelineShapeResult {
    pub final_shape: PipelineShape,
    pub steps: Vec<PipelineShapeStep>,
    pub diagnostics: Vec<PipelineShapeDiagnostic>,
}

impl PipelineShapeResult {
    /// Whether no filter was refused.
    pub fn is_valid(&self) -> (r: bool)
        ensures
            r == (self.diagnostics@.len() == 0),
    {
        self.diagnostics.len() == 0
    }
}

/// The position of the first filter capability among `caps`, if any.
pub open spec fn first_filter(caps: Seq<ANodeRoleCapability>) -> Option<int> {
    if exists|i: int| 0 <= i < caps.len() && #[trigger] caps[i].role == SurfaceItemKind::Filter {
        Some(
            choose|i: int|
                0 <= i < caps.len() && #[trigger] caps[i].role == SurfaceItemKind::Filter && forall|j: int|
                    0 <= j < i ==> caps[j].role != SurfaceItemKind::Filter,
        )
    } else {
        None
    }
}

/// The type an output with `c` resolves to under `bindings`, falling back
/// to `fallback` where the constraint does not fix one: an exact type; the
/// binding of a type variable; the first option that resolves.
pub open spec fn resolve_with_fallback(
    c: TypeConstraint,
    bindings: Seq<(Seq<char>, TypeBinding)>,
    fallback: Option<ValueTypeId>,
) -> Option<ValueTypeId>
    decreases c, 0nat,
{
    match c {
        TypeConstraint::Exact(t) => Some(t),
        TypeConstraint::Generic(v) => if has_key(bindings, v@) {
            Some(value_of(bindings, v@).value_type)
        } else {
            fallback
        },
        TypeConstraint::OneOf(options) => match first_resolving(options@, bindings, fallback, 0) {
            Some(t) => Some(t),
            None => fallback,
        },
        _ => fallback,
    }
}

/// The type that the first option from position `k` on resolves to.
pub open spec fn first_resolving(
    options: Seq<TypeConstraint>,
    bindings: Seq<(Seq<char>, TypeBinding)>,
    fallback: Option<ValueTypeId>,
    k: nat,
) -> Option<ValueTypeId>
    decreases options, options.len() - k,
{
    if k >= options.len() {
        None
    } else {
        match resolve_with_fallback(options[k as int], bindings, fallback) {
            Some(t) => Some(t),
            None => first_resolving(options, bindings, fallback, k + 1),
        }
    }
}

/// The type the output of `c` resolves to under `bindings`, or `fallback`.
pub fn resolve_output_constraint(
    constraint: &TypeConstraint,
    bindings: &TypeBindings,
    fallback: Option<&ValueTypeId>,
) -> (r: Option<ValueTypeId>)
    ensures
        r == resolve_with_fallback(*constraint, bindings.entries(), match fallback {
            Some(t) => Some(*t),
            None => None,
        }),
    decreases constraint,
{
    let ghost fb = match fallback {
        Some(t) => Some(*t),
        None => None,
    };
    match constraint {
        TypeConstraint::Exact(t) => Some(t.clone()),
        TypeConstraint::Generic(variable) => match bindings.get(variable) {
            Some(binding) => Some(binding.value_type.clone()),
            None => match fallback {
                Some(t) => Some(t.clone()),
                None => None,
            },
        },
        TypeConstraint::OneOf(options) => {
            let mut k: usize = options.len();
            let mut found: Option<ValueTypeId> = None;
            while k > 0
                invariant
                    k <= options@.len(),
                    *constraint == TypeConstraint::OneOf(*options),
                    found == first_resolving(options@, bindings.entries(), fb, k as nat),
                    fb == match fallback {
                        Some(t) => Some(*t),
                        None => None,
                    },
                decreases k,
            {
                k = k - 1;
                proof {
                    assert((*constraint)->OneOf_0 == *options);
                    assert(decreases_to!(*constraint => (*constraint)->OneOf_0));
                    assert(decreases_to!(*options => options@));
                    assert(decreases_to!(options@ => options@[k as int]));
                }
                match resolve_output_constraint(&options[k], bindings, fallback) {
                    Some(t) => {
                        found = Some(t);
                    },
                    None => {},
                }
            }
            match found {
                Some(t) => Some(t),
                None => match fallback {
                    Some(t) => Some(t.clone()),
                    None => None,
                },
            }
        },
        _ => match fallback {
            Some(t) => Some(t.clone()),
            None => None,
        },
    }
}

/// The position of the first output of `outputs` with identifier `id`.
pub open spec fn output_pos(outputs: Seq<OutputSocketDecl>, id: Seq<char>) -> Option<int> {
    if exists|i: int| 0 <= i < outputs.len() && #[trigger] outputs[i].id@ == id {
        Some(
            choose|i: int|
                0 <= i < outputs.len() && #[trigger] outputs[i].id@ == id && forall|j: int|
                    0 <= j < i ==> outputs[j].id@ != id,
        )
    } else {
        None
    }
}

/// The type at the primary output of filter `item` with capability `cap`:
/// the output's constraint resolved under the signature's default bindings
/// merged with the instance's, falling back to `fallback`; `None` when the
/// capability names no primary output or the signature has no such output.
pub open spec fn output_type_spec(
    item: PipelineShapeCheckItem<'_>,
    cap: ANodeRoleCapability,
    fallback: Option<ValueTypeId>,
) -> Option<ValueTypeId> {
    match cap.primary_output {
        None => None,
        Some(id) => match output_pos(item.signature.outputs@, id@) {
            None => None,
            Some(p) => {
                let merged = merge_spec(
                    item.signature.default_bindings.entries(),
                    item.instance_bindings.entries(),
                    item.instance_bindings.entries().len(),
                ).0;
                resolve_with_fallback(item.signature.outputs@[p].constraint, merged, fallback)
            },
        },
    }
}

/// The type at the primary output of `item` (see [`output_type_spec`]).
pub fn output_value_type(
    item: &PipelineShapeCheckItem<'_>,
    capability: &ANodeRoleCapability,
    fallback: Option<&ValueTypeId>,
) -> (r: Option<ValueTypeId>)
    ensures
        r == output_type_spec(*item, *capability, match fallback {
            Some(t) => Some(*t),
            None => None,
        }),
{
    let output_id = match capability.primary_output.as_ref() {
        None => {
            return None;
        },
        Some(id) => id,
    };
    let mut i: usize = 0;
    while i < item.signature.outputs.len()
        invariant
            i <= item.signature.outputs@.len(),
            capability.primary_output == Some(*output_id),
            forall|j: int| 0 <= j < i ==> item.signature.outputs@[j].id@ != output_id@,
        decreases item.signature.outputs@.len() - i,
    {
        if item.signature.outputs[i].id == *output_id {
            proof {
                let p = output_pos(item.signature.outputs@, output_id@);
                assert(item.signature.outputs@[i as int].id@ == output_id@);
                let q = p->0;
                if q < i {
                    assert(item.signature.outputs@[q].id@ != output_id@);
                }
                if q > i {
                    assert(item.signature.outputs@[i as int].id@ != output_id@);
                }
                assert(p == Some(i as int));
            }
            let mut bindings = item.signature.default_bindings.duplicate();
            let _ = bindings.merge_from(&item.instance_bindings);
            assert(bindings.entries() == merge_spec(
                item.signature.default_bindings.entries(),
                item.instance_bindings.entries(),
                item.instance_bindings.entries().len(),
            ).0);
            let r = resolve_output_constraint(&item.signature.outputs[i].constraint, &bindings, fallback);
            assert(capability.primary_output == Some(*output_id));
            assert(r == resolve_with_fallback(item.signature.outputs@[i as int].constraint, bindings.entries(), match fallback {
                Some(t) => Some(*t),
                None => None,
            }));
            return r;
        }
        i = i + 1;
    }
    None
}

/// The message for a filter of `cardinality` that a trigger or command
/// reaches.
pub open spec fn needs_values_message(cardinality: PipelineCardinality) -> Seq<char> {
    match cardinality {
        PipelineCardinality::Elementwise => "elementwise filters require single values or ValueSet items"@,
        PipelineCardinality::Aggregate => "aggregate filters require single values or ValueSet items"@,
        PipelineCardinality::Reshape => "reshape filters require single values or ValueSet items"@,
        _ => "expand filters require a single value input"@,
    }
}

/// The shape after filter `item` with capability `cap`, given the shape
/// that reaches it, or why it does not fit.
pub open spec fn transition_spec(
    input: PipelineShape,
    item: PipelineShapeCheckItem<'_>,
    cap: ANodeRoleCapability,
) -> Result<PipelineShape, Seq<char>> {
    match cap.cardinality {
        PipelineCardinality::WholeSet => Ok(input),
        PipelineCardinality::Elementwise => match input {
            PipelineShape::Single { value_type } => Ok(
                PipelineShape::Single {
                    value_type: match output_type_spec(item, cap, Some(value_type)) {
                        Some(t) => t,
                        None => value_type,
                    },
                },
            ),
            PipelineShape::ValueSet { item_type, axis } => Ok(
                PipelineShape::ValueSet {
                    item_type: match output_type_spec(item, cap, Some(item_type)) {
                        Some(t) => t,
                        None => item_type,
                    },
                    axis,
                },
            ),
            PipelineShape::Unknown => Ok(PipelineShape::Unknown),
            _ => Err(needs_values_message(cap.cardinality)),
        },
        PipelineCardinality::Aggregate => match input {
            PipelineShape::Single { value_type } | PipelineShape::ValueSet { item_type: value_type, .. } => Ok(
                PipelineShape::Single {
                    value_type: match output_type_spec(item, cap, Some(value_type)) {
                        Some(t) => t,
                        None => value_type,
                    },
                },
            ),
            PipelineShape::Unknown => Ok(PipelineShape::Unknown),
            _ => Err(needs_values_message(cap.cardinality)),
        },
        PipelineCardinality::Reshape => match input {
            PipelineShape::Single { value_type } | PipelineShape::ValueSet { item_type: value_type, .. } => match output_type_spec(item, cap, Some(value_type)) {
                Some(t) => Ok(PipelineShape::Single { value_type: t }),
                None => Err("reshape filters must declare a resolvable primary output shape"@),
            },
            PipelineShape::Unknown => Ok(PipelineShape::Unknown),
            _ => Err(needs_values_message(cap.cardinality)),
        },
        PipelineCardinality::Expand => match input {
            PipelineShape::Single { value_type } => Ok(
                PipelineShape::ValueSet {
                    item_type: match output_type_spec(item, cap, Some(value_type)) {
                        Some(t) => t,
                        None => value_type,
                    },
                    axis: None,
                },
            ),
            PipelineShape::ValueSet { .. } => Err("expand filters require an explicit single-value input"@),
            PipelineShape::Unknown => Ok(PipelineShape::Unknown),
            _ => Err(needs_values_message(cap.cardinality)),
        },
    }
}

/// The shape after filter `item` (see [`transition_spec`]).
pub fn transition_shape(input: &PipelineShape, item: &PipelineShapeCheckItem<'_>, capability: &ANodeRoleCapability) -> (r:
    Result<PipelineShape, String>)
    ensures
        match (r, transition_spec(*input, *item, *capability)) {
            (Ok(a), Ok(b)) => a == b,
            (Err(a), Err(b)) => a@ == b,
            _ => false,
        },
{
    match capability.cardinality {
        PipelineCardinality::WholeSet => Ok(input.clone()),
        PipelineCardinality::Elementwise => match input {
            PipelineShape::Single { value_type } => {
                let t = match output_value_type(item, capability, Some(value_type)) {
                    Some(t) => t,
                    None => value_type.clone(),
                };
                Ok(PipelineShape::Single { value_type: t })
            },
            PipelineShape::ValueSet { item_type, axis } => {
                let t = match output_value_type(item, capability, Some(item_type)) {
                    Some(t) => t,
                    None => item_type.clone(),
                };
                let axis = match axis {
                    Some(a) => Some(a.clone()),
                    None => None,
                };
                Ok(PipelineShape::ValueSet { item_type: t, axis })
            },
            PipelineShape::Unknown => Ok(PipelineShape::Unknown),
            _ => Err("elementwise filters require single values or ValueSet items".to_owned()),
        },
        PipelineCardinality::Aggregate => match input {
            PipelineShape::Single { value_type } | PipelineShape::ValueSet { item_type: value_type, .. } => {
                let t = match output_value_type(item, capability, Some(value_type)) {
                    Some(t) => t,
                    None => value_type.clone(),
                };
                Ok(PipelineShape::Single { value_type: t })
            },
            PipelineShape::Unknown => Ok(PipelineShape::Unknown),
            _ => Err("aggregate filters require single values or ValueSet items".to_owned()),
        },
        PipelineCardinality::Reshape => match input {
            PipelineShape::Single { value_type } | PipelineShape::ValueSet { item_type: value_type, .. } => {
                match output_value_type(item, capability, Some(value_type)) {
                    Some(t) => Ok(PipelineShape::Single { value_type: t }),
                    None => Err("reshape filters must declare a resolvable primary output shape".to_owned()),
                }
            },
            PipelineShape::Unknown => Ok(PipelineShape::Unknown),
            _ => Err("reshape filters require single values or ValueSet items".to_owned()),
        },
        PipelineCardinality::Expand => match input {
            PipelineShape::Single { value_type } => {
                let t = match output_value_type(item, capability, Some(value_type)) {
                    Some(t) => t,
                    None => value_type.clone(),
                };
                Ok(PipelineShape::ValueSet { item_type: t, axis: None })
            },
            PipelineShape::ValueSet { .. } => Err("expand filters require an explicit single-value input".to_owned()),
            PipelineShape::Unknown => Ok(PipelineShape::Unknown),
            _ => Err("expand filters require a single value input".to_owned()),
        },
    }
}

/// The state of a pipeline check after some filters: the shape reached, the
/// steps taken, and the refusals as (position, node type, message).
pub type CheckState = (PipelineShape, Seq<PipelineShapeStep>, Seq<(usize, ANodeTypeId, Seq<char>)>);

/// The state after checking the first `n` filters of `items`, starting
/// from `initial`: a filter without a filter capability is refused; else
/// its transition either advances the shape and records a step, or is
/// refused and leaves the shape.
pub open spec fn check_spec(initial: PipelineShape, items: Seq<PipelineShapeCheckItem<'_>>, n: nat) -> CheckState
    decreases n,
{
    if n == 0 || n > items.len() {
        (initial, Seq::empty(), Seq::empty())
    } else {
        let (shape, steps, diags) = check_spec(initial, items, (n - 1) as nat);
        let index = (n - 1) as usize;
        let item = items[n - 1];
        match first_filter(item.capabilities@) {
            None => (shape, steps, diags.push((index, *item.node_type, "ANode is not filter-capable"@))),
            Some(p) => {
                let cap = item.capabilities@[p];
                match transition_spec(shape, item, cap) {
                    Ok(output) => (
                        output,
                        steps.push(
                            PipelineShapeStep {
                                item_index: index,
                                node_type: *item.node_type,
                                input: shape,
                                output,
                                cardinality: cap.cardinality,
                            },
                        ),
                        diags,
                    ),
                    Err(message) => (shape, steps, diags.push((index, *item.node_type, message))),
                }
            },
        }
    }
}

/// A reshape filter gives one value of its resolved primary output type,
/// the same whether a single value or a set of values of the same type
/// reaches it; when that type does not resolve, it refuses both alike.
pub proof fn law_reshape_gives_single_output(
    item: PipelineShapeCheckItem<'_>,
    cap: ANodeRoleCapability,
    value_type: ValueTypeId,
    axis: Option<ContextAxisId>,
)
    requires
        cap.cardinality == PipelineCardinality::Reshape,
    ensures
        transition_spec(PipelineShape::Single { value_type }, item, cap) == transition_spec(
            PipelineShape::ValueSet { item_type: value_type, axis },
            item,
            cap,
        ),
        output_type_spec(item, cap, Some(value_type)) matches Some(t) ==> transition_spec(
            PipelineShape::Single { value_type },
            item,
            cap,
        ) == Ok::<PipelineShape, Seq<char>>(PipelineShape::Single { value_type: t }),
        output_type_spec(item, cap, Some(value_type)) is None ==> transition_spec(
            PipelineShape::Single { value_type },
            item,
            cap,
        ) is Err,
{
}

/// An elementwise filter keeps the kind of what reaches it: a single value
/// stays single and a set stays a set along the same axis, each of the
/// filter's output type (the incoming type when that does not resolve); the
/// item type it gives a set is the type it gives a single value of the
/// same type. An aggregate filter gives one value, the same for a single
/// value as for a set of that type. A whole-set filter passes the shape on.
pub proof fn law_filter_cardinalities(
    item: PipelineShapeCheckItem<'_>,
    cap: ANodeRoleCapability,
    value_type: ValueTypeId,
    axis: Option<ContextAxisId>,
    input: PipelineShape,
)
    ensures
        cap.cardinality == PipelineCardinality::Elementwise ==> {
            let out_type = match output_type_spec(item, cap, Some(value_type)) {
                Some(t) => t,
                None => value_type,
            };
            &&& transition_spec(PipelineShape::Single { value_type }, item, cap) == Ok::<PipelineShape, Seq<char>>(
                PipelineShape::Single { value_type: out_type },
            )
            &&& transition_spec(PipelineShape::ValueSet { item_type: value_type, axis }, item, cap) == Ok::<
                PipelineShape,
                Seq<char>,
            >(PipelineShape::ValueSet { item_type: out_type, axis })
        },
        cap.cardinality == PipelineCardinality::Aggregate ==> {
            &&& transition_spec(PipelineShape::Single { value_type }, item, cap) == transition_spec(
                PipelineShape::ValueSet { item_type: value_type, axis },
                item,
                cap,
            )
            &&& transition_spec(PipelineShape::Single { value_type }, item, cap) matches Ok(
                PipelineShape::Single { .. },
            )
        },
        cap.cardinality == PipelineCardinality::WholeSet ==> transition_spec(input, item, cap) == Ok::<
            PipelineShape,
            Seq<char>,
        >(input),
{
}

/// Whether a check of the first `n` items gives `state`: each item gives one
/// step or one refusal, each in item order and at the item's position; the
/// steps chain from `initial`, each starting where the one before ended;
/// and the shape reached is where the last step ended, or `initial`.
pub open spec fn chain_checked(initial: PipelineShape, n: nat, state: CheckState) -> bool {
    let (shape, steps, diags) = state;
    &&& steps.len() + diags.len() == n
    &&& forall|j: int| 0 <= j < steps.len() ==> (#[trigger] steps[j]).item_index < n
    &&& forall|j: int| 0 <= j < diags.len() ==> (#[trigger] diags[j]).0 < n
    &&& forall|i: int, j: int| 0 <= i < j < steps.len() ==> (#[trigger] steps[i]).item_index < (#[trigger] steps[j]).item_index
    &&& forall|i: int, j: int| 0 <= i < j < diags.len() ==> (#[trigger] diags[i]).0 < (#[trigger] diags[j]).0
    &&& forall|i: int, j: int|
        0 <= i < steps.len() && 0 <= j < diags.len() ==> (#[trigger] steps[i]).item_index != (#[trigger] diags[j]).0
    &&& steps.len() == 0 ==> shape == initial
    &&& steps.len() > 0 ==> steps[0].input == initial && shape == steps.last().output
    &&& forall|i: int, j: int|
        0 <= i && j == i + 1 && j < steps.len() ==> (#[trigger] steps[j]).input == (#[trigger] steps[i]).output
}

/// One more item gives either one more step, at the item's position and
/// from the shape reached, or one more refusal at the item's position.
proof fn lemma_check_step(initial: PipelineShape, items: Seq<PipelineShapeCheckItem<'_>>, n: nat)
    requires
        0 < n <= items.len(),
        n <= usize::MAX,
    ensures
        ({
            let (shape, steps, diags) = check_spec(initial, items, (n - 1) as nat);
            let (shape2, steps2, diags2) = check_spec(initial, items, n);
            ||| {
                &&& steps2 == steps.push(steps2.last())
                &&& diags2 == diags
                &&& steps2.last().item_index == n - 1
                &&& steps2.last().input == shape
                &&& shape2 == steps2.last().output
            }
            ||| {
                &&& steps2 == steps
                &&& shape2 == shape
                &&& diags2 == diags.push(diags2.last())
                &&& diags2.last().0 == n - 1
            }
        }),
{
    let (shape, steps, diags) = check_spec(initial, items, (n - 1) as nat);
    let (shape2, steps2, diags2) = check_spec(initial, items, n);
    if steps2.len() > steps.len() {
        assert(steps2 =~= steps.push(steps2.last()));
    } else {
        assert(diags2 =~= diags.push(diags2.last()));
    }
}

/// Checking a chain of filters gives, for each filter, a step or a refusal,
/// in order; the steps chain from the initial shape to the final one.
#[verifier::spinoff_prover]
#[verifier::rlimit(40)]
pub proof fn lemma_check_chain(initial: PipelineShape, items: Seq<PipelineShapeCheckItem<'_>>, n: nat)
    requires
        n <= items.len(),
        n <= usize::MAX,
    ensures
        chain_checked(initial, n, check_spec(initial, items, n)),
    decreases n,
{
    if n > 0 {
        lemma_check_chain(initial, items, (n - 1) as nat);
        lemma_check_step(initial, items, n);
        let prev = check_spec(initial, items, (n - 1) as nat);
        let next = check_spec(initial, items, n);
        lemma_chain_extend(initial, n, prev, next);
    }
}

/// Extending a checked chain by one step or one refusal at position
/// `n - 1` gives a checked chain of `n` items.
proof fn lemma_chain_extend(initial: PipelineShape, n: nat, prev: CheckState, next: CheckState)
    requires
        n > 0,
        chain_checked(initial, (n - 1) as nat, prev),
        ({
            let (shape, steps, diags) = prev;
            let (shape2, steps2, diags2) = next;
            ||| {
                &&& steps2 == steps.push(steps2.last())
                &&& diags2 == diags
                &&& steps2.last().item_index == n - 1
                &&& steps2.last().input == shape
                &&& shape2 == steps2.last().output
            }
            ||| {
                &&& steps2 == steps
                &&& shape2 == shape
                &&& diags2 == diags.push(diags2.last())
                &&& diags2.last().0 == n - 1
            }
        }),
    ensures
        chain_checked(initial, n, next),
{
    let (shape, steps, diags) = prev;
    let (shape2, steps2, diags2) = next;
    if steps2.len() > steps.len() {
        assert forall|j: int| 0 <= j < steps2.len() implies (#[trigger] steps2[j]).item_index < n by {
            if j < steps.len() {
                assert(steps2[j] == steps[j]);
            }
        }
        assert forall|i: int, j: int| 0 <= i < j < steps2.len() implies (#[trigger] steps2[i]).item_index
            < (#[trigger] steps2[j]).item_index by {
            assert(steps2[i] == steps[i]);
            if j < steps.len() {
                assert(steps2[j] == steps[j]);
            }
        }
        assert forall|i: int, j: int|
            0 <= i < steps2.len() && 0 <= j < diags2.len() implies (#[trigger] steps2[i]).item_index
            != (#[trigger] diags2[j]).0 by {
            assert(diags2[j] == diags[j]);
            if i < steps.len() {
                assert(steps2[i] == steps[i]);
            }
        }
        assert forall|i: int, j: int|
            0 <= i && j == i + 1 && j < steps2.len() implies (#[trigger] steps2[j]).input == (
            #[trigger] steps2[i]).output by {
            assert(steps2[i] == steps[i]);
            if j < steps.len() {
                assert(steps2[j] == steps[j]);
            } else {
                assert(steps[i] == steps.last());
            }
        }
        if steps.len() > 0 {
            assert(steps2[0] == steps[0]);
        }
    } else {
        assert forall|j: int| 0 <= j < diags2.len() implies (#[trigger] diags2[j]).0 < n by {
            if j < diags.len() {
                assert(diags2[j] == diags[j]);
            }
        }
        assert forall|i: int, j: int| 0 <= i < j < diags2.len() implies (#[trigger] diags2[i]).0 < (
        #[trigger] diags2[j]).0 by {
            assert(diags2[i] == diags[i]);
            if j < diags.len() {
                assert(diags2[j] == diags[j]);
            }
        }
        assert forall|i: int, j: int|
            0 <= i < steps2.len() && 0 <= j < diags2.len() implies (#[trigger] steps2[i]).item_index
            != (#[trigger] diags2[j]).0 by {
            assert(steps2[i] == steps[i]);
            if j < diags.len() {
                assert(diags2[j] == diags[j]);
            }
        }
    }
}

/// The refusals of a check, as (position, node type, message).
pub open spec fn diagnostics_view(d: Seq<PipelineShapeDiagnostic>) -> Seq<(usize, ANodeTypeId, Seq<char>)> {
    d.map_values(|x: PipelineShapeDiagnostic| (x.item_index, x.node_type, x.message@))
}

/// Checks the shapes along a chain of filters, starting from
/// `initial_shape`.
#[verifier::spinoff_prover]
#[verifier::rlimit(40)]
pub fn check_filter_pipeline_shapes(initial_shape: PipelineShape, items: &Vec<PipelineShapeCheckItem<'_>>) -> (r:
    PipelineShapeResult)
    ensures
        ({
            let (shape, steps, diags) = check_spec(initial_shape, items@, items@.len());
            &&& r.final_shape == shape
            &&& r.steps@ == steps
            &&& diagnostics_view(r.diagnostics@) == diags
        }),
{
    let mut current = initial_shape;
    let mut steps: Vec<PipelineShapeStep> = Vec::new();
    let mut diagnostics: Vec<PipelineShapeDiagnostic> = Vec::new();
    let mut i: usize = 0;
    while i < items.len()
        invariant
            i <= items@.len(),
            ({
                let (shape, s, d) = check_spec(initial_shape, items@, i as nat);
                &&& current == shape
                &&& steps@ == s
                &&& diagnostics_view(diagnostics@) == d
            }),
        decreases items@.len() - i,
    {
        let item = &items[i];
        let mut p: usize = 0;
        let mut found: Option<usize> = None;
        while p < item.capabilities.len()
            invariant
                p <= item.capabilities@.len(),
                found is None ==> forall|j: int| 0 <= j < p ==> item.capabilities@[j].role != SurfaceItemKind::Filter,
                found matches Some(q) ==> q < item.capabilities@.len() && item.capabilities@[q as int].role
                    == SurfaceItemKind::Filter && forall|j: int|
                    0 <= j < q ==> item.capabilities@[j].role != SurfaceItemKind::Filter,
            decreases item.capabilities@.len() - p,
        {
            if found.is_none() && item.capabilities[p].role == SurfaceItemKind::Filter {
                found = Some(p);
            }
            p = p + 1;
        }
        proof {
            let caps = item.capabilities@;
            match found {
                None => {
                    assert(!exists|j: int| 0 <= j < caps.len() && #[trigger] caps[j].role == SurfaceItemKind::Filter);
                },
                Some(q) => {
                    assert(caps[q as int].role == SurfaceItemKind::Filter);
                    let c = first_filter(caps)->0;
                    if c < q {
                        assert(caps[c].role != SurfaceItemKind::Filter);
                    }
                    if c > q {
                        assert(caps[q as int].role != SurfaceItemKind::Filter);
                    }
                },
            }
        }
        let ghost before_diags = diagnostics@;
        match found {
            None => {
                diagnostics.push(
                    PipelineShapeDiagnostic {
                        item_index: i,
                        node_type: item.node_type.clone(),
                        message: "ANode is not filter-capable".to_owned(),
                    },
                );
            },
            Some(q) => {
                let capability = &item.capabilities[q];
                match transition_shape(&current, item, capability) {
                    Ok(output) => {
                        let next = output.clone();
                        steps.push(
                            PipelineShapeStep {
                                item_index: i,
                                node_type: item.node_type.clone(),
                                input: current,
                                output,
                                cardinality: capability.cardinality,
                            },
                        );
                        current = next;
                    },
                    Err(message) => {
                        diagnostics.push(
                            PipelineShapeDiagnostic { item_index: i, node_type: item.node_type.clone(), message },
                        );
                    },
                }
            },
        }
        proof {
            if diagnostics@.len() > before_diags.len() {
                assert(diagnostics_view(diagnostics@) =~= diagnostics_view(before_diags).push(
                    (diagnostics@.last().item_index, diagnostics@.last().node_type, diagnostics@.last().message@),
                ));
            }
        }
        i = i + 1;
    }
    PipelineShapeResult { final_shape: current, steps, diagnostics }
}

/// What went wrong while lowering a filter pipeline.
#[derive(Clone, Copy, Debug, PartialEq, Eq, Structural)]
pub enum PipelineLoweringDiagnosticKind {
    InvalidRegionKind,
    RegionInstanceMismatch,
    RegionRoleMismatch,
    MissingBoundarySockets,
    MissingDeclaration,
    NotFilterCapable,
    MissingLinearAutowire,
    UnsupportedValueSetElementwise,
    UnsupportedValueSetAggregate,
    UnsupportedValueSetReshape,
    UnsupportedValueSetExpand,
    GraphEdit,
}

/// A finding of lowering, about one item or the whole region.
#[derive(Debug, PartialEq, Eq)]
pub struct PipelineLoweringDiagnostic {
    pub kind: PipelineLoweringDiagnosticKind,
    pub item_index: Option<usize>,
    pub node_type: Option<ANodeTypeId>,
    pub message: String,
}

/// What the node registry declares for the type of an item: the roles it
/// can play and its signature for the item's instance.
#[derive(Debug)]
pub struct ItemDeclaration {
    pub capabilities: Vec<ANodeRoleCapability>,
    pub signature: ANodeSignature,
}

/// The outcome of lowering a filter region: the graph (the input graph,
/// unchanged, unless lowering succeeded), the shape check, the nodes
/// inserted and the findings.
#[derive(Debug)]
pub struct FilterPipelineLoweringResult {
    pub graph: AlchemistGraph,
    pub shape: PipelineShapeResult,
    pub inserted_nodes: Vec<ANodeId>,
    pub diagnostics: Vec<PipelineLoweringDiagnostic>,
}

impl FilterPipelineLoweringResult {
    /// Whether the shapes fit and nothing went wrong.
    pub fn is_valid(&self) -> (r: bool)
        ensures
            r == (self.shape.diagnostics@.len() == 0 && self.diagnostics@.len() == 0),
    {
        self.shape.is_valid() && self.diagnostics.len() == 0
    }
}

/// The kinds of the findings of a region's definition and instance, in
/// order: the region must be a filter pipeline, the instance must be of it,
/// it must accept filters, and it must name both boundary sockets.
pub open spec fn region_findings(definition: ManagedRegionDefinition, instance: ManagedRegionInstance) -> Seq<
    PipelineLoweringDiagnosticKind,
> {
    let a = if definition.kind != ManagedRegionKind::FilterPipeline {
        seq![PipelineLoweringDiagnosticKind::InvalidRegionKind]
    } else {
        Seq::empty()
    };
    let b = if definition.id@ != instance.region_id@ {
        a.push(PipelineLoweringDiagnosticKind::RegionInstanceMismatch)
    } else {
        a
    };
    let c = if !definition.accepted_roles@.contains(SurfaceItemKind::Filter) {
        b.push(PipelineLoweringDiagnosticKind::RegionRoleMismatch)
    } else {
        b
    };
    if definition.input_socket is None || definition.output_socket is None {
        c.push(PipelineLoweringDiagnosticKind::MissingBoundarySockets)
    } else {
        c
    }
}

/// The kinds of a list of findings.
pub open spec fn finding_kinds(d: Seq<PipelineLoweringDiagnostic>) -> Seq<PipelineLoweringDiagnosticKind> {
    d.map_values(|x: PipelineLoweringDiagnostic| x.kind)
}

/// Checks that `definition` is a filter region that accepts filters and has
/// boundary sockets, and that `instance` is of it.
pub fn validate_filter_pipeline_region(definition: &ManagedRegionDefinition, instance: &ManagedRegionInstance) -> (r:
    Vec<PipelineLoweringDiagnostic>)
    ensures
        finding_kinds(r@) == region_findings(*definition, *instance),
        forall|i: int| 0 <= i < r@.len() ==> (#[trigger] r@[i]).item_index is None && r@[i].node_type is None,
{
    let mut diagnostics: Vec<PipelineLoweringDiagnostic> = Vec::new();
    if definition.kind != ManagedRegionKind::FilterPipeline {
        diagnostics.push(
            PipelineLoweringDiagnostic {
                kind: PipelineLoweringDiagnosticKind::InvalidRegionKind,
                item_index: None,
                node_type: None,
                message: "managed region is not a filter pipeline".to_owned(),
            },
        );
    }
    if definition.id != instance.region_id {
        let head = concat3("managed region instance `", instance.region_id.as_str(), "` does not match definition `");
        diagnostics.push(
            PipelineLoweringDiagnostic {
                kind: PipelineLoweringDiagnosticKind::RegionInstanceMismatch,
                item_index: None,
                node_type: None,
                message: concat3(head.as_str(), definition.id.as_str(), "`"),
            },
        );
    }
    let mut accepts_filters = false;
    let mut i: usize = 0;
    while i < definition.accepted_roles.len()
        invariant
            i <= definition.accepted_roles@.len(),
            accepts_filters <==> exists|j: int|
                0 <= j < i && #[trigger] definition.accepted_roles@[j] == SurfaceItemKind::Filter,
        decreases definition.accepted_roles@.len() - i,
    {
        if definition.accepted_roles[i] == SurfaceItemKind::Filter {
            accepts_filters = true;
        }
        i = i + 1;
    }
    if !accepts_filters {
        diagnostics.push(
            PipelineLoweringDiagnostic {
                kind: PipelineLoweringDiagnosticKind::RegionRoleMismatch,
                item_index: None,
                node_type: None,
                message: "managed region does not accept filter items".to_owned(),
            },
        );
    }
    if definition.input_socket.is_none() || definition.output_socket.is_none() {
        diagnostics.push(
            PipelineLoweringDiagnostic {
                kind: PipelineLoweringDiagnosticKind::MissingBoundarySockets,
                item_index: None,
                node_type: None,
                message: "filter pipeline region must declare input and output boundary sockets".to_owned(),
            },
        );
    }
    proof {
        assert(finding_kinds(diagnostics@) =~= region_findings(*definition, *instance));
    }
    diagnostics
}

/// Whether step `s` crosses a set of values in a way that lowering cannot
/// wire yet: anything but a whole-set filter on a set of values.
pub open spec fn unsupported_step(s: PipelineShapeStep) -> bool {
    s.cardinality != PipelineCardinality::WholeSet && (s.input is ValueSet || s.output is ValueSet)
}

/// The kind of finding for an unsupported step of cardinality `c`.
pub open spec fn unsupported_kind(c: PipelineCardinality) -> PipelineLoweringDiagnosticKind {
    match c {
        PipelineCardinality::Elementwise => PipelineLoweringDiagnosticKind::UnsupportedValueSetElementwise,
        PipelineCardinality::Aggregate => PipelineLoweringDiagnosticKind::UnsupportedValueSetAggregate,
        PipelineCardinality::Reshape => PipelineLoweringDiagnosticKind::UnsupportedValueSetReshape,
        _ => PipelineLoweringDiagnosticKind::UnsupportedValueSetExpand,
    }
}

/// The findings for the first `n` steps, as (kind, position, node type).
pub open spec fn unsupported_spec(steps: Seq<PipelineShapeStep>, n: nat) -> Seq<
    (PipelineLoweringDiagnosticKind, usize, ANodeTypeId),
>
    decreases n,
{
    if n == 0 || n > steps.len() {
        Seq::empty()
    } else {
        let rest = unsupported_spec(steps, (n - 1) as nat);
        let s = steps[n - 1];
        if unsupported_step(s) {
            rest.push((unsupported_kind(s.cardinality), s.item_index, s.node_type))
        } else {
            rest
        }
    }
}

/// The findings of a list, as (kind, position, node type) when they have both.
pub open spec fn item_findings(d: Seq<PipelineLoweringDiagnostic>) -> Seq<
    (PipelineLoweringDiagnosticKind, usize, ANodeTypeId),
> {
    d.map_values(|x: PipelineLoweringDiagnostic| (x.kind, x.item_index->0, x.node_type->0))
}

/// A finding for each step that crosses a set of values in a way lowering
/// cannot wire yet.
pub fn unsupported_shape_lowering_diagnostics(shape: &PipelineShapeResult) -> (r: Vec<PipelineLoweringDiagnostic>)
    ensures
        item_findings(r@) == unsupported_spec(shape.steps@, shape.steps@.len()),
        forall|i: int| 0 <= i < r@.len() ==> (#[trigger] r@[i]).item_index is Some && r@[i].node_type is Some,
{
    let mut r: Vec<PipelineLoweringDiagnostic> = Vec::new();
    let mut i: usize = 0;
    while i < shape.steps.len()
        invariant
            i <= shape.steps@.len(),
            item_findings(r@) == unsupported_spec(shape.steps@, i as nat),
            forall|j: int| 0 <= j < r@.len() ==> (#[trigger] r@[j]).item_index is Some && r@[j].node_type is Some,
        decreases shape.steps@.len() - i,
    {
        let step = &shape.steps[i];
        let set_involved = match (&step.input, &step.output) {
            (PipelineShape::ValueSet { .. }, _) => true,
            (_, PipelineShape::ValueSet { .. }) => true,
            _ => false,
        };
        let ghost before = r@;
        if step.cardinality != PipelineCardinality::WholeSet && set_involved {
            let (kind, message) = match step.cardinality {
                PipelineCardinality::Elementwise => (
                    PipelineLoweringDiagnosticKind::UnsupportedValueSetElementwise,
                    "elementwise ValueSet lowering requires lane-aware MapEach support",
                ),
                PipelineCardinality::Aggregate => (
                    PipelineLoweringDiagnosticKind::UnsupportedValueSetAggregate,
                    "aggregate ValueSet lowering requires an explicit reduction strategy",
                ),
                PipelineCardinality::Reshape => (
                    PipelineLoweringDiagnosticKind::UnsupportedValueSetReshape,
                    "reshape ValueSet lowering requires an explicit projection strategy",
                ),
                _ => (
                    PipelineLoweringDiagnosticKind::UnsupportedValueSetExpand,
                    "expand lowering to ValueSet requires an explicit broadcast strategy",
                ),
            };
            r.push(
                PipelineLoweringDiagnostic {
                    kind,
                    item_index: Some(step.item_index),
                    node_type: Some(step.node_type.clone()),
                    message: message.to_owned(),
                },
            );
            proof {
                assert(item_findings(r@) =~= item_findings(before).push(
                    (kind, step.item_index, step.node_type),
                ));
            }
        }
        i = i + 1;
    }
    r
}

/// The sockets a filter is wired through, in and out: those of its
/// transform or gate wiring, or its primary sockets when it declares no
/// wiring; none for sources and sinks.
pub open spec fn linear_sockets_spec(c: ANodeRoleCapability) -> Option<(SocketId, SocketId)> {
    match c.autowire {
        AutoWirePolicy::UnaryTransform { input, output } => Some((input, output)),
        AutoWirePolicy::Gate { input, output, .. } => Some((input, output)),
        AutoWirePolicy::NoAutowire => match (c.primary_input, c.primary_output) {
            (Some(i), Some(o)) => Some((i, o)),
            _ => None,
        },
        _ => None,
    }
}

/// The sockets a filter is wired through (see [`linear_sockets_spec`]).
pub fn linear_filter_sockets(capability: &ANodeRoleCapability) -> (r: Option<(SocketId, SocketId)>)
    ensures
        r == linear_sockets_spec(*capability),
{
    match &capability.autowire {
        AutoWirePolicy::UnaryTransform { input, output } => Some((input.clone(), output.clone())),
        AutoWirePolicy::Gate { input, output, .. } => Some((input.clone(), output.clone())),
        AutoWirePolicy::NoAutowire => match (&capability.primary_input, &capability.primary_output) {
            (Some(i), Some(o)) => Some((i.clone(), o.clone())),
            _ => None,
        },
        _ => None,
    }
}

/// A finding for a refused graph edit.
fn graph_edit_diagnostic(item_index: Option<usize>, node_type: Option<ANodeTypeId>, error: GraphEditError) -> (r:
    PipelineLoweringDiagnostic)
    ensures
        r.kind == PipelineLoweringDiagnosticKind::GraphEdit,
        r.item_index == item_index,
        r.node_type == node_type,
{
    PipelineLoweringDiagnostic {
        kind: PipelineLoweringDiagnosticKind::GraphEdit,
        item_index,
        node_type,
        message: error.message(),
    }
}

/// The positions of the items of `instance` that take part in lowering
/// among the first `n`: the enabled ones whose type is declared.
pub open spec fn resolved_positions(
    instance: ManagedRegionInstance,
    declarations: Seq<Option<ItemDeclaration>>,
    n: nat,
) -> Seq<int>
    decreases n,
{
    if n == 0 {
        Seq::empty()
    } else {
        let rest = resolved_positions(instance, declarations, (n - 1) as nat);
        let i = n - 1;
        if instance.items@[i].enabled && declarations[i] is Some {
            rest.push(i)
        } else {
            rest
        }
    }
}

/// The positions and node types of the enabled items among the first `n`
/// whose type is not declared.
pub open spec fn undeclared_items(
    instance: ManagedRegionInstance,
    declarations: Seq<Option<ItemDeclaration>>,
    n: nat,
) -> Seq<(PipelineLoweringDiagnosticKind, usize, ANodeTypeId)>
    decreases n,
{
    if n == 0 {
        Seq::empty()
    } else {
        let rest = undeclared_items(instance, declarations, (n - 1) as nat);
        let i = n - 1;
        if instance.items@[i].enabled && declarations[i] is None {
            rest.push((PipelineLoweringDiagnosticKind::MissingDeclaration, i as usize, instance.items@[i].anode.type_id))
        } else {
            rest
        }
    }
}

/// Whether `item` is the shape-check item of the item at position `i`:
/// its node type and bindings, and its declaration's roles and signature.
pub open spec fn is_check_item(
    item: PipelineShapeCheckItem<'_>,
    instance: ManagedRegionInstance,
    declarations: Seq<Option<ItemDeclaration>>,
    i: int,
) -> bool {
    &&& *item.node_type == instance.items@[i].anode.type_id
    &&& *item.instance_bindings == instance.items@[i].anode.type_bindings
    &&& declarations[i] matches Some(d) && *item.capabilities == d.capabilities && *item.signature == d.signature
}

/// The edges that wire the hops `(node, input, output)` one after the
/// other from `start`, and the output where the chain ends.
pub open spec fn chain_spec(start: OutputSocketRef, hops: Seq<(ANodeId, SocketId, SocketId)>) -> (Seq<AEdge>, OutputSocketRef)
    decreases hops.len(),
{
    if hops.len() == 0 {
        (Seq::empty(), start)
    } else {
        let (edges, last) = chain_spec(start, hops.drop_last());
        let h = hops.last();
        (
            edges.push(AEdge { from: last, to: InputSocketRef { node: h.0, socket: h.1 } }),
            OutputSocketRef { node: h.0, socket: h.2 },
        )
    }
}

/// The wiring of the item at position `i`: its node, and the sockets of the
/// first filter capability of its declaration (see [`linear_sockets_spec`]).
pub open spec fn hop_of(instance: ManagedRegionInstance, declarations: Seq<Option<ItemDeclaration>>, i: int) -> Option<
    (ANodeId, SocketId, SocketId),
> {
    match declarations[i] {
        None => None,
        Some(d) => match first_filter(d.capabilities@) {
            None => None,
            Some(p) => match linear_sockets_spec(d.capabilities@[p]) {
                None => None,
                Some((input, output)) => Some((instance.items@[i].anode.id, input, output)),
            },
        },
    }
}

/// Removes the nodes `inserted` (appended in that order after `base_nodes`)
/// and every edge appended after the first `base_edge_count`.
fn undo_insertions(
    graph: &mut AlchemistGraph,
    inserted: &Vec<ANodeId>,
    base_edge_count: usize,
    Ghost(base_nodes): Ghost<Seq<(u64, crate::graph::ANodeInstance)>>,
    Ghost(base_edges): Ghost<Seq<AEdge>>,
)
    requires
        keys_distinct(old(graph).node_seq()),
        base_edge_count == base_edges.len(),
        old(graph).node_seq().len() == base_nodes.len() + inserted@.len(),
        forall|j: int| 0 <= j < base_nodes.len() ==> old(graph).node_seq()[j] == base_nodes[j],
        forall|j: int| 0 <= j < inserted@.len() ==> old(graph).node_seq()[base_nodes.len() + j].0 == inserted@[j],
        old(graph).edges@.len() >= base_edges.len(),
        forall|j: int| 0 <= j < base_edges.len() ==> old(graph).edges@[j] == base_edges[j],
    ensures
        final(graph).same_header(&*old(graph)),
        final(graph).node_seq() == base_nodes,
        final(graph).edges@ == base_edges,
{
    graph.edges.truncate(base_edge_count);
    proof {
        assert(graph.edges@ =~= base_edges);
    }
    let mut k: usize = inserted.len();
    while k > 0
        invariant
            k <= inserted@.len(),
            keys_distinct(graph.node_seq()),
            graph.same_header(&*old(graph)),
            graph.edges@ == base_edges,
            graph.node_seq().len() == base_nodes.len() + k,
            forall|j: int| 0 <= j < base_nodes.len() ==> graph.node_seq()[j] == base_nodes[j],
            forall|j: int| 0 <= j < k ==> graph.node_seq()[base_nodes.len() + j].0 == inserted@[j],
        decreases k,
    {
        k = k - 1;
        let id = inserted[k];
        let ghost before_nodes = graph.node_seq();
        let ghost last = (base_nodes.len() + k) as int;
        proof {
            lemma_key_pos(before_nodes, last);
            assert(before_nodes[last].0 == id);
            lemma_remove(before_nodes, id, id);
        }
        let _ = node_map_shift_remove(&mut graph.nodes, &id);
        proof {
            assert(graph.node_seq() == before_nodes.remove(last));
        }
    }
    proof {
        assert(graph.node_seq() =~= base_nodes);
    }
}

/// The shape-check items of the items at `positions`.
pub open spec fn check_items_spec<'a>(
    instance: &'a ManagedRegionInstance,
    declarations: &'a Vec<Option<ItemDeclaration>>,
    positions: Seq<int>,
) -> Seq<PipelineShapeCheckItem<'a>> {
    Seq::new(
        positions.len(),
        |k: int|
            PipelineShapeCheckItem {
                node_type: &instance.items@[positions[k]].anode.type_id,
                capabilities: &declarations@[positions[k]]->0.capabilities,
                signature: &declarations@[positions[k]]->0.signature,
                instance_bindings: &instance.items@[positions[k]].anode.type_bindings,
            },
    )
}

/// The position of the first filter capability among `caps`, if any.
fn first_filter_index(caps: &Vec<ANodeRoleCapability>) -> (r: Option<usize>)
    ensures
        match r {
            Some(q) => first_filter(caps@) == Some(q as int) && q < caps@.len(),
            None => first_filter(caps@) is None,
        },
{
    let mut p: usize = 0;
    while p < caps.len()
        invariant
            p <= caps@.len(),
            forall|j: int| 0 <= j < p ==> caps@[j].role != SurfaceItemKind::Filter,
        decreases caps@.len() - p,
    {
        if caps[p].role == SurfaceItemKind::Filter {
            proof {
                assert(caps@[p as int].role == SurfaceItemKind::Filter);
                let c = first_filter(caps@)->0;
                if c < p {
                    assert(caps@[c].role != SurfaceItemKind::Filter);
                }
                if c > p {
                    assert(caps@[p as int].role != SurfaceItemKind::Filter);
                }
            }
            return Some(p);
        }
        p = p + 1;
    }
    proof {
        assert(!exists|j: int| 0 <= j < caps@.len() && #[trigger] caps@[j].role == SurfaceItemKind::Filter);
    }
    None
}

/// The shape-check items of the enabled items of `instance` whose type is
/// declared, with their positions; a finding for each enabled item whose
/// type is not declared is appended to `diagnostics`.
fn resolve_filter_pipeline_items<'a>(
    instance: &'a ManagedRegionInstance,
    declarations: &'a Vec<Option<ItemDeclaration>>,
    diagnostics: &mut Vec<PipelineLoweringDiagnostic>,
) -> (r: (Vec<PipelineShapeCheckItem<'a>>, Vec<usize>))
    requires
        declarations@.len() == instance.items@.len(),
    ensures
        final(diagnostics)@.len() >= old(diagnostics)@.len(),
        final(diagnostics)@.take(old(diagnostics)@.len() as int) == old(diagnostics)@,
        item_findings(final(diagnostics)@.skip(old(diagnostics)@.len() as int)) == undeclared_items(
            *instance,
            declarations@,
            instance.items@.len() as nat,
        ),
        positions_view(r.1@) == resolved_positions(
            *instance,
            declarations@,
            instance.items@.len() as nat,
        ),
        r.0@ == check_items_spec(instance, declarations, positions_view(r.1@)),
        forall|q: int| 0 <= q < r.1@.len() ==> r.1@[q] < instance.items@.len(),
        forall|q: int| 0 <= q < r.1@.len() ==> (#[trigger] declarations@[r.1@[q] as int]) is Some,
{
    let ghost findings_len = diagnostics@.len();
    let ghost start_d = diagnostics@;
    let mut items: Vec<PipelineShapeCheckItem> = Vec::new();
    let mut positions: Vec<usize> = Vec::new();
    let mut i: usize = 0;
    while i < instance.items.len()
        invariant
            i <= instance.items@.len(),
            declarations@.len() == instance.items@.len(),
            diagnostics@.len() >= findings_len,
            findings_len == start_d.len(),
            diagnostics@.take(findings_len as int) == start_d,
            item_findings(diagnostics@.skip(findings_len as int)) == undeclared_items(
                *instance,
                declarations@,
                i as nat,
            ),
            positions_view(positions@) == resolved_positions(*instance, declarations@, i as nat),
            items@ == check_items_spec(instance, declarations, positions_view(positions@)),
            forall|q: int| 0 <= q < positions@.len() ==> positions@[q] < i,
            forall|q: int| 0 <= q < positions@.len() ==> (#[trigger] declarations@[positions@[q] as int]) is Some,
        decreases instance.items@.len() - i,
    {
        let item = &instance.items[i];
        let ghost before_d = diagnostics@;
        let ghost before_p = positions@;
        if item.enabled {
            match &declarations[i] {
                None => {
                    diagnostics.push(
                        PipelineLoweringDiagnostic {
                            kind: PipelineLoweringDiagnosticKind::MissingDeclaration,
                            item_index: Some(i),
                            node_type: Some(item.anode.type_id.clone()),
                            message: "ANode declaration is not registered".to_owned(),
                        },
                    );
                },
                Some(declaration) => {
                    items.push(
                        PipelineShapeCheckItem {
                            node_type: &item.anode.type_id,
                            capabilities: &declaration.capabilities,
                            signature: &declaration.signature,
                            instance_bindings: &item.anode.type_bindings,
                        },
                    );
                    positions.push(i);
                },
            }
        }
        proof {
            assert(diagnostics@.take(findings_len as int) =~= before_d.take(findings_len as int));
            if diagnostics@.len() > before_d.len() {
                assert(diagnostics@.skip(findings_len as int) =~= before_d.skip(findings_len as int).push(
                    diagnostics@.last(),
                ));
                assert(item_findings(diagnostics@.skip(findings_len as int)) =~= item_findings(
                    before_d.skip(findings_len as int),
                ).push(
                    (diagnostics@.last().kind, diagnostics@.last().item_index->0, diagnostics@.last().node_type->0),
                ));
            } else {
                assert(diagnostics@ =~= before_d);
            }
            if positions@.len() > before_p.len() {
                assert(positions_view(positions@) =~= positions_view(before_p).push(
                    i as int,
                ));
                assert(items@ =~= check_items_spec(instance, declarations, positions_view(positions@)));
            } else {
                assert(positions@ =~= before_p);
            }
        }
        i = i + 1;
    }
    (items, positions)
}

/// Whether entry `n` of a node list is node `id`, a copy of `source`.
pub open spec fn inserted_as(n: (u64, crate::graph::ANodeInstance), id: ANodeId, source: crate::graph::ANodeInstance) -> bool {
    n.0 == id && instance_copy(source, n.1)
}

/// The nodes of a list of hops.
pub open spec fn hop_nodes(hops: Seq<(ANodeId, SocketId, SocketId)>) -> Seq<ANodeId> {
    hops.map_values(|h: (ANodeId, SocketId, SocketId)| h.0)
}

/// Positions as integers.
pub open spec fn positions_view(v: Seq<usize>) -> Seq<int> {
    v.map_values(|p: usize| p as int)
}

/// The wiring of the items at `positions`, in order (see [`hop_of`]).
pub open spec fn hops_spec(
    instance: ManagedRegionInstance,
    declarations: Seq<Option<ItemDeclaration>>,
    positions: Seq<int>,
) -> Seq<(ANodeId, SocketId, SocketId)> {
    Seq::new(positions.len(), |k: int| hop_of(instance, declarations, positions[k])->0)
}

/// The success of wiring the items at `positions` into `graph`: their nodes
/// appended, as copies of the items' nodes, and wired one after the other
/// from `start` to `exit`.
pub open spec fn wired(
    graph: AlchemistGraph,
    result: AlchemistGraph,
    inserted: Seq<ANodeId>,
    instance: ManagedRegionInstance,
    declarations: Seq<Option<ItemDeclaration>>,
    positions: Seq<int>,
    start: OutputSocketRef,
    exit: InputSocketRef,
) -> bool {
    &&& forall|k: int| 0 <= k < positions.len() ==> (#[trigger] hop_of(instance, declarations, positions[k])) is Some
    &&& inserted == hop_nodes(hops_spec(instance, declarations, positions))
    &&& result.node_seq().len() == graph.node_seq().len() + positions.len()
    &&& forall|j: int| 0 <= j < graph.node_seq().len() ==> result.node_seq()[j] == graph.node_seq()[j]
    &&& forall|k: int|
        0 <= k < positions.len() ==> inserted_as(
            #[trigger] result.node_seq()[graph.node_seq().len() + k],
            hops_spec(instance, declarations, positions)[k].0,
            instance.items@[positions[k]].anode,
        )
    &&& result.edges@ == graph.edges@ + chain_spec(start, hops_spec(instance, declarations, positions)).0.push(
        AEdge { from: chain_spec(start, hops_spec(instance, declarations, positions)).1, to: exit },
    )
}

/// The parts of [`wired`], one by one.
proof fn lemma_wired(
    graph: AlchemistGraph,
    result: AlchemistGraph,
    inserted: Seq<ANodeId>,
    instance: ManagedRegionInstance,
    declarations: Seq<Option<ItemDeclaration>>,
    positions: Seq<int>,
    start: OutputSocketRef,
    exit: InputSocketRef,
)
    requires
        forall|k: int| 0 <= k < positions.len() ==> (#[trigger] hop_of(instance, declarations, positions[k])) is Some,
        inserted == hop_nodes(hops_spec(instance, declarations, positions)),
        result.node_seq().len() == graph.node_seq().len() + positions.len(),
        forall|j: int| 0 <= j < graph.node_seq().len() ==> result.node_seq()[j] == graph.node_seq()[j],
        forall|k: int|
            0 <= k < positions.len() ==> inserted_as(
                #[trigger] result.node_seq()[graph.node_seq().len() + k],
                hops_spec(instance, declarations, positions)[k].0,
                instance.items@[positions[k]].anode,
            ),
        result.edges@ == graph.edges@ + chain_spec(start, hops_spec(instance, declarations, positions)).0.push(
            AEdge { from: chain_spec(start, hops_spec(instance, declarations, positions)).1, to: exit },
        ),
    ensures
        wired(graph, result, inserted, instance, declarations, positions, start, exit),
{
}

/// Whether wiring the items at `positions` into `graph`, from `start` to
/// `exit`, meets no refusal: each item is filter-capable with linear
/// sockets, the items' node identifiers are new to the graph, distinct and
/// the target of no edge, both boundary nodes are in the graph, and the exit
/// input has no edge.
pub open spec fn chain_ok(
    graph: AlchemistGraph,
    instance: ManagedRegionInstance,
    declarations: Seq<Option<ItemDeclaration>>,
    positions: Seq<int>,
    start: OutputSocketRef,
    exit: InputSocketRef,
) -> bool {
    &&& forall|k: int| #![trigger positions[k]] 0 <= k < positions.len() ==> hop_of(instance, declarations, positions[k]) is Some
    &&& forall|k: int|
        #![trigger positions[k]]
        0 <= k < positions.len() ==> !has_key(graph.node_seq(), instance.items@[positions[k]].anode.id)
    &&& forall|k1: int, k2: int|
        #![trigger positions[k1], positions[k2]]
        0 <= k1 < k2 < positions.len() ==> instance.items@[positions[k1]].anode.id != instance.items@[positions[k2]].anode.id
    &&& forall|k: int, j: int|
        #![trigger positions[k], graph.edges@[j]]
        0 <= k < positions.len() && 0 <= j < graph.edges@.len() ==> graph.edges@[j].to.node
            != instance.items@[positions[k]].anode.id
    &&& has_key(graph.node_seq(), start.node)
    &&& has_key(graph.node_seq(), exit.node)
    &&& !input_connected(graph.edges@, exit@)
}

/// The nodes of a draft are those of the base and the inserted ones.
proof fn lemma_draft_keys(draft: Seq<(u64, ANodeInstance)>, base: Seq<(u64, ANodeInstance)>, inserted: Seq<ANodeId>, x: u64)
    requires
        draft.len() == base.len() + inserted.len(),
        forall|j: int| 0 <= j < base.len() ==> draft[j] == base[j],
        forall|j: int| 0 <= j < inserted.len() ==> draft[base.len() + j].0 == inserted[j],
    ensures
        has_key(draft, x) <==> has_key(base, x) || inserted.contains(x),
{
    if has_key(draft, x) {
        let j = choose|j: int| 0 <= j < draft.len() && draft[j].0 == x;
        if j >= base.len() {
            assert(inserted[j - base.len()] == x);
        } else {
            assert(base[j].0 == x);
        }
    }
    if has_key(base, x) {
        let j = choose|j: int| 0 <= j < base.len() && base[j].0 == x;
        assert(draft[j].0 == x);
    }
    if inserted.contains(x) {
        let m = choose|m: int| 0 <= m < inserted.len() && inserted[m] == x;
        assert(draft[base.len() + m].0 == x);
    }
}

/// Inserts the nodes of the items at `positions` and wires them in a chain
/// from `start` to `exit`. When an edit is refused, every insertion is
/// undone and the findings say why.
#[verifier::rlimit(60)]
fn wire_filter_chain(
    graph: AlchemistGraph,
    instance: &ManagedRegionInstance,
    declarations: &Vec<Option<ItemDeclaration>>,
    positions: &Vec<usize>,
    start: OutputSocketRef,
    exit: InputSocketRef,
) -> (r: (AlchemistGraph, Vec<ANodeId>, Vec<PipelineLoweringDiagnostic>))
    requires
        keys_distinct(graph.node_seq()),
        declarations@.len() == instance.items@.len(),
        forall|q: int| 0 <= q < positions@.len() ==> positions@[q] < instance.items@.len(),
        forall|q: int| 0 <= q < positions@.len() ==> (#[trigger] declarations@[positions@[q] as int]) is Some,
    ensures
        keys_distinct(r.0.node_seq()),
        r.0.same_header(&graph),
        r.2@.len() > 0 ==> r.0.node_seq() == graph.node_seq() && r.0.edges@ == graph.edges@ && r.1@.len() == 0,
        r.2@.len() == 0 ==> wired(
            graph,
            r.0,
            r.1@,
            *instance,
            declarations@,
            positions_view(positions@),
            start,
            exit,
        ),
        chain_ok(graph, *instance, declarations@, positions_view(positions@), start, exit) ==> r.2@.len() == 0,
{
    let ghost base_nodes = graph.node_seq();
    let ghost base_edges = graph.edges@;
    let base_edge_count = graph.edges.len();
    let ghost sp = positions_view(positions@);
    let ghost hops = hops_spec(*instance, declarations@, sp);
    let ghost graph_header = graph;
    let mut draft = graph;
    let mut previous = start.clone();
    let mut inserted: Vec<ANodeId> = Vec::new();
    let mut edit_diagnostics: Vec<PipelineLoweringDiagnostic> = Vec::new();
    let mut stopped = false;
    let mut k: usize = 0;
    while k < positions.len() && !stopped
        invariant
            k <= positions@.len(),
            keys_distinct(draft.node_seq()),
            draft.same_header(&graph_header),
            declarations@.len() == instance.items@.len(),
            forall|q: int| 0 <= q < positions@.len() ==> positions@[q] < instance.items@.len(),
            forall|q: int|
                0 <= q < positions@.len() ==> (#[trigger] declarations@[positions@[q] as int]) is Some,
            sp == positions_view(positions@),
            hops == hops_spec(*instance, declarations@, sp),
            keys_distinct(base_nodes),
            draft.node_seq().len() == base_nodes.len() + inserted@.len(),
            forall|j: int| 0 <= j < base_nodes.len() ==> draft.node_seq()[j] == base_nodes[j],
            forall|j: int| 0 <= j < inserted@.len() ==> draft.node_seq()[base_nodes.len() + j].0 == inserted@[j],
            draft.edges@.len() >= base_edges.len(),
            forall|j: int| 0 <= j < base_edges.len() ==> draft.edges@[j] == base_edges[j],
            forall|j: int| base_edges.len() <= j < draft.edges@.len() ==> inserted@.contains(#[trigger] draft.edges@[j].to.node),
            graph_header.node_seq() == base_nodes,
            graph_header.edges@ == base_edges,
            chain_ok(graph_header, *instance, declarations@, sp, start, exit) ==> edit_diagnostics@.len() == 0,
            stopped ==> edit_diagnostics@.len() > 0,
            edit_diagnostics@.len() == 0 ==> {
                &&& inserted@.len() == k
                &&& forall|q: int|
                    0 <= q < k ==> (#[trigger] hop_of(*instance, declarations@, positions@[q] as int)) is Some
                &&& inserted@ == hop_nodes(hops.take(k as int))
                &&& forall|q: int|
                    0 <= q < k ==> instance_copy(
                        instance.items@[positions@[q] as int].anode,
                        #[trigger] draft.node_seq()[base_nodes.len() + q].1,
                    )
                &&& draft.edges@ == base_edges + chain_spec(start, hops.take(k as int)).0
                &&& previous == chain_spec(start, hops.take(k as int)).1
            },
        decreases positions@.len() - k,
    {
        let position = positions[k];
        let item = &instance.items[position];
        let declaration = declarations[position].as_ref().unwrap();
        let ghost before_nodes = draft.node_seq();
        let ghost before_edges = draft.edges@;
        let ghost before_inserted = inserted@;
        let ghost before_diags = edit_diagnostics@;
        let ghost ok = chain_ok(graph_header, *instance, declarations@, sp, start, exit);
        proof {
            assert(sp[k as int] == position as int);
            assert(*declaration == declarations@[position as int]->0);
            if ok {
                assert(hop_of(*instance, declarations@, sp[k as int]) is Some);
            }
        }
        let capability = match first_filter_index(&declaration.capabilities) {
            None => {
                edit_diagnostics.push(
                    PipelineLoweringDiagnostic {
                        kind: PipelineLoweringDiagnosticKind::NotFilterCapable,
                        item_index: Some(position),
                        node_type: Some(item.anode.type_id.clone()),
                        message: "ANode is not filter-capable".to_owned(),
                    },
                );
                k = k + 1;
                continue;
            },
            Some(q) => &declaration.capabilities[q],
        };
        let (input, output) = match linear_filter_sockets(capability) {
            None => {
                edit_diagnostics.push(
                    PipelineLoweringDiagnostic {
                        kind: PipelineLoweringDiagnosticKind::MissingLinearAutowire,
                        item_index: Some(position),
                        node_type: Some(item.anode.type_id.clone()),
                        message: "filter item does not declare linear autowire sockets".to_owned(),
                    },
                );
                k = k + 1;
                continue;
            },
            Some(sockets) => sockets,
        };
        let node = item.anode.clone();
        let node_id = node.id;
        let ghost node_value = node;
        proof {
            lemma_draft_keys(draft.node_seq(), base_nodes, inserted@, node_id);
            if ok {
                assert(!has_key(base_nodes, instance.items@[sp[k as int]].anode.id));
                if inserted@.contains(node_id) {
                    let m = choose|m: int| 0 <= m < inserted@.len() && inserted@[m] == node_id;
                    assert(inserted@[m] == hop_nodes(hops.take(k as int))[m]);
                    assert(hops[m] == hop_of(*instance, declarations@, sp[m])->0);
                    assert(instance.items@[sp[m]].anode.id != instance.items@[sp[k as int]].anode.id);
                }
                assert(!draft.has_node(node_id));
            }
        }
        match draft.add_node(node) {
            Err(error) => {
                edit_diagnostics.push(graph_edit_diagnostic(Some(position), Some(item.anode.type_id.clone()), error));
                k = k + 1;
                continue;
            },
            Ok(_) => {},
        }
        inserted.push(node_id);
        let target = InputSocketRef { node: node_id, socket: input };
        proof {
            assert forall|j: int| base_edges.len() <= j < draft.edges@.len() implies inserted@.contains(
                #[trigger] draft.edges@[j].to.node,
            ) by {
                let x = draft.edges@[j].to.node;
                assert(before_inserted.contains(x));
                let m = choose|m: int| 0 <= m < before_inserted.len() && before_inserted[m] == x;
                assert(inserted@[m] == x);
            }
            if ok {
                lemma_draft_keys(draft.node_seq(), base_nodes, inserted@, previous.node);
                lemma_draft_keys(draft.node_seq(), base_nodes, inserted@, node_id);
                assert(inserted@[inserted@.len() - 1] == node_id);
                if k > 0 {
                    assert(hops.take(k as int).drop_last() =~= hops.take(k - 1));
                    assert(previous.node == hops[k - 1].0);
                    assert(inserted@[k - 1] == hop_nodes(hops.take(k as int))[k - 1]);
                    assert(inserted@[k - 1] == previous.node);
                } else {
                    assert(hops.take(0) =~= Seq::<(ANodeId, SocketId, SocketId)>::empty());
                    assert(previous == start);
                }
                assert(draft.has_node(previous.node));
                assert(draft.has_node(node_id));
                assert forall|j: int| 0 <= j < draft.edges@.len() implies draft.edges@[j].to@ != target@ by {
                    if j < base_edges.len() {
                        assert(draft.edges@[j] == base_edges[j]);
                        assert(sp[k as int] == position as int);
                        assert(graph_header.edges@[j].to.node != instance.items@[sp[k as int]].anode.id);
                    } else {
                        let x = draft.edges@[j].to.node;
                        assert(before_inserted.contains(x));
                        let m = choose|m: int| 0 <= m < before_inserted.len() && before_inserted[m] == x;
                        assert(before_inserted[m] == hop_nodes(hops.take(k as int))[m]);
                        assert(hops[m] == hop_of(*instance, declarations@, sp[m])->0);
                        assert(instance.items@[sp[m]].anode.id != instance.items@[sp[k as int]].anode.id);
                    }
                }
                assert(!input_connected(draft.edges@, target@));
                assert(!crate::graph::has_edge(draft.edges@, previous@, target@));
            }
        }
        let ghost mid_edges = draft.edges@;
        let connected = draft.connect(previous.clone(), target);
        proof {
            if connected is Ok {
                assert forall|j: int| base_edges.len() <= j < draft.edges@.len() implies inserted@.contains(
                    #[trigger] draft.edges@[j].to.node,
                ) by {
                    if j < mid_edges.len() {
                        assert(draft.edges@[j] == mid_edges[j]);
                    } else {
                        assert(draft.edges@[j].to.node == node_id);
                        assert(inserted@[inserted@.len() - 1] == node_id);
                    }
                }
            }
        }
        match connected {
            Err(error) => {
                edit_diagnostics.push(graph_edit_diagnostic(Some(position), Some(item.anode.type_id.clone()), error));
                stopped = true;
                k = k + 1;
                continue;
            },
            Ok(()) => {},
        }
        let ghost old_previous = previous;
        previous = OutputSocketRef { node: node_id, socket: output };
        proof {
            if before_diags.len() == 0 {
                let h = hops[k as int];
                assert(h == hop_of(*instance, declarations@, positions@[k as int] as int)->0);
                assert(hop_of(*instance, declarations@, positions@[k as int] as int) == Some((node_id, input, output)));
                assert(hops.take(k + 1) =~= hops.take(k as int).push(h));
                assert(hops.take(k + 1).drop_last() =~= hops.take(k as int));
                assert(inserted@ =~= hop_nodes(hops.take(k + 1)));
                assert(draft.edges@ =~= base_edges + chain_spec(start, hops.take(k + 1)).0);
                assert forall|q: int| 0 <= q < k + 1 implies instance_copy(
                    instance.items@[positions@[q] as int].anode,
                    #[trigger] draft.node_seq()[base_nodes.len() + q].1,
                ) by {
                    if q < k {
                        assert(draft.node_seq()[base_nodes.len() + q] == before_nodes[base_nodes.len() + q]);
                    }
                }
            }
        }
        k = k + 1;
    }
    let ghost last_output = previous;
    let ghost exit_value = exit;
    let ghost loop_edges = draft.edges@;
    if edit_diagnostics.len() == 0 {
        let ghost before_edges = draft.edges@;
        proof {
            if chain_ok(graph_header, *instance, declarations@, sp, start, exit) {
                lemma_draft_keys(draft.node_seq(), base_nodes, inserted@, previous.node);
                lemma_draft_keys(draft.node_seq(), base_nodes, inserted@, exit.node);
                if k > 0 {
                    assert(hops.take(k as int).drop_last() =~= hops.take(k - 1));
                    assert(inserted@[k - 1] == hop_nodes(hops.take(k as int))[k - 1]);
                    assert(inserted@[k - 1] == previous.node);
                } else {
                    assert(hops.take(0) =~= Seq::<(ANodeId, SocketId, SocketId)>::empty());
                    assert(previous == start);
                }
                assert(draft.has_node(previous.node));
                assert(draft.has_node(exit.node));
                assert forall|j: int| 0 <= j < draft.edges@.len() implies draft.edges@[j].to@ != exit@ by {
                    if j < base_edges.len() {
                        assert(draft.edges@[j] == base_edges[j]);
                    } else {
                        let x = draft.edges@[j].to.node;
                        let m = choose|m: int| 0 <= m < inserted@.len() && inserted@[m] == x;
                        assert(inserted@[m] == hop_nodes(hops.take(k as int))[m]);
                        assert(hops[m] == hop_of(*instance, declarations@, sp[m])->0);
                        assert(!has_key(base_nodes, instance.items@[sp[m]].anode.id));
                    }
                }
                assert(!input_connected(draft.edges@, exit@));
                assert(!crate::graph::has_edge(draft.edges@, previous@, exit@));
            }
        }
        match draft.connect(previous, exit) {
            Err(error) => {
                edit_diagnostics.push(graph_edit_diagnostic(None, None, error));
            },
            Ok(()) => {},
        }
    }
    if edit_diagnostics.len() == 0 {
        proof {
            assert(k == positions@.len());
            assert(hops.take(positions@.len() as int) =~= hops);
            let (chain, end) = chain_spec(start, hops);
            assert(last_output == end);
            assert(loop_edges == base_edges + chain);
            assert(draft.edges@ == loop_edges.push(AEdge { from: last_output, to: exit_value }));
            assert(draft.edges@ =~= base_edges + chain.push(AEdge { from: end, to: exit_value }));
            assert forall|q: int| 0 <= q < sp.len() implies (#[trigger] hop_of(*instance, declarations@, sp[q])) is Some by {
                assert(sp[q] == positions@[q] as int);
                assert(hop_of(*instance, declarations@, positions@[q] as int) is Some);
            }
            assert forall|q: int| 0 <= q < sp.len() implies draft.node_seq()[base_nodes.len() + q].0 == hops[q].0
                && instance_copy(
                instance.items@[sp[q]].anode,
                #[trigger] draft.node_seq()[base_nodes.len() + q].1,
            ) by {
                assert(sp[q] == positions@[q] as int);
                assert(inserted@[q] == hop_nodes(hops.take(k as int))[q]);
            }
            assert(inserted@ =~= hop_nodes(hops));
            assert(draft.node_seq().len() == graph.node_seq().len() + sp.len());
            assert(forall|j: int| 0 <= j < graph.node_seq().len() ==> draft.node_seq()[j] == graph.node_seq()[j]);
            assert(draft.edges@ == graph.edges@ + chain.push(AEdge { from: end, to: exit_value }));
            assert(exit_value == exit);
            let hh = hops_spec(*instance, declarations@, sp);
            assert(hh == hops);
            let (cc, ee) = chain_spec(start, hh);
            assert(forall|k: int| 0 <= k < sp.len() ==> (#[trigger] hop_of(*instance, declarations@, sp[k])) is Some);
            assert(inserted@ == hop_nodes(hh));
            assert(draft.node_seq().len() == graph.node_seq().len() + sp.len());
            assert forall|k: int|
                0 <= k < sp.len() implies inserted_as(
                    #[trigger] draft.node_seq()[graph.node_seq().len() + k],
                    hh[k].0,
                    instance.items@[sp[k]].anode,
                ) by {
                assert(graph.node_seq().len() == base_nodes.len());
                assert(hop_nodes(hops)[k] == hops[k].0);
                assert(inserted@[k] == hops[k].0);
                assert(draft.node_seq()[base_nodes.len() + k].0 == inserted@[k]);
                assert(instance_copy(
                    instance.items@[sp[k]].anode,
                    draft.node_seq()[base_nodes.len() + k].1,
                ));
            }
            assert(draft.edges@ == graph.edges@ + cc.push(AEdge { from: ee, to: exit_value }));
            lemma_wired(graph, draft, inserted@, *instance, declarations@, sp, start, exit_value);
        }
        (draft, inserted, edit_diagnostics)
    } else {
        undo_insertions(&mut draft, &inserted, base_edge_count, Ghost(base_nodes), Ghost(base_edges));
        (draft, Vec::new(), edit_diagnostics)
    }
}

/// What lowering the filter region `definition`, of instance `instance`,
/// into `graph` gives as `r` (see [`lower_filter_pipeline_region`]).
pub open spec fn lowered_as(
    graph: AlchemistGraph,
    definition: ManagedRegionDefinition,
    instance: ManagedRegionInstance,
    declarations: Vec<Option<ItemDeclaration>>,
    initial_shape: PipelineShape,
    r: FilterPipelineLoweringResult,
) -> bool {
    let positions = resolved_positions(instance, declarations@, instance.items@.len() as nat);
    let undeclared = undeclared_items(instance, declarations@, instance.items@.len() as nat);
    let findings = region_findings(definition, instance);
    let early = findings.len() > 0 || undeclared.len() > 0;
    let (shape, steps, shape_diags) = check_spec(
        initial_shape,
        check_items_spec(&instance, &declarations, positions),
        positions.len(),
    );
    let unchanged = r.graph.node_seq() == graph.node_seq() && r.graph.edges@ == graph.edges@
        && r.inserted_nodes@.len() == 0;
    &&& r.shape.final_shape == shape
    &&& r.shape.steps@ == steps
    &&& diagnostics_view(r.shape.diagnostics@) == shape_diags
    &&& early ==> {
        &&& unchanged
        &&& finding_kinds(r.diagnostics@).take(findings.len() as int) == findings
        &&& item_findings(r.diagnostics@.skip(findings.len() as int)) == undeclared
    }
    &&& !early && shape_diags.len() > 0 ==> unchanged && r.diagnostics@.len() == 0
    &&& !early && shape_diags.len() == 0 && unsupported_spec(steps, steps.len()).len() > 0 ==> {
        &&& unchanged
        &&& item_findings(r.diagnostics@) == unsupported_spec(steps, steps.len())
    }
    &&& r.diagnostics@.len() > 0 ==> unchanged
    &&& !early && shape_diags.len() == 0 && unsupported_spec(steps, steps.len()).len() == 0 && chain_ok(
        graph,
        instance,
        declarations@,
        positions,
        OutputSocketRef { node: definition.input_socket->0.node, socket: definition.input_socket->0.socket },
        InputSocketRef { node: definition.output_socket->0.node, socket: definition.output_socket->0.socket },
    ) ==> r.diagnostics@.len() == 0 && r.shape.diagnostics@.len() == 0
    &&& r.diagnostics@.len() == 0 && r.shape.diagnostics@.len() == 0 ==> wired(
        graph,
        r.graph,
        r.inserted_nodes@,
        instance,
        declarations@,
        positions,
        OutputSocketRef { node: definition.input_socket->0.node, socket: definition.input_socket->0.socket },
        InputSocketRef { node: definition.output_socket->0.node, socket: definition.output_socket->0.socket },
    )
}

/// A lowering that reports anything leaves the nodes and edges of the graph
/// as they were and inserts nothing; one that reports nothing keeps the
/// graph's nodes and edges in front and adds one node per inserted
/// identifier.
pub proof fn lemma_lowering_keeps_graph(
    graph: AlchemistGraph,
    definition: ManagedRegionDefinition,
    instance: ManagedRegionInstance,
    declarations: Vec<Option<ItemDeclaration>>,
    initial_shape: PipelineShape,
    r: FilterPipelineLoweringResult,
)
    requires
        lowered_as(graph, definition, instance, declarations, initial_shape, r),
    ensures
        r.diagnostics@.len() > 0 || r.shape.diagnostics@.len() > 0 ==> {
            &&& r.graph.node_seq() == graph.node_seq()
            &&& r.graph.edges@ == graph.edges@
            &&& r.inserted_nodes@.len() == 0
        },
        r.diagnostics@.len() == 0 && r.shape.diagnostics@.len() == 0 ==> {
            &&& r.graph.node_seq().len() == graph.node_seq().len() + r.inserted_nodes@.len()
            &&& forall|j: int| 0 <= j < graph.node_seq().len() ==> r.graph.node_seq()[j] == graph.node_seq()[j]
            &&& r.graph.edges@.take(graph.edges@.len() as int) == graph.edges@
        },
{
    let positions = resolved_positions(instance, declarations@, instance.items@.len() as nat);
    let (shape, steps, shape_diags) = check_spec(
        initial_shape,
        check_items_spec(&instance, &declarations, positions),
        positions.len(),
    );
    assert(diagnostics_view(r.shape.diagnostics@).len() == r.shape.diagnostics@.len());
    if r.diagnostics@.len() == 0 && r.shape.diagnostics@.len() == 0 {
        let start = OutputSocketRef { node: definition.input_socket->0.node, socket: definition.input_socket->0.socket };
        let exit = InputSocketRef { node: definition.output_socket->0.node, socket: definition.output_socket->0.socket };
        let hops = hops_spec(instance, declarations@, positions);
        assert(wired(graph, r.graph, r.inserted_nodes@, instance, declarations@, positions, start, exit));
        assert(hop_nodes(hops).len() == positions.len());
        let tail = chain_spec(start, hops).0.push(AEdge { from: chain_spec(start, hops).1, to: exit });
        assert(r.graph.edges@ == graph.edges@ + tail);
        assert(r.graph.edges@.take(graph.edges@.len() as int) =~= graph.edges@);
    }
}

/// Lowers the filter items of `instance` into `graph`, wired in a chain
/// from the region's input boundary socket to its output boundary socket.
/// `declarations` holds, for each item of `instance` in order, what the
/// node registry declares for its type (`None` when it is not registered).
///
/// The graph is returned unchanged when the region is not a valid filter
/// region, an enabled item's type is not declared, the shapes do not fit,
/// a step crosses a set of values in a way that cannot be wired yet, or an
/// edit of the graph is refused. Where none of the first four holds and
/// [`chain_ok`] does, no edit is refused and the lowering succeeds.
pub fn lower_filter_pipeline_region(
    graph: AlchemistGraph,
    definition: &ManagedRegionDefinition,
    instance: &ManagedRegionInstance,
    declarations: &Vec<Option<ItemDeclaration>>,
    initial_shape: PipelineShape,
) -> (r: FilterPipelineLoweringResult)
    requires
        keys_distinct(graph.node_seq()),
        declarations@.len() == instance.items@.len(),
    ensures
        keys_distinct(r.graph.node_seq()),
        r.graph.same_header(&graph),
        lowered_as(graph, *definition, *instance, *declarations, initial_shape, r),
{
    let mut diagnostics = validate_filter_pipeline_region(definition, instance);
    let ghost findings = diagnostics@;
    let (items, positions) = resolve_filter_pipeline_items(instance, declarations, &mut diagnostics);
    let shape = check_filter_pipeline_shapes(initial_shape, &items);
    if diagnostics.len() > 0 || !shape.is_valid() {
        proof {
            assert(finding_kinds(diagnostics@).take(findings.len() as int) =~= finding_kinds(
                diagnostics@.take(findings.len() as int),
            ));
        }
        return FilterPipelineLoweringResult { graph, shape, inserted_nodes: Vec::new(), diagnostics };
    }
    let unsupported = unsupported_shape_lowering_diagnostics(&shape);
    if unsupported.len() > 0 {
        return FilterPipelineLoweringResult { graph, shape, inserted_nodes: Vec::new(), diagnostics: unsupported };
    }
    let (input_socket, output_socket) = match (&definition.input_socket, &definition.output_socket) {
        (Some(a), Some(b)) => (a, b),
        _ => {
            return FilterPipelineLoweringResult { graph, shape, inserted_nodes: Vec::new(), diagnostics };
        },
    };
    let start = OutputSocketRef { node: input_socket.node, socket: input_socket.socket.clone() };
    let exit = InputSocketRef { node: output_socket.node, socket: output_socket.socket.clone() };
    let ghost original = graph;
    let (lowered, inserted, edit_diagnostics) = wire_filter_chain(
        graph,
        instance,
        declarations,
        &positions,
        start,
        exit,
    );
    if edit_diagnostics.len() == 0 {
        FilterPipelineLoweringResult { graph: lowered, shape, inserted_nodes: inserted, diagnostics }
    } else {
        FilterPipelineLoweringResult {
            graph: lowered,
            shape,
            inserted_nodes: Vec::new(),
            diagnostics: edit_diagnostics,
        }
    }
}
} // verus!
