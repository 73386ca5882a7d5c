//! Formulas: a graph packaged with its properties and the surface that users
//! edit, and the instances that refer to a formula by identifier and
//! version.
use indexmap::IndexMap;
use vstd::prelude::*;

use crate::expose::{ANodeFieldPath, ParamUiHints, ValueTypeSpec};
use crate::graph::{ANodeInstance, AlchemistGraph};
use crate::ids::{
    ANodeId, ContextDimensionId, FormulaId, FormulaPropertyId, ManagedItemId, ManagedRegionId, SocketId,
    SurfaceContributionId, SurfaceItemId, SurfaceSectionId,
};
use crate::indexmap_specs::{
    property_entries, property_map_get, property_map_get_index, property_map_insert, property_map_len,
    property_map_new, region_instance_entries, region_instance_map_get_index, region_instance_map_insert,
    region_instance_map_len, region_instance_map_new,
};
use crate::ordered::{entries_insert, has_key, value_of};
use crate::pipeline::{PipelineLoweringDiagnostic, PipelineShapeDiagnostic};
use crate::text::{concat3, decimal_text, with_decimal};
use crate::value::{RuntimeValue, ValueTypeId};

verus! {

/// A reference to a formula by identifier and version.
#[derive(Debug, PartialEq, Eq)]
pub struct FormulaRef {
    pub id: FormulaId,
    pub version: u32,
}

impl Clone for FormulaRef {
    fn clone(&self) -> (r: Self)
        ensures
            r == *self,
    {
        FormulaRef { id: self.id.clone(), version: self.version }
    }
}

/// A property of a formula: a value that a graph reads by identifier.
#[derive(Debug)]
pub struct FormulaPropertyDecl {
    pub id: FormulaPropertyId,
    pub label: String,
    pub description: Option<String>,
    pub value_type: ValueTypeId,
    pub default_value: RuntimeValue,
    pub ui: ParamUiHints,
}

/// The properties of a formula, keyed by identifier.
#[derive(Debug)]
pub struct FormulaPropertySchema {
    pub properties: IndexMap<FormulaPropertyId, FormulaPropertyDecl>,
}

impl FormulaPropertySchema {
    /// The properties, as entries keyed by identifier.
    pub open spec fn entries(&self) -> Seq<(Seq<char>, FormulaPropertyDecl)> {
        property_entries(self.properties)
    }

    /// No properties.
    pub fn new() -> (s: Self)
        ensures
            s.entries().len() == 0,
    {
        FormulaPropertySchema { properties: property_map_new() }
    }

    /// Stores `declaration` under its identifier and returns the declaration
    /// it replaces.
    pub fn insert(&mut self, declaration: FormulaPropertyDecl) -> (r: Option<FormulaPropertyDecl>)
        ensures
            final(self).entries() == entries_insert(old(self).entries(), declaration.id@, declaration),
            r is Some <==> has_key(old(self).entries(), declaration.id@),
    {
        let id = declaration.id.clone();
        property_map_insert(&mut self.properties, id, declaration)
    }

    /// The declaration of `id`, if any.
    pub fn get(&self, id: &FormulaPropertyId) -> (r: Option<&FormulaPropertyDecl>)
        ensures
            r is Some <==> has_key(self.entries(), id@),
            r matches Some(d) ==> *d == value_of(self.entries(), id@),
    {
        property_map_get(&self.properties, id)
    }

    /// Whether there are no properties.
    pub fn is_empty(&self) -> (r: bool)
        ensures
            r == (self.entries().len() == 0),
    {
        property_map_len(&self.properties) == 0
    }

    /// The number of properties.
    pub fn len(&self) -> (r: usize)
        ensures
            r == self.entries().len(),
    {
        property_map_len(&self.properties)
    }

    /// The property at position `index`, with the key it is stored under.
    pub fn entry_at(&self, index: usize) -> (r: Option<(&FormulaPropertyId, &FormulaPropertyDecl)>)
        ensures
            r is Some <==> index < self.entries().len(),
            r matches Some((k, d)) ==> k@ == self.entries()[index as int].0 && *d == self.entries()[index as int].1,
    {
        property_map_get_index(&self.properties, index)
    }
}

/// The context dimensions a formula needs, may use, and whether it accepts others.
#[derive(Clone, Debug, Default, PartialEq, Eq)]
pub struct FormulaContextContract {
    pub required_dimensions: Vec<ContextDimensionId>,
    pub optional_dimensions: Vec<ContextDimensionId>,
    pub accepts_additional_dimensions: bool,
}

/// A migration of a formula from one version to another.
#[derive(Clone, Debug, PartialEq, Eq)]
pub struct FormulaMigration {
    pub from_version: u32,
    pub to_version: u32,
    pub description: String,
}

/// Where a section of a surface comes from.
#[derive(Clone, Debug, PartialEq, Eq)]
pub enum SurfaceSource {
    Formula,
    ANode { node_id: ANodeId, contribution_id: SurfaceContributionId },
}

/// The role an item plays on a surface.
#[derive(Clone, Copy, Debug, PartialEq, Eq, Structural)]
pub enum SurfaceItemKind {
    Parameter,
    Condition,
    Consequence,
    Input,
    Filter,
    Output,
    Action,
}

/// An item of a surface, bound to node fields.
#[derive(Debug)]
pub struct SurfaceItem {
    pub id: SurfaceItemId,
    pub label: String,
    pub description: Option<String>,
    pub path: Vec<String>,
    pub kind: SurfaceItemKind,
    pub value_type: Option<ValueTypeSpec>,
    pub ui: ParamUiHints,
    pub bindings: Vec<ANodeFieldPath>,
}

/// A section of a surface.
#[derive(Debug)]
pub struct SurfaceSection {
    pub id: SurfaceSectionId,
    pub label: String,
    pub items: Vec<SurfaceItem>,
    pub source: SurfaceSource,
}

/// The kind of a managed region of a surface.
#[derive(Clone, Copy, Debug, PartialEq, Eq, Structural)]
pub enum ManagedRegionKind {
    InputSet,
    FilterPipeline,
    OutputSet,
    ActionTrigger,
    ActionCommands,
}

/// A socket at the boundary of a managed region.
#[derive(Debug, PartialEq, Eq)]
pub struct ManagedSocketRef {
    pub node: ANodeId,
    pub socket: SocketId,
}

impl ManagedSocketRef {
    pub fn new(node: ANodeId, socket: &str) -> (r: Self)
        ensures
            r.node == node,
            r.socket@ == socket@,
    {
        ManagedSocketRef { node, socket: SocketId::new(socket) }
    }
}

/// A region of a surface that users fill with items, such as a pipeline of filters.
#[derive(Debug)]
pub struct ManagedRegionDefinition {
    pub id: ManagedRegionId,
    pub kind: ManagedRegionKind,
    pub label: String,
    pub input_socket: Option<ManagedSocketRef>,
    pub output_socket: Option<ManagedSocketRef>,
    pub accepted_roles: Vec<SurfaceItemKind>,
}

/// What users edit of a formula: sections of items, and managed regions.
#[derive(Debug)]
pub struct FormulaSurface {
    pub sections: Vec<SurfaceSection>,
    pub managed_regions: Vec<ManagedRegionDefinition>,
}

/// How an item of a managed region is shown.
#[derive(Clone, Copy, Debug, Default, PartialEq, Eq, Structural)]
pub struct ManagedItemUiState {
    pub collapsed: bool,
}

/// An item of a managed region: a node, and whether it takes part.
#[derive(Debug)]
pub struct ManagedItemInstance {
    pub id: ManagedItemId,
    pub anode: ANodeInstance,
    pub enabled: bool,
    pub ui_state: ManagedItemUiState,
}

/// The items of one managed region of an instance.
#[derive(Debug)]
pub struct ManagedRegionInstance {
    pub region_id: ManagedRegionId,
    pub items: Vec<ManagedItemInstance>,
}

/// The managed regions of an instance, keyed by region identifier.
#[derive(Debug)]
pub struct ManagedRegionInstances {
    pub regions: IndexMap<ManagedRegionId, ManagedRegionInstance>,
}

/// Why the managed regions of an instance do not fit a surface.
#[derive(Debug, PartialEq, Eq)]
pub enum ManagedRegionValidationError {
    UnknownRegion { region_id: ManagedRegionId },
}

impl ManagedRegionValidationError {
    /// A readable message for the error.
    pub fn message(&self) -> (r: String)
        ensures
            match self {
                ManagedRegionValidationError::UnknownRegion { region_id } => r@
                    == "managed region instance references unknown region `"@ + region_id@ + "`"@,
            },
    {
        match self {
            ManagedRegionValidationError::UnknownRegion { region_id } => concat3(
                "managed region instance references unknown region `",
                region_id.as_str(),
                "`",
            ),
        }
    }
}

/// Whether some region of `definitions` has identifier `id`.
pub open spec fn defines_region(definitions: Seq<ManagedRegionDefinition>, id: Seq<char>) -> bool {
    exists|i: int| 0 <= i < definitions.len() && #[trigger] definitions[i].id@ == id
}

impl ManagedRegionInstances {
    /// The regions, as entries keyed by region identifier.
    pub open spec fn entries(&self) -> Seq<(Seq<char>, ManagedRegionInstance)> {
        region_instance_entries(self.regions)
    }

    /// One empty instance for each managed region of `surface`, in order.
    pub fn empty_for(surface: &FormulaSurface) -> (r: Self)
        ensures
            r.entries().len() <= surface.managed_regions@.len(),
            forall|k: Seq<char>| has_key(r.entries(), k) <==> defines_region(surface.managed_regions@, k),
            forall|i: int|
                0 <= i < r.entries().len() ==> (#[trigger] r.entries()[i]).1.items@.len() == 0
                    && r.entries()[i].1.region_id@ == r.entries()[i].0,
    {
        let mut regions = region_instance_map_new();
        let mut i: usize = 0;
        while i < surface.managed_regions.len()
            invariant
                i <= surface.managed_regions@.len(),
                region_instance_entries(regions).len() <= i,
                forall|k: Seq<char>|
                    has_key(region_instance_entries(regions), k) <==> defines_region(
                        surface.managed_regions@.take(i as int),
                        k,
                    ),
                forall|j: int|
                    0 <= j < region_instance_entries(regions).len() ==> (#[trigger] region_instance_entries(
                        regions,
                    )[j]).1.items@.len() == 0 && region_instance_entries(regions)[j].1.region_id@
                        == region_instance_entries(regions)[j].0,
            decreases surface.managed_regions@.len() - i,
        {
            let definition = &surface.managed_regions[i];
            let ghost before = region_instance_entries(regions);
            let instance = ManagedRegionInstance { region_id: definition.id.clone(), items: Vec::new() };
            region_instance_map_insert(&mut regions, definition.id.clone(), instance);
            proof {
                let after = region_instance_entries(regions);
                let taken = surface.managed_regions@.take(i + 1);
                assert forall|k: Seq<char>| has_key(after, k) <==> defines_region(taken, k) by {
                    crate::ordered::lemma_insert_keys(before, definition.id@, instance, k);
                    if defines_region(taken, k) {
                        let j = choose|j: int| 0 <= j < taken.len() && #[trigger] taken[j].id@ == k;
                        if j < i {
                            assert(surface.managed_regions@.take(i as int)[j].id@ == k);
                        }
                    }
                    if defines_region(surface.managed_regions@.take(i as int), k) {
                        let j = choose|j: int|
                            0 <= j < i && #[trigger] surface.managed_regions@.take(i as int)[j].id@ == k;
                        assert(taken[j].id@ == k);
                    }
                    if k == definition.id@ {
                        assert(taken[i as int].id@ == k);
                    }
                }
                crate::ordered::lemma_insert_values(before, definition.id@, instance);
            }
            i = i + 1;
        }
        proof {
            assert(surface.managed_regions@.take(i as int) =~= surface.managed_regions@);
        }
        ManagedRegionInstances { regions }
    }

    /// `Ok` when every region instance refers to a region of `surface`;
    /// else the first one, in order, that does not.
    pub fn validate_against(&self, surface: &FormulaSurface) -> (r: Result<(), ManagedRegionValidationError>)
        ensures
            r is Ok <==> forall|i: int|
                0 <= i < self.entries().len() ==> defines_region(
                    surface.managed_regions@,
                    (#[trigger] self.entries()[i]).1.region_id@,
                ),
            r matches Err(ManagedRegionValidationError::UnknownRegion { region_id }) ==> exists|i: int|
                0 <= i < self.entries().len() && (#[trigger] self.entries()[i]).1.region_id == region_id
                    && !defines_region(surface.managed_regions@, region_id@) && forall|j: int|
                    0 <= j < i ==> defines_region(surface.managed_regions@, self.entries()[j].1.region_id@),
    {
        let n = region_instance_map_len(&self.regions);
        let mut i: usize = 0;
        while i < n
            invariant
                i <= n,
                n == self.entries().len(),
                forall|j: int|
                    0 <= j < i ==> defines_region(
                        surface.managed_regions@,
                        (#[trigger] self.entries()[j]).1.region_id@,
                    ),
            decreases n - i,
        {
            let (_, instance) = region_instance_map_get_index(&self.regions, i).unwrap();
            let mut found = false;
            let mut d: usize = 0;
            while d < surface.managed_regions.len()
                invariant
                    d <= surface.managed_regions@.len(),
                    found <==> exists|e: int|
                        0 <= e < d && #[trigger] surface.managed_regions@[e].id@ == instance.region_id@,
                decreases surface.managed_regions@.len() - d,
            {
                if surface.managed_regions[d].id == instance.region_id {
                    found = true;
                }
                d = d + 1;
            }
            if !found {
                return Err(ManagedRegionValidationError::UnknownRegion { region_id: instance.region_id.clone() });
            }
            i = i + 1;
        }
        Ok(())
    }
}

/// Why a formula instance could not be materialized.
#[derive(Debug, PartialEq, Eq)]
pub enum FormulaMaterializationError {
    FormulaIdMismatch { expected: FormulaId, actual: FormulaId },
    FormulaVersionMismatch { expected: u32, actual: u32 },
    MissingSurfaceBinding(SurfaceItemId),
    MissingTargetNode(ANodeId),
    ManagedRegionValidation(ManagedRegionValidationError),
    MissingManagedRegionInstance { region_id: ManagedRegionId },
    MissingManagedRegionInitialShape { region_id: ManagedRegionId },
    ManagedRegionLoweringFailed {
        region_id: ManagedRegionId,
        lowering_diagnostics: Vec<PipelineLoweringDiagnostic>,
        shape_diagnostics: Vec<PipelineShapeDiagnostic>,
    },
}

impl FormulaMaterializationError {
    /// A readable message for the error.
    pub fn message(&self) -> (r: String)
        ensures
            match self {
                FormulaMaterializationError::FormulaIdMismatch { expected, actual } => r@
                    == "formula instance references `"@ + expected@ + "`, but definition is `"@ + actual@ + "`"@,
                FormulaMaterializationError::FormulaVersionMismatch { expected, actual } => r@
                    == "formula instance references version "@ + decimal_text(*expected as nat)
                    + ", but definition is version "@ + decimal_text(*actual as nat),
                FormulaMaterializationError::MissingSurfaceBinding(item) => r@
                    == "formula instance override references unbound surface item `"@ + item@ + "`"@,
                FormulaMaterializationError::MissingTargetNode(node) => r@
                    == "formula surface binding targets missing ANode `"@ + decimal_text(*node as nat) + "`"@,
                FormulaMaterializationError::ManagedRegionValidation(e) => r@
                    == "managed region instance references unknown region `"@ + e->region_id@ + "`"@,
                FormulaMaterializationError::MissingManagedRegionInstance { region_id } => r@
                    == "formula instance is missing managed region `"@ + region_id@ + "`"@,
                FormulaMaterializationError::MissingManagedRegionInitialShape { region_id } => r@
                    == "filter pipeline region `"@ + region_id@ + "` is missing an initial shape"@,
                FormulaMaterializationError::ManagedRegionLoweringFailed { region_id, .. } => r@
                    == "filter pipeline region `"@ + region_id@ + "` failed to lower"@,
            },
    {
        match self {
            FormulaMaterializationError::FormulaIdMismatch { expected, actual } => {
                let head = concat3("formula instance references `", expected.as_str(), "`, but definition is `");
                let r = concat3(head.as_str(), actual.as_str(), "`");
                proof {
                    assert(r@ =~= "formula instance references `"@ + expected@ + "`, but definition is `"@ + actual@ + "`"@);
                }
                r
            },
            FormulaMaterializationError::FormulaVersionMismatch { expected, actual } => {
                let head = with_decimal("formula instance references version ", *expected as u64, ", but definition is version ");
                let r = with_decimal(head.as_str(), *actual as u64, "");
                proof {
                    reveal_strlit("");
                    assert(r@ =~= head@ + decimal_text(*actual as nat));
                }
                r
            },
            FormulaMaterializationError::MissingSurfaceBinding(item) => concat3(
                "formula instance override references unbound surface item `",
                item.as_str(),
                "`",
            ),
            FormulaMaterializationError::MissingTargetNode(node) => with_decimal(
                "formula surface binding targets missing ANode `",
                *node,
                "`",
            ),
            FormulaMaterializationError::ManagedRegionValidation(e) => e.message(),
            FormulaMaterializationError::MissingManagedRegionInstance { region_id } => concat3(
                "formula instance is missing managed region `",
                region_id.as_str(),
                "`",
            ),
            FormulaMaterializationError::MissingManagedRegionInitialShape { region_id } => concat3(
                "filter pipeline region `",
                region_id.as_str(),
                "` is missing an initial shape",
            ),
            FormulaMaterializationError::ManagedRegionLoweringFailed { region_id, .. } => concat3(
                "filter pipeline region `",
                region_id.as_str(),
                "` failed to lower",
            ),
        }
    }
}

/// `Ok` when `formula_ref` refers to the formula with identifier `id` and
/// version `version`; else the first mismatch, identifier before version.
pub fn require_compatible(formula_ref: &FormulaRef, id: &FormulaId, version: u32) -> (r: Result<
    (),
    FormulaMaterializationError,
>)
    ensures
        r == if formula_ref.id@ != id@ {
            Err(FormulaMaterializationError::FormulaIdMismatch { expected: formula_ref.id, actual: *id })
        } else if formula_ref.version != version {
            Err(FormulaMaterializationError::FormulaVersionMismatch { expected: formula_ref.version, actual: version })
        } else {
            Ok(())
        },
{
    if formula_ref.id != *id {
        return Err(
            FormulaMaterializationError::FormulaIdMismatch { expected: formula_ref.id.clone(), actual: id.clone() },
        );
    }
    if formula_ref.version != version {
        return Err(FormulaMaterializationError::FormulaVersionMismatch { expected: formula_ref.version, actual: version });
    }
    Ok(())
}

} // verus!
