//! A formula definition and the instances made from it: which node fields
//! each surface item drives, the values a user overrides, and the graph an
//! instance materializes into.
use indexmap::IndexMap;
use vstd::prelude::*;

use crate::diagnostics::Diagnostic;
use crate::expose::ANodeFieldPath;
use crate::formula::{
    defines_region, ManagedRegionInstance, ManagedRegionKind, ManagedRegionValidationError, ManagedRegionDefinition, require_compatible, FormulaContextContract, FormulaMaterializationError, FormulaMigration,
    FormulaPropertySchema, FormulaRef, FormulaSurface, ManagedRegionInstances, SurfaceItem, SurfaceSection,
};
use crate::graph::{entries_same, ANodeInstance, AlchemistGraph};
use crate::ids::{ANodeId, FormulaId, ManagedRegionId, SurfaceItemId};
use crate::pipeline::{lower_filter_pipeline_region, lowered_as, FilterPipelineLoweringResult, ItemDeclaration, PipelineShape};
use crate::text::str_eq;
use crate::indexmap_specs::{
    config_root_entries, config_root_map_new, node_entries, node_map_get_mut, override_entries, override_map_get_index,
    override_map_len, override_map_new, region_instance_map_get, surface_binding_entries, surface_binding_map_get, surface_binding_map_insert,
    surface_binding_map_new,
};
use crate::ordered::{entries_insert, has_key, key_pos, keys_distinct, lemma_insert, lemma_key_pos, value_of};
use crate::value::{same_value, RuntimeValue, StableRef};

verus! {

/// The items of the sections, in order.
pub open spec fn section_items(sections: Seq<SurfaceSection>) -> Seq<SurfaceItem>
    decreases sections.len(),
{
    if sections.len() == 0 {
        Seq::empty()
    } else {
        section_items(sections.drop_last()) + sections.last().items@
    }
}

/// The bound fields of each item that binds some field, keyed by item
/// identifier; a later item with the same identifier replaces the fields of
/// an earlier one in its place.
pub open spec fn bound_items(items: Seq<SurfaceItem>) -> Seq<(Seq<char>, Seq<ANodeFieldPath>)>
    decreases items.len(),
{
    if items.len() == 0 {
        Seq::empty()
    } else {
        let rest = bound_items(items.drop_last());
        let item = items.last();
        if item.bindings@.len() > 0 {
            entries_insert(rest, item.id@, item.bindings@)
        } else {
            rest
        }
    }
}

/// The bindings with each list of fields as a sequence.
pub open spec fn binding_seq(e: Seq<(Seq<char>, Vec<ANodeFieldPath>)>) -> Seq<(Seq<char>, Seq<ANodeFieldPath>)> {
    e.map_values(|x: (Seq<char>, Vec<ANodeFieldPath>)| (x.0, x.1@))
}

proof fn lemma_binding_seq_insert(e: Seq<(Seq<char>, Vec<ANodeFieldPath>)>, k: Seq<char>, v: Vec<ANodeFieldPath>)
    requires
        keys_distinct(e),
    ensures
        binding_seq(entries_insert(e, k, v)) =~= entries_insert(binding_seq(e), k, v@),
{
    let m = binding_seq(e);
    if has_key(e, k) {
        let p = key_pos(e, k);
        assert(m[p].0 == k);
        assert(has_key(m, k));
        let q = key_pos(m, k);
        assert(e[q].0 == m[q].0);
        lemma_key_pos(e, q);
    } else {
        if has_key(m, k) {
            let q = key_pos(m, k);
            assert(e[q].0 == k);
        }
    }
}

/// The node fields that each surface item drives, keyed by item identifier.
#[derive(Debug)]
pub struct FormulaSurfaceBindings {
    pub bindings: IndexMap<SurfaceItemId, Vec<ANodeFieldPath>>,
}

/// A copy of a list of node fields.
fn copy_paths(v: &Vec<ANodeFieldPath>) -> (r: Vec<ANodeFieldPath>)
    ensures
        r@ == v@,
{
    let mut r: Vec<ANodeFieldPath> = Vec::new();
    let mut i: usize = 0;
    while i < v.len()
        invariant
            i <= v@.len(),
            r@ == v@.take(i as int),
        decreases v@.len() - i,
    {
        let p = ANodeFieldPath { node: v[i].node, field: v[i].field.clone() };
        r.push(p);
        proof {
            assert(v@.take(i + 1) =~= v@.take(i as int).push(v@[i as int]));
        }
        i = i + 1;
    }
    proof {
        assert(v@.take(v@.len() as int) =~= v@);
    }
    r
}

impl FormulaSurfaceBindings {
    /// The bindings, with each list of fields as a sequence.
    pub open spec fn entries(&self) -> Seq<(Seq<char>, Seq<ANodeFieldPath>)> {
        binding_seq(surface_binding_entries(self.bindings))
    }

    /// The bindings of every item of `surface` that binds some field, in
    /// section and item order, as [`bound_items`] says.
    pub fn from_surface(surface: &FormulaSurface) -> (r: Self)
        ensures
            r.entries() == bound_items(section_items(surface.sections@)),
    {
        let mut bindings = surface_binding_map_new();
        let ghost sections = surface.sections@;
        let mut s: usize = 0;
        while s < surface.sections.len()
            invariant
                s <= sections.len(),
                sections == surface.sections@,
                keys_distinct(surface_binding_entries(bindings)),
                binding_seq(surface_binding_entries(bindings)) == bound_items(section_items(sections.take(s as int))),
            decreases sections.len() - s,
        {
            let section = &surface.sections[s];
            let ghost before = section_items(sections.take(s as int));
            let ghost items = section.items@;
            let mut j: usize = 0;
            proof {
                assert(before + items.take(0) =~= before);
            }
            while j < section.items.len()
                invariant
                    j <= items.len(),
                    items == section.items@,
                    keys_distinct(surface_binding_entries(bindings)),
                    binding_seq(surface_binding_entries(bindings)) == bound_items(before + items.take(j as int)),
                decreases items.len() - j,
            {
                let item = &section.items[j];
                let ghost all = before + items.take(j + 1);
                proof {
                    assert(all.drop_last() =~= before + items.take(j as int));
                    assert(all.last() == items[j as int]);
                }
                if item.bindings.len() > 0 {
                    let ghost old_entries = surface_binding_entries(bindings);
                    let paths = copy_paths(&item.bindings);
                    surface_binding_map_insert(&mut bindings, item.id.clone(), paths);
                    proof {
                        lemma_binding_seq_insert(old_entries, item.id@, paths);
                        lemma_insert(old_entries, item.id@, paths, item.id@);
                    }
                }
                j = j + 1;
            }
            proof {
                assert(items.take(items.len() as int) =~= items);
                assert(sections.take(s + 1).drop_last() =~= sections.take(s as int));
                assert(sections.take(s + 1).last() == sections[s as int]);
            }
            s = s + 1;
        }
        proof {
            assert(sections.take(sections.len() as int) =~= sections);
        }
        FormulaSurfaceBindings { bindings }
    }
}

/// The values that an instance overrides, keyed by surface item.
#[derive(Debug)]
pub struct FormulaOverrides {
    pub values: IndexMap<SurfaceItemId, RuntimeValue>,
}

impl FormulaOverrides {
    /// The overrides, as entries keyed by item identifier.
    pub open spec fn entries(&self) -> Seq<(Seq<char>, RuntimeValue)> {
        override_entries(self.values)
    }

    /// No overrides.
    pub fn new() -> (r: Self)
        ensures
            r.entries().len() == 0,
    {
        FormulaOverrides { values: override_map_new() }
    }
}

/// The configuration roots of the managed nodes of an instance.
#[derive(Debug)]
pub struct ManagedANodeBindings {
    pub configuration_roots: IndexMap<ANodeId, StableRef>,
}

impl ManagedANodeBindings {
    /// No roots.
    pub fn new() -> (r: Self)
        ensures
            config_root_entries(r.configuration_roots).len() == 0,
    {
        ManagedANodeBindings { configuration_roots: config_root_map_new() }
    }
}

/// A formula definition: a graph with its properties, surface, context
/// contract and migrations.
#[derive(Debug)]
pub struct AlchemistFormula {
    pub id: FormulaId,
    pub version: u32,
    pub label: String,
    pub description: Option<String>,
    pub tags: Vec<String>,
    pub graph: AlchemistGraph,
    pub properties: FormulaPropertySchema,
    pub surface: FormulaSurface,
    pub context_contract: FormulaContextContract,
    pub migrations: Vec<FormulaMigration>,
}

/// An instance of a formula: the formula it refers to, its bindings,
/// overrides and managed regions.
#[derive(Debug)]
pub struct AlchemistFormulaInstance {
    pub formula_ref: FormulaRef,
    pub surface_bindings: FormulaSurfaceBindings,
    pub overrides: FormulaOverrides,
    pub managed_regions: ManagedRegionInstances,
    pub managed_bindings: ManagedANodeBindings,
    pub diagnostics: Vec<Diagnostic>,
}

impl AlchemistFormulaInstance {
    /// `Ok` when the instance refers to `formula`'s identifier and version;
    /// else the first mismatch, identifier before version.
    pub fn require_compatible(&self, formula: &AlchemistFormula) -> (r: Result<(), FormulaMaterializationError>)
        ensures
            r == if self.formula_ref.id@ != formula.id@ {
                Err(FormulaMaterializationError::FormulaIdMismatch { expected: self.formula_ref.id, actual: formula.id })
            } else if self.formula_ref.version != formula.version {
                Err(
                    FormulaMaterializationError::FormulaVersionMismatch {
                        expected: self.formula_ref.version,
                        actual: formula.version,
                    },
                )
            } else {
                Ok(())
            },
    {
        require_compatible(&self.formula_ref, &formula.id, formula.version)
    }
}

/// The writes that overrides make, in order: each override's value to each
/// field bound to its item, in binding order, as (node, field, value).
pub open spec fn override_writes(
    bindings: Seq<(Seq<char>, Vec<ANodeFieldPath>)>,
    overrides: Seq<(Seq<char>, RuntimeValue)>,
) -> Seq<(u64, Seq<char>, RuntimeValue)>
    decreases overrides.len(),
{
    if overrides.len() == 0 {
        Seq::empty()
    } else {
        let last = overrides.last();
        override_writes(bindings, overrides.drop_last()) + value_of(bindings, last.0)@.map_values(
            |p: ANodeFieldPath| (p.node, p.field@, last.1),
        )
    }
}

/// Whether config entries `r` are the entries `o` of node `node` after the
/// writes `w` that go to that node, in order, each writing a copy of its
/// value.
pub open spec fn config_written(
    r: Seq<(Seq<char>, RuntimeValue)>,
    o: Seq<(Seq<char>, RuntimeValue)>,
    node: u64,
    w: Seq<(u64, Seq<char>, RuntimeValue)>,
) -> bool
    decreases w.len(),
{
    if w.len() == 0 {
        entries_same(r, o)
    } else if w.last().0 != node {
        config_written(r, o, node, w.drop_last())
    } else {
        exists|mid: Seq<(Seq<char>, RuntimeValue)>, v: RuntimeValue|
            config_written(mid, o, node, w.drop_last()) && same_value(v, w.last().2) && r == entries_insert(
                mid,
                w.last().1,
                v,
            )
    }
}

/// Whether node `b` is node `a` with possibly another configuration.
pub open spec fn same_but_config(a: ANodeInstance, b: ANodeInstance) -> bool {
    &&& b.id == a.id
    &&& b.type_id == a.type_id
    &&& b.label == a.label
    &&& b.ui == a.ui
    &&& b.enabled == a.enabled
    &&& entries_same(
        crate::indexmap_specs::default_entries(b.input_defaults),
        crate::indexmap_specs::default_entries(a.input_defaults),
    )
    &&& b.type_bindings.entries() == a.type_bindings.entries()
    &&& b.forced_type_bindings.entries() == a.forced_type_bindings.entries()
}

/// Whether graph `g` is a copy of `orig` with the writes `w` made to the
/// configurations of its nodes.
pub open spec fn materialized(g: AlchemistGraph, orig: AlchemistGraph, w: Seq<(u64, Seq<char>, RuntimeValue)>) -> bool {
    &&& g.schema_version == orig.schema_version
    &&& g.id == orig.id
    &&& g.edges@ == orig.edges@
    &&& g.node_seq().len() == orig.node_seq().len()
    &&& forall|i: int|
        0 <= i < orig.node_seq().len() ==> (#[trigger] g.node_seq()[i]).0 == orig.node_seq()[i].0 && same_but_config(
            orig.node_seq()[i].1,
            g.node_seq()[i].1,
        ) && config_written(
            g.node_seq()[i].1.config.entries(),
            orig.node_seq()[i].1.config.entries(),
            orig.node_seq()[i].0,
            w,
        )
}

/// Why overrides cannot be applied.
pub enum OverrideFailure {
    /// An override of an item that binds no field.
    Unbound(Seq<char>),
    /// A binding to a node that is not in the graph.
    MissingNode(u64),
}

/// The first of the first `n` fields of `targets` whose node is not among
/// `nodes`.
pub open spec fn missing_target(targets: Seq<ANodeFieldPath>, nodes: Seq<(u64, ANodeInstance)>, n: nat) -> Option<u64>
    decreases n,
{
    if n == 0 || n > targets.len() {
        None
    } else {
        match missing_target(targets, nodes, (n - 1) as nat) {
            Some(x) => Some(x),
            None => if has_key(nodes, targets[n - 1].node) {
                None
            } else {
                Some(targets[n - 1].node)
            },
        }
    }
}

/// The first failure among the first `k` overrides, in order: an item that
/// binds no field, or then a bound node that is missing.
pub open spec fn override_failure(
    bindings: Seq<(Seq<char>, Vec<ANodeFieldPath>)>,
    overrides: Seq<(Seq<char>, RuntimeValue)>,
    nodes: Seq<(u64, ANodeInstance)>,
    k: nat,
) -> Option<OverrideFailure>
    decreases k,
{
    if k == 0 || k > overrides.len() {
        None
    } else {
        match override_failure(bindings, overrides, nodes, (k - 1) as nat) {
            Some(f) => Some(f),
            None => {
                let item = overrides[k - 1].0;
                if !has_key(bindings, item) {
                    Some(OverrideFailure::Unbound(item))
                } else {
                    let targets = value_of(bindings, item)@;
                    match missing_target(targets, nodes, targets.len()) {
                        Some(x) => Some(OverrideFailure::MissingNode(x)),
                        None => None,
                    }
                }
            },
        }
    }
}

proof fn lemma_missing_target_stays(targets: Seq<ANodeFieldPath>, nodes: Seq<(u64, ANodeInstance)>, j: nat, n: nat)
    requires
        j <= n <= targets.len(),
        missing_target(targets, nodes, j) is Some,
    ensures
        missing_target(targets, nodes, n) == missing_target(targets, nodes, j),
    decreases n - j,
{
    if j < n {
        lemma_missing_target_stays(targets, nodes, j + 1, n);
    }
}

proof fn lemma_override_failure_stays(
    bindings: Seq<(Seq<char>, Vec<ANodeFieldPath>)>,
    overrides: Seq<(Seq<char>, RuntimeValue)>,
    nodes: Seq<(u64, ANodeInstance)>,
    k: nat,
    n: nat,
)
    requires
        k <= n <= overrides.len(),
        override_failure(bindings, overrides, nodes, k) is Some,
    ensures
        override_failure(bindings, overrides, nodes, n) == override_failure(bindings, overrides, nodes, k),
    decreases n - k,
{
    if k < n {
        lemma_override_failure_stays(bindings, overrides, nodes, k + 1, n);
    }
}

/// One more write keeps a graph materialized: the write goes to the node
/// with its identifier, and the other nodes are left as they are.
proof fn lemma_write_step(
    g: AlchemistGraph,
    g2: AlchemistGraph,
    orig: AlchemistGraph,
    w: Seq<(u64, Seq<char>, RuntimeValue)>,
    x: (u64, Seq<char>, RuntimeValue),
    v: RuntimeValue,
)
    requires
        keys_distinct(orig.node_seq()),
        materialized(g, orig, w),
        has_key(g.node_seq(), x.0),
        same_value(v, x.2),
        g2.schema_version == g.schema_version,
        g2.id == g.id,
        g2.edges@ == g.edges@,
        ({
            let p = key_pos(g.node_seq(), x.0);
            let old_node = g.node_seq()[p].1;
            let new_node = g2.node_seq()[p].1;
            &&& g2.node_seq() == g.node_seq().update(p, (x.0, new_node))
            &&& new_node.id == old_node.id
            &&& new_node.type_id == old_node.type_id
            &&& new_node.label == old_node.label
            &&& new_node.ui == old_node.ui
            &&& new_node.enabled == old_node.enabled
            &&& new_node.input_defaults == old_node.input_defaults
            &&& new_node.type_bindings == old_node.type_bindings
            &&& new_node.forced_type_bindings == old_node.forced_type_bindings
            &&& new_node.config.entries() == entries_insert(old_node.config.entries(), x.1, v)
        }),
    ensures
        materialized(g2, orig, w.push(x)),
{
    let nodes = orig.node_seq();
    let p = key_pos(g.node_seq(), x.0);
    let w2 = w.push(x);
    assert(w2.drop_last() =~= w);
    assert(w2.last() == x);
    assert(g.node_seq()[p].0 == x.0);
    assert(nodes[p].0 == x.0);
    assert forall|i: int| 0 <= i < nodes.len() implies (#[trigger] g2.node_seq()[i]).0 == nodes[i].0 && same_but_config(
        nodes[i].1,
        g2.node_seq()[i].1,
    ) && config_written(g2.node_seq()[i].1.config.entries(), nodes[i].1.config.entries(), nodes[i].0, w2) by {
        assert(g.node_seq()[i].0 == nodes[i].0);
        if i == p {
            let mid = g.node_seq()[p].1.config.entries();
            assert(config_written(mid, nodes[i].1.config.entries(), nodes[i].0, w));
            assert(config_written(mid, nodes[i].1.config.entries(), nodes[i].0, w2.drop_last()));
            assert(w2.last().0 == nodes[i].0);
            assert(same_value(v, w2.last().2));
            assert(g2.node_seq()[i].1.config.entries() == entries_insert(mid, w2.last().1, v));
            assert(same_but_config(nodes[i].1, g.node_seq()[i].1));
        } else {
            assert(g2.node_seq()[i] == g.node_seq()[i]);
            assert(nodes[i].0 != nodes[p].0);
        }
    }
}

/// What materializing `instance` of `formula` gives as `r` (see
/// [`AlchemistFormula::materialize`]).
pub open spec fn materialize_outcome(
    formula: AlchemistFormula,
    instance: AlchemistFormulaInstance,
    r: Result<AlchemistGraph, FormulaMaterializationError>,
) -> bool {
    let bindings = surface_binding_entries(instance.surface_bindings.bindings);
    let overrides = instance.overrides.entries();
    if instance.formula_ref.id@ != formula.id@ {
        r == Err::<AlchemistGraph, FormulaMaterializationError>(
            FormulaMaterializationError::FormulaIdMismatch { expected: instance.formula_ref.id, actual: formula.id },
        )
    } else if instance.formula_ref.version != formula.version {
        r == Err::<AlchemistGraph, FormulaMaterializationError>(
            FormulaMaterializationError::FormulaVersionMismatch {
                expected: instance.formula_ref.version,
                actual: formula.version,
            },
        )
    } else {
        match override_failure(bindings, overrides, formula.graph.node_seq(), overrides.len()) {
            Some(OverrideFailure::Unbound(item)) => r matches Err(
                FormulaMaterializationError::MissingSurfaceBinding(i),
            ) && i@ == item,
            Some(OverrideFailure::MissingNode(node)) => r == Err::<
                AlchemistGraph,
                FormulaMaterializationError,
            >(FormulaMaterializationError::MissingTargetNode(node)),
            None => r matches Ok(g) && materialized(g, formula.graph, override_writes(bindings, overrides)),
        }
    }
}

/// The position of the first entry of `table` at or after `i` for region `id`.
pub open spec fn decls_pos(table: Seq<(ManagedRegionId, Vec<Option<ItemDeclaration>>)>, id: Seq<char>, i: int) -> Option<
    int,
>
    decreases table.len() - i,
{
    if i < 0 || i >= table.len() {
        None
    } else if table[i].0@ == id {
        Some(i)
    } else {
        decls_pos(table, id, i + 1)
    }
}

/// The position of the first initial shape at or after `i` for region `id`.
pub open spec fn shape_pos(shapes: Seq<(ManagedRegionId, PipelineShape)>, id: Seq<char>, i: int) -> Option<int>
    decreases shapes.len() - i,
{
    if i < 0 || i >= shapes.len() {
        None
    } else if shapes[i].0@ == id {
        Some(i)
    } else {
        shape_pos(shapes, id, i + 1)
    }
}

/// Whether the item declarations cover every region instance, with one
/// declaration per item.
pub open spec fn declarations_cover(
    table: Seq<(ManagedRegionId, Vec<Option<ItemDeclaration>>)>,
    regions: Seq<(Seq<char>, ManagedRegionInstance)>,
) -> bool {
    forall|k: Seq<char>|
        #[trigger] has_key(regions, k) ==> (decls_pos(table, k, 0) matches Some(p) && table[p].1@.len() == value_of(
            regions,
            k,
        ).items@.len())
}

/// Where the declarations cover the regions, a region instance has its
/// declarations.
proof fn lemma_declarations_found(
    table: Seq<(ManagedRegionId, Vec<Option<ItemDeclaration>>)>,
    regions: Seq<(Seq<char>, ManagedRegionInstance)>,
    k: Seq<char>,
)
    requires
        declarations_cover(table, regions),
        has_key(regions, k),
    ensures
        decls_pos(table, k, 0) matches Some(p) && table[p].1@.len() == value_of(regions, k).items@.len(),
{
}

/// What handling region definition `def` does to graph `g`, as `out`: a
/// region other than a filter pipeline leaves it; a filter pipeline needs
/// an instance and an initial shape, and is lowered as [`lowered_as`]
/// says, findings of the lowering failing the whole.
pub open spec fn region_step(
    def: ManagedRegionDefinition,
    regions: Seq<(Seq<char>, ManagedRegionInstance)>,
    table: Seq<(ManagedRegionId, Vec<Option<ItemDeclaration>>)>,
    shapes: Seq<(ManagedRegionId, PipelineShape)>,
    g: AlchemistGraph,
    out: Result<AlchemistGraph, FormulaMaterializationError>,
) -> bool {
    if def.kind != ManagedRegionKind::FilterPipeline {
        out == Ok::<AlchemistGraph, FormulaMaterializationError>(g)
    } else if !has_key(regions, def.id@) {
        out == Err::<AlchemistGraph, FormulaMaterializationError>(
            FormulaMaterializationError::MissingManagedRegionInstance { region_id: def.id },
        )
    } else {
        match shape_pos(shapes, def.id@, 0) {
            None => out == Err::<AlchemistGraph, FormulaMaterializationError>(
                FormulaMaterializationError::MissingManagedRegionInitialShape { region_id: def.id },
            ),
            Some(si) => exists|res: FilterPipelineLoweringResult|
                #[trigger] lowered_as(
                    g,
                    def,
                    value_of(regions, def.id@),
                    table[decls_pos(table, def.id@, 0)->0].1,
                    shapes[si].1,
                    res,
                ) && keys_distinct(res.graph.node_seq()) && if res.shape.diagnostics@.len() == 0 && res.diagnostics@.len() == 0 {
                    out == Ok::<AlchemistGraph, FormulaMaterializationError>(res.graph)
                } else {
                    out == Err::<AlchemistGraph, FormulaMaterializationError>(
                        FormulaMaterializationError::ManagedRegionLoweringFailed {
                            region_id: def.id,
                            lowering_diagnostics: res.diagnostics,
                            shape_diagnostics: res.shape.diagnostics,
                        },
                    )
                },
        }
    }
}

/// Whether `gs` are the graphs before and after each of the first
/// `gs.len() - 1` region definitions of `defs`, each step as
/// [`region_step`] says.
pub open spec fn regions_trace(
    defs: Seq<ManagedRegionDefinition>,
    regions: Seq<(Seq<char>, ManagedRegionInstance)>,
    table: Seq<(ManagedRegionId, Vec<Option<ItemDeclaration>>)>,
    shapes: Seq<(ManagedRegionId, PipelineShape)>,
    gs: Seq<AlchemistGraph>,
) -> bool {
    &&& 1 <= gs.len() <= defs.len() + 1
    &&& forall|i: int|
        #![trigger gs[i]]
        0 <= i < gs.len() - 1 ==> region_step(
            defs[i],
            regions,
            table,
            shapes,
            gs[i],
            Ok::<AlchemistGraph, FormulaMaterializationError>(gs[i + 1]),
        )
}

/// Whether handling the region definitions `defs` in order, from graph
/// `g`, gives `r`: when every definition is handled, the last graph; else
/// the error of the first definition that fails.
pub open spec fn regions_lowered(
    defs: Seq<ManagedRegionDefinition>,
    regions: Seq<(Seq<char>, ManagedRegionInstance)>,
    table: Seq<(ManagedRegionId, Vec<Option<ItemDeclaration>>)>,
    shapes: Seq<(ManagedRegionId, PipelineShape)>,
    g: AlchemistGraph,
    r: Result<AlchemistGraph, FormulaMaterializationError>,
) -> bool {
    exists|gs: Seq<AlchemistGraph>|
        #[trigger] regions_trace(defs, regions, table, shapes, gs) && gs[0] == g && if gs.len() == defs.len() + 1 {
            r == Ok::<AlchemistGraph, FormulaMaterializationError>(gs.last())
        } else {
            r is Err && region_step(defs[gs.len() - 1], regions, table, shapes, gs.last(), r)
        }
}

/// A materialized graph keeps the node keys, so they stay distinct.
proof fn lemma_materialized_keys(g: AlchemistGraph, orig: AlchemistGraph, w: Seq<(u64, Seq<char>, RuntimeValue)>)
    requires
        keys_distinct(orig.node_seq()),
        materialized(g, orig, w),
    ensures
        keys_distinct(g.node_seq()),
{
    let a = g.node_seq();
    let b = orig.node_seq();
    assert forall|i: int, j: int| 0 <= i < a.len() && 0 <= j < a.len() && i != j implies a[i].0 != a[j].0 by {
        assert(a[i].0 == b[i].0 && a[j].0 == b[j].0);
    }
}

impl AlchemistFormula {
    /// A new instance of the formula: it refers to the formula's identifier
    /// and version, binds the surface as the formula declares it, overrides
    /// nothing, and has one empty instance of each managed region.
    pub fn instantiate(&self) -> (r: AlchemistFormulaInstance)
        ensures
            r.formula_ref.id == self.id,
            r.formula_ref.version == self.version,
            r.surface_bindings.entries() == bound_items(section_items(self.surface.sections@)),
            r.overrides.entries().len() == 0,
            r.managed_regions.entries().len() <= self.surface.managed_regions@.len(),
            forall|k: Seq<char>|
                has_key(r.managed_regions.entries(), k) <==> defines_region(self.surface.managed_regions@, k),
            forall|i: int|
                0 <= i < r.managed_regions.entries().len() ==> (#[trigger] r.managed_regions.entries()[i]).1.items@.len()
                    == 0 && r.managed_regions.entries()[i].1.region_id@ == r.managed_regions.entries()[i].0,
            config_root_entries(r.managed_bindings.configuration_roots).len() == 0,
            r.diagnostics@.len() == 0,
    {
        AlchemistFormulaInstance {
            formula_ref: FormulaRef { id: self.id.clone(), version: self.version },
            surface_bindings: FormulaSurfaceBindings::from_surface(&self.surface),
            overrides: FormulaOverrides::new(),
            managed_regions: ManagedRegionInstances::empty_for(&self.surface),
            managed_bindings: ManagedANodeBindings::new(),
            diagnostics: Vec::new(),
        }
    }

    /// The graph of `instance`: a copy of the formula's graph with each
    /// override, in order, written to every node field bound to its item,
    /// in binding order. The formula itself is left as it is.
    ///
    /// Fails when the instance refers to another formula or version, or at
    /// the first override whose item binds no field, or whose fields include
    /// one of a node that the graph does not hold.
    pub fn materialize(&self, instance: &AlchemistFormulaInstance) -> (r: Result<AlchemistGraph, FormulaMaterializationError>)
        requires
            keys_distinct(self.graph.node_seq()),
        ensures
            materialize_outcome(*self, *instance, r),
    {
        match instance.require_compatible(self) {
            Err(e) => {
                return Err(e);
            },
            Ok(()) => {},
        }
        let ghost orig = self.graph;
        let ghost nodes = orig.node_seq();
        let ghost bindings = surface_binding_entries(instance.surface_bindings.bindings);
        let ghost overrides = instance.overrides.entries();
        let mut graph = self.graph.clone();
        proof {
            assert forall|i: int| 0 <= i < nodes.len() implies (#[trigger] graph.node_seq()[i]).0 == nodes[i].0
                && same_but_config(nodes[i].1, graph.node_seq()[i].1) && config_written(
                graph.node_seq()[i].1.config.entries(),
                nodes[i].1.config.entries(),
                nodes[i].0,
                override_writes(bindings, overrides.take(0)),
            ) by {
                assert(overrides.take(0).len() == 0);
            }
        }
        let n = override_map_len(&instance.overrides.values);
        let mut k: usize = 0;
        while k < n
            invariant
                k <= n,
                n == overrides.len(),
                instance.formula_ref.id@ == self.id@,
                instance.formula_ref.version == self.version,
                overrides == instance.overrides.entries(),
                bindings == surface_binding_entries(instance.surface_bindings.bindings),
                orig == self.graph,
                nodes == orig.node_seq(),
                keys_distinct(nodes),
                override_failure(bindings, overrides, nodes, k as nat) is None,
                materialized(graph, orig, override_writes(bindings, overrides.take(k as int))),
            decreases n - k,
        {
            let (item, value) = override_map_get_index(&instance.overrides.values, k).unwrap();
            let ghost before = override_writes(bindings, overrides.take(k as int));
            proof {
                assert(overrides.take(k + 1).drop_last() =~= overrides.take(k as int));
                assert(overrides.take(k + 1).last() == overrides[k as int]);
            }
            let targets = match surface_binding_map_get(&instance.surface_bindings.bindings, item) {
                None => {
                    proof {
                        assert(item@ == overrides[k as int].0);
                        assert(override_failure(bindings, overrides, nodes, (k + 1) as nat) == Some(
                            OverrideFailure::Unbound(item@),
                        ));
                        lemma_override_failure_stays(bindings, overrides, nodes, (k + 1) as nat, n as nat);
                    }
                    let e = FormulaMaterializationError::MissingSurfaceBinding(item.clone());
                    return Err(e);
                },
                Some(t) => t,
            };
            let ghost ts = targets@;
            let mut j: usize = 0;
            proof {
                assert(ts.take(0).map_values(|p: ANodeFieldPath| (p.node, p.field@, *value)) =~= Seq::<
                    (u64, Seq<char>, RuntimeValue),
                >::empty());
                assert(before + ts.take(0).map_values(|p: ANodeFieldPath| (p.node, p.field@, *value)) =~= before);
            }
            while j < targets.len()
                invariant
                    j <= ts.len(),
                    ts == targets@,
                    ts == value_of(bindings, item@)@,
                    item@ == overrides[k as int].0,
                    *value == overrides[k as int].1,
                    k < n,
                    n == overrides.len(),
                    instance.formula_ref.id@ == self.id@,
                    instance.formula_ref.version == self.version,
                    overrides == instance.overrides.entries(),
                    bindings == surface_binding_entries(instance.surface_bindings.bindings),
                    has_key(bindings, item@),
                    orig == self.graph,
                    nodes == orig.node_seq(),
                    keys_distinct(nodes),
                    override_failure(bindings, overrides, nodes, k as nat) is None,
                    missing_target(ts, nodes, j as nat) is None,
                    before == override_writes(bindings, overrides.take(k as int)),
                    materialized(
                        graph,
                        orig,
                        before + ts.take(j as int).map_values(|p: ANodeFieldPath| (p.node, p.field@, *value)),
                    ),
                decreases ts.len() - j,
            {
                let target = &targets[j];
                let ghost w = before + ts.take(j as int).map_values(|p: ANodeFieldPath| (p.node, p.field@, *value));
                let ghost x = (target.node, target.field@, *value);
                proof {
                    assert(ts.take(j + 1).map_values(|p: ANodeFieldPath| (p.node, p.field@, *value)) =~= ts.take(
                        j as int,
                    ).map_values(|p: ANodeFieldPath| (p.node, p.field@, *value)).push(x));
                    assert(before + ts.take(j + 1).map_values(|p: ANodeFieldPath| (p.node, p.field@, *value)) =~= w.push(
                        x,
                    ));
                }
                let ghost g = graph;
                match node_map_get_mut(&mut graph.nodes, &target.node) {
                    None => {
                        proof {
                            assert(!has_key(g.node_seq(), target.node));
                            if has_key(nodes, target.node) {
                                let q = key_pos(nodes, target.node);
                                assert(g.node_seq()[q].0 == nodes[q].0);
                            }
                            assert(missing_target(ts, nodes, (j + 1) as nat) == Some(target.node));
                            lemma_missing_target_stays(ts, nodes, (j + 1) as nat, ts.len());
                            assert(override_failure(bindings, overrides, nodes, (k + 1) as nat) == Some(
                                OverrideFailure::MissingNode(target.node),
                            ));
                            lemma_override_failure_stays(bindings, overrides, nodes, (k + 1) as nat, n as nat);
                        }
                        return Err(FormulaMaterializationError::MissingTargetNode(target.node));
                    },
                    Some(node) => {
                        let copy = value.clone();
                        node.config.set(target.field.as_str(), copy);
                    },
                }
                proof {
                    let p = key_pos(g.node_seq(), target.node);
                    assert(has_key(g.node_seq(), target.node));
                    assert(has_key(nodes, target.node)) by {
                        assert(g.node_seq()[p].0 == nodes[p].0);
                    }
                    assert(keys_distinct(g.node_seq())) by {
                        assert forall|a: int, b: int|
                            0 <= a < g.node_seq().len() && 0 <= b < g.node_seq().len() && a != b implies g.node_seq()[a].0
                            != g.node_seq()[b].0 by {
                            assert(g.node_seq()[a].0 == nodes[a].0);
                            assert(g.node_seq()[b].0 == nodes[b].0);
                        }
                    }
                    let v = choose|v: RuntimeValue|
                        same_value(v, *value) && graph.node_seq()[p].1.config.entries() == entries_insert(
                            g.node_seq()[p].1.config.entries(),
                            target.field@,
                            v,
                        );
                    lemma_write_step(g, graph, orig, w, x, v);
                    assert(missing_target(ts, nodes, (j + 1) as nat) is None);
                }
                j = j + 1;
            }
            proof {
                assert(ts.take(ts.len() as int) =~= ts);
                assert(override_writes(bindings, overrides.take(k + 1)) == before + ts.map_values(
                    |p: ANodeFieldPath| (p.node, p.field@, *value),
                ));
                assert(override_failure(bindings, overrides, nodes, (k + 1) as nat) is None);
            }
            k = k + 1;
        }
        proof {
            assert(overrides.take(n as int) =~= overrides);
        }
        Ok(graph)
    }

    /// Materializes `instance`, then lowers each filter pipeline region of
    /// the surface, in order, into the graph. `item_declarations` holds, for
    /// each region instance, what the node registry declares for each of its
    /// items; `initial_shapes` the shape entering each region. Fails on the
    /// first region without an instance or an initial shape, or whose
    /// lowering reports findings.
    pub fn materialize_with_filter_pipelines(
        &self,
        instance: &AlchemistFormulaInstance,
        item_declarations: &Vec<(ManagedRegionId, Vec<Option<ItemDeclaration>>)>,
        initial_shapes: &Vec<(ManagedRegionId, PipelineShape)>,
    ) -> (r: Result<AlchemistGraph, FormulaMaterializationError>)
        requires
            keys_distinct(self.graph.node_seq()),
            declarations_cover(item_declarations@, instance.managed_regions.entries()),
        ensures
            exists|m: Result<AlchemistGraph, FormulaMaterializationError>|
                #[trigger] materialize_outcome(*self, *instance, m) && match m {
                    Err(e) => r == Err::<AlchemistGraph, FormulaMaterializationError>(e),
                    Ok(g) => {
                        let regions = instance.managed_regions.entries();
                        let defs = self.surface.managed_regions@;
                        if forall|i: int| 0 <= i < regions.len() ==> defines_region(defs, (#[trigger] regions[i]).1.region_id@) {
                            regions_lowered(defs, regions, item_declarations@, initial_shapes@, g, r)
                        } else {
                            r matches Err(
                                FormulaMaterializationError::ManagedRegionValidation(
                                    ManagedRegionValidationError::UnknownRegion { region_id },
                                ),
                            ) && exists|i: int|
                                0 <= i < regions.len() && (#[trigger] regions[i]).1.region_id == region_id
                                    && !defines_region(defs, region_id@) && forall|j: int|
                                    0 <= j < i ==> defines_region(defs, regions[j].1.region_id@)
                        }
                    },
                },
    {
        let materialized = self.materialize(instance);
        let ghost m = materialized;
        let g = match materialized {
            Err(e) => {
                return Err(e);
            },
            Ok(g) => g,
        };
        proof {
            let bindings = surface_binding_entries(instance.surface_bindings.bindings);
            let overrides = instance.overrides.entries();
            lemma_materialized_keys(g, self.graph, override_writes(bindings, overrides));
        }
        match instance.managed_regions.validate_against(&self.surface) {
            Err(e) => {
                return Err(FormulaMaterializationError::ManagedRegionValidation(e));
            },
            Ok(()) => {},
        }
        let ghost regions = instance.managed_regions.entries();
        let ghost defs = self.surface.managed_regions@;
        let mut graph = g;
        let ghost mut gs: Seq<AlchemistGraph> = seq![graph];
        let mut i: usize = 0;
        while i < self.surface.managed_regions.len()
            invariant
                i <= defs.len(),
                defs == self.surface.managed_regions@,
                regions == instance.managed_regions.entries(),
                declarations_cover(item_declarations@, regions),
                keys_distinct(graph.node_seq()),
                gs.len() == i + 1,
                gs[0] == g,
                gs[i as int] == graph,
                regions_trace(defs, regions, item_declarations@, initial_shapes@, gs),
                materialize_outcome(*self, *instance, m),
                m == Ok::<AlchemistGraph, FormulaMaterializationError>(g),
                forall|j: int| 0 <= j < regions.len() ==> defines_region(defs, (#[trigger] regions[j]).1.region_id@),
            decreases defs.len() - i,
        {
            let definition = &self.surface.managed_regions[i];
            assert(*definition == defs[i as int]);
            if definition.kind != ManagedRegionKind::FilterPipeline {
                proof {
                    let gs2 = gs.push(graph);
                    assert forall|j: int| #![trigger gs2[j]] 0 <= j < gs2.len() - 1 implies region_step(
                        defs[j],
                        regions,
                        item_declarations@,
                        initial_shapes@,
                        gs2[j],
                        Ok::<AlchemistGraph, FormulaMaterializationError>(gs2[j + 1]),
                    ) by {
                        if j < gs.len() - 1 {
                            assert(gs2[j] == gs[j] && gs2[j + 1] == gs[j + 1]);
                        }
                    }
                    gs = gs2;
                }
                i = i + 1;
                continue;
            }
            let region_instance = match region_instance_map_get(&instance.managed_regions.regions, &definition.id) {
                None => {
                    let e = FormulaMaterializationError::MissingManagedRegionInstance { region_id: definition.id.clone() };
                    proof {
                        assert(region_step(defs[i as int], regions, item_declarations@, initial_shapes@, gs.last(), Err(e)));
                        assert(regions_trace(defs, regions, item_declarations@, initial_shapes@, gs));
                        assert(regions_lowered(defs, regions, item_declarations@, initial_shapes@, g, Err(e)));
                    }
                    return Err(e);
                },
                Some(x) => x,
            };
            let ghost key = definition.id@;
            let mut si: usize = 0;
            while si < initial_shapes.len()
                invariant
                    si <= initial_shapes@.len(),
                    key == definition.id@,
                    shape_pos(initial_shapes@, key, 0) == shape_pos(initial_shapes@, key, si as int),
                ensures
                    si <= initial_shapes@.len(),
                    si < initial_shapes@.len() ==> shape_pos(initial_shapes@, key, 0) == Some(si as int),
                    si == initial_shapes@.len() ==> shape_pos(initial_shapes@, key, 0) is None,
                decreases initial_shapes@.len() - si,
            {
                if str_eq(initial_shapes[si].0.as_str(), definition.id.as_str()) {
                    break;
                }
                si = si + 1;
            }
            if si == initial_shapes.len() {
                let e = FormulaMaterializationError::MissingManagedRegionInitialShape { region_id: definition.id.clone() };
                proof {
                    assert(region_step(defs[i as int], regions, item_declarations@, initial_shapes@, gs.last(), Err(e)));
                    assert(regions_trace(defs, regions, item_declarations@, initial_shapes@, gs));
                    assert(regions_lowered(defs, regions, item_declarations@, initial_shapes@, g, Err(e)));
                }
                return Err(e);
            }
            let shape = initial_shapes[si].1.clone();
            proof {
                lemma_declarations_found(item_declarations@, regions, key);
            }
            let mut di: usize = 0;
            while di < item_declarations.len()
                invariant
                    di <= item_declarations@.len(),
                    key == definition.id@,
                    decls_pos(item_declarations@, key, 0) == decls_pos(item_declarations@, key, di as int),
                    decls_pos(item_declarations@, key, 0) is Some,
                ensures
                    decls_pos(item_declarations@, key, 0) == Some(di as int),
                    di < item_declarations@.len(),
                decreases item_declarations@.len() - di,
            {
                if str_eq(item_declarations[di].0.as_str(), definition.id.as_str()) {
                    break;
                }
                di = di + 1;
            }
            let declarations = &item_declarations[di].1;
            let ghost before = gs.last();
            proof {
                assert(before == graph);
                assert(*region_instance == value_of(regions, defs[i as int].id@));
                assert(*declarations == item_declarations@[decls_pos(item_declarations@, defs[i as int].id@, 0)->0].1);
                assert(shape == initial_shapes@[shape_pos(initial_shapes@, defs[i as int].id@, 0)->0].1);
            }
            let result = lower_filter_pipeline_region(graph, definition, region_instance, declarations, shape);
            let ghost res = result;
            if !result.is_valid() {
                let e = FormulaMaterializationError::ManagedRegionLoweringFailed {
                    region_id: definition.id.clone(),
                    lowering_diagnostics: result.diagnostics,
                    shape_diagnostics: result.shape.diagnostics,
                };
                proof {
                    assert(lowered_as(before, *definition, *region_instance, *declarations, shape, res));
                    assert(region_step(defs[i as int], regions, item_declarations@, initial_shapes@, gs.last(), Err(e)));
                }
                return Err(e);
            }
            graph = result.graph;
            proof {
                assert(lowered_as(before, *definition, *region_instance, *declarations, shape, res));
                let gs2 = gs.push(graph);
                assert(region_step(defs[i as int], regions, item_declarations@, initial_shapes@, gs[i as int], Ok(graph)));
                assert forall|j: int| #![trigger gs2[j]] 0 <= j < gs2.len() - 1 implies region_step(
                    defs[j],
                    regions,
                    item_declarations@,
                    initial_shapes@,
                    gs2[j],
                    Ok::<AlchemistGraph, FormulaMaterializationError>(gs2[j + 1]),
                ) by {
                    if j < gs.len() - 1 {
                        assert(gs2[j] == gs[j] && gs2[j + 1] == gs[j + 1]);
                    }
                }
                gs = gs2;
            }
            i = i + 1;
        }
        proof {
            assert(regions_trace(defs, regions, item_declarations@, initial_shapes@, gs));
        }
        Ok(graph)
    }
}

} // verus!
