//! Identifiers of graphs, nodes, sockets, formulas and statechart elements.
//!
//! Integer identifiers are plain `u64` values; named identifiers wrap a
//! `String` and compare by their text. Fresh random ones come from
//! [`fresh_id`], which draws on the process's random hashing keys.
use std::collections::hash_map::RandomState;
use std::hash::BuildHasher;
use vstd::prelude::*;

verus! {

/// Identifier of a state in a statechart.
pub type StateId = u64;

/// Identifier of a region in a statechart.
pub type RegionId = u64;

/// Identifier of a transition in a statechart.
pub type TransitionId = u64;

/// Identifier of a statechart.
pub type StatechartId = u64;

/// Identifier of an authored graph node.
pub type ANodeId = u64;

/// Identifier of an authored graph.
pub type AlchemistGraphId = u64;

/// Calls `RandomState::new` from std: a hash builder keyed with values that
/// the process draws at random. Nothing is claimed of the keys.
#[verifier::external_body]
fn random_state() -> RandomState {
    RandomState::new()
}

/// Calls `BuildHasher::hash_one` from std on a `RandomState`. The result
/// depends on the random keys of `state`, so nothing is claimed of it.
#[verifier::external_body]
fn hash_with_state(state: &RandomState, value: u64) -> u64 {
    state.hash_one(value)
}

/// A fresh random identifier.
pub fn fresh_id() -> u64 {
    let state = random_state();
    hash_with_state(&state, 0)
}

/// Identifier of a socket of a node, such as `value` or `value.x`.
#[derive(Debug, Eq, Hash)]
pub struct SocketId(pub String);

impl View for SocketId {
    type V = Seq<char>;

    open spec fn view(&self) -> Seq<char> {
        self.0@
    }
}

impl SocketId {
    pub fn new(id: &str) -> (r: Self)
        ensures
            r@ == id@,
    {
        SocketId(id.to_owned())
    }

    pub fn as_str(&self) -> (r: &str)
        ensures
            r@ == self@,
    {
        self.0.as_str()
    }
}

impl Clone for SocketId {
    fn clone(&self) -> (r: Self)
        ensures
            r == *self,
    {
        SocketId(self.0.clone())
    }
}

impl PartialEq for SocketId {
    fn eq(&self, other: &Self) -> (r: bool) {
        self.0 == other.0
    }
}

impl vstd::std_specs::cmp::PartialEqSpecImpl for SocketId {
    open spec fn obeys_eq_spec() -> bool {
        true
    }

    open spec fn eq_spec(&self, other: &Self) -> bool {
        self@ == other@
    }
}

/// Identifier of a node type, such as `math`.
#[derive(Debug, Eq, Hash)]
pub struct ANodeTypeId(pub String);

impl View for ANodeTypeId {
    type V = Seq<char>;

    open spec fn view(&self) -> Seq<char> {
        self.0@
    }
}

impl ANodeTypeId {
    pub fn new(id: &str) -> (r: Self)
        ensures
            r@ == id@,
    {
        ANodeTypeId(id.to_owned())
    }

    pub fn as_str(&self) -> (r: &str)
        ensures
            r@ == self@,
    {
        self.0.as_str()
    }
}

impl Clone for ANodeTypeId {
    fn clone(&self) -> (r: Self)
        ensures
            r == *self,
    {
        ANodeTypeId(self.0.clone())
    }
}

impl PartialEq for ANodeTypeId {
    fn eq(&self, other: &Self) -> (r: bool) {
        self.0 == other.0
    }
}

impl vstd::std_specs::cmp::PartialEqSpecImpl for ANodeTypeId {
    open spec fn obeys_eq_spec() -> bool {
        true
    }

    open spec fn eq_spec(&self, other: &Self) -> bool {
        self@ == other@
    }
}

/// Identifier of a formula.
#[derive(Debug, Eq, Hash)]
pub struct FormulaId(pub String);

impl View for FormulaId {
    type V = Seq<char>;

    open spec fn view(&self) -> Seq<char> {
        self.0@
    }
}

impl FormulaId {
    pub fn new(id: &str) -> (r: Self)
        ensures
            r@ == id@,
    {
        FormulaId(id.to_owned())
    }

    pub fn as_str(&self) -> (r: &str)
        ensures
            r@ == self@,
    {
        self.0.as_str()
    }
}

impl Clone for FormulaId {
    fn clone(&self) -> (r: Self)
        ensures
            r == *self,
    {
        FormulaId(self.0.clone())
    }
}

impl PartialEq for FormulaId {
    fn eq(&self, other: &Self) -> (r: bool) {
        self.0 == other.0
    }
}

impl vstd::std_specs::cmp::PartialEqSpecImpl for FormulaId {
    open spec fn obeys_eq_spec() -> bool {
        true
    }

    open spec fn eq_spec(&self, other: &Self) -> bool {
        self@ == other@
    }
}

/// Identifier of a formula property.
#[derive(Debug, Eq, Hash)]
pub struct FormulaPropertyId(pub String);

impl View for FormulaPropertyId {
    type V = Seq<char>;

    open spec fn view(&self) -> Seq<char> {
        self.0@
    }
}

impl FormulaPropertyId {
    pub fn new(id: &str) -> (r: Self)
        ensures
            r@ == id@,
    {
        FormulaPropertyId(id.to_owned())
    }

    pub fn as_str(&self) -> (r: &str)
        ensures
            r@ == self@,
    {
        self.0.as_str()
    }
}

impl Clone for FormulaPropertyId {
    fn clone(&self) -> (r: Self)
        ensures
            r == *self,
    {
        FormulaPropertyId(self.0.clone())
    }
}

impl PartialEq for FormulaPropertyId {
    fn eq(&self, other: &Self) -> (r: bool) {
        self.0 == other.0
    }
}

impl vstd::std_specs::cmp::PartialEqSpecImpl for FormulaPropertyId {
    open spec fn obeys_eq_spec() -> bool {
        true
    }

    open spec fn eq_spec(&self, other: &Self) -> bool {
        self@ == other@
    }
}

/// Identifier of an item of a formula surface.
#[derive(Debug, Eq, Hash)]
pub struct SurfaceItemId(pub String);

impl View for SurfaceItemId {
    type V = Seq<char>;

    open spec fn view(&self) -> Seq<char> {
        self.0@
    }
}

impl SurfaceItemId {
    pub fn new(id: &str) -> (r: Self)
        ensures
            r@ == id@,
    {
        SurfaceItemId(id.to_owned())
    }

    pub fn as_str(&self) -> (r: &str)
        ensures
            r@ == self@,
    {
        self.0.as_str()
    }
}

impl Clone for SurfaceItemId {
    fn clone(&self) -> (r: Self)
        ensures
            r == *self,
    {
        SurfaceItemId(self.0.clone())
    }
}

impl PartialEq for SurfaceItemId {
    fn eq(&self, other: &Self) -> (r: bool) {
        self.0 == other.0
    }
}

impl vstd::std_specs::cmp::PartialEqSpecImpl for SurfaceItemId {
    open spec fn obeys_eq_spec() -> bool {
        true
    }

    open spec fn eq_spec(&self, other: &Self) -> bool {
        self@ == other@
    }
}

/// Identifier of a section of a formula surface.
#[derive(Debug, Eq, Hash)]
pub struct SurfaceSectionId(pub String);

impl View for SurfaceSectionId {
    type V = Seq<char>;

    open spec fn view(&self) -> Seq<char> {
        self.0@
    }
}

impl SurfaceSectionId {
    pub fn new(id: &str) -> (r: Self)
        ensures
            r@ == id@,
    {
        SurfaceSectionId(id.to_owned())
    }

    pub fn as_str(&self) -> (r: &str)
        ensures
            r@ == self@,
    {
        self.0.as_str()
    }
}

impl Clone for SurfaceSectionId {
    fn clone(&self) -> (r: Self)
        ensures
            r == *self,
    {
        SurfaceSectionId(self.0.clone())
    }
}

impl PartialEq for SurfaceSectionId {
    fn eq(&self, other: &Self) -> (r: bool) {
        self.0 == other.0
    }
}

impl vstd::std_specs::cmp::PartialEqSpecImpl for SurfaceSectionId {
    open spec fn obeys_eq_spec() -> bool {
        true
    }

    open spec fn eq_spec(&self, other: &Self) -> bool {
        self@ == other@
    }
}

/// Identifier of what a node contributes to a formula surface.
#[derive(Debug, Eq, Hash)]
pub struct SurfaceContributionId(pub String);

impl View for SurfaceContributionId {
    type V = Seq<char>;

    open spec fn view(&self) -> Seq<char> {
        self.0@
    }
}

impl SurfaceContributionId {
    pub fn new(id: &str) -> (r: Self)
        ensures
            r@ == id@,
    {
        SurfaceContributionId(id.to_owned())
    }

    pub fn as_str(&self) -> (r: &str)
        ensures
            r@ == self@,
    {
        self.0.as_str()
    }
}

impl Clone for SurfaceContributionId {
    fn clone(&self) -> (r: Self)
        ensures
            r == *self,
    {
        SurfaceContributionId(self.0.clone())
    }
}

impl PartialEq for SurfaceContributionId {
    fn eq(&self, other: &Self) -> (r: bool) {
        self.0 == other.0
    }
}

impl vstd::std_specs::cmp::PartialEqSpecImpl for SurfaceContributionId {
    open spec fn obeys_eq_spec() -> bool {
        true
    }

    open spec fn eq_spec(&self, other: &Self) -> bool {
        self@ == other@
    }
}

/// Identifier of a managed region of a formula surface.
#[derive(Debug, Eq, Hash)]
pub struct ManagedRegionId(pub String);

impl View for ManagedRegionId {
    type V = Seq<char>;

    open spec fn view(&self) -> Seq<char> {
        self.0@
    }
}

impl ManagedRegionId {
    pub fn new(id: &str) -> (r: Self)
        ensures
            r@ == id@,
    {
        ManagedRegionId(id.to_owned())
    }

    pub fn as_str(&self) -> (r: &str)
        ensures
            r@ == self@,
    {
        self.0.as_str()
    }
}

impl Clone for ManagedRegionId {
    fn clone(&self) -> (r: Self)
        ensures
            r == *self,
    {
        ManagedRegionId(self.0.clone())
    }
}

impl PartialEq for ManagedRegionId {
    fn eq(&self, other: &Self) -> (r: bool) {
        self.0 == other.0
    }
}

impl vstd::std_specs::cmp::PartialEqSpecImpl for ManagedRegionId {
    open spec fn obeys_eq_spec() -> bool {
        true
    }

    open spec fn eq_spec(&self, other: &Self) -> bool {
        self@ == other@
    }
}

/// Identifier of an item of a managed region.
#[derive(Debug, Eq, Hash)]
pub struct ManagedItemId(pub String);

impl View for ManagedItemId {
    type V = Seq<char>;

    open spec fn view(&self) -> Seq<char> {
        self.0@
    }
}

impl ManagedItemId {
    pub fn new(id: &str) -> (r: Self)
        ensures
            r@ == id@,
    {
        ManagedItemId(id.to_owned())
    }

    pub fn as_str(&self) -> (r: &str)
        ensures
            r@ == self@,
    {
        self.0.as_str()
    }
}

impl Clone for ManagedItemId {
    fn clone(&self) -> (r: Self)
        ensures
            r == *self,
    {
        ManagedItemId(self.0.clone())
    }
}

impl PartialEq for ManagedItemId {
    fn eq(&self, other: &Self) -> (r: bool) {
        self.0 == other.0
    }
}

impl vstd::std_specs::cmp::PartialEqSpecImpl for ManagedItemId {
    open spec fn obeys_eq_spec() -> bool {
        true
    }

    open spec fn eq_spec(&self, other: &Self) -> bool {
        self@ == other@
    }
}

/// Identifier of an exposed declaration of a graph.
#[derive(Debug, Eq, Hash)]
pub struct ExposedDeclId(pub String);

impl View for ExposedDeclId {
    type V = Seq<char>;

    open spec fn view(&self) -> Seq<char> {
        self.0@
    }
}

impl ExposedDeclId {
    pub fn new(id: &str) -> (r: Self)
        ensures
            r@ == id@,
    {
        ExposedDeclId(id.to_owned())
    }

    pub fn as_str(&self) -> (r: &str)
        ensures
            r@ == self@,
    {
        self.0.as_str()
    }
}

impl Clone for ExposedDeclId {
    fn clone(&self) -> (r: Self)
        ensures
            r == *self,
    {
        ExposedDeclId(self.0.clone())
    }
}

impl PartialEq for ExposedDeclId {
    fn eq(&self, other: &Self) -> (r: bool) {
        self.0 == other.0
    }
}

impl vstd::std_specs::cmp::PartialEqSpecImpl for ExposedDeclId {
    open spec fn obeys_eq_spec() -> bool {
        true
    }

    open spec fn eq_spec(&self, other: &Self) -> bool {
        self@ == other@
    }
}

/// Identifier of a context dimension.
#[derive(Debug, Eq, Hash)]
pub struct ContextDimensionId(pub String);

impl View for ContextDimensionId {
    type V = Seq<char>;

    open spec fn view(&self) -> Seq<char> {
        self.0@
    }
}

impl ContextDimensionId {
    pub fn new(id: &str) -> (r: Self)
        ensures
            r@ == id@,
    {
        ContextDimensionId(id.to_owned())
    }

    pub fn as_str(&self) -> (r: &str)
        ensures
            r@ == self@,
    {
        self.0.as_str()
    }
}

impl Clone for ContextDimensionId {
    fn clone(&self) -> (r: Self)
        ensures
            r == *self,
    {
        ContextDimensionId(self.0.clone())
    }
}

impl PartialEq for ContextDimensionId {
    fn eq(&self, other: &Self) -> (r: bool) {
        self.0 == other.0
    }
}

impl vstd::std_specs::cmp::PartialEqSpecImpl for ContextDimensionId {
    open spec fn obeys_eq_spec() -> bool {
        true
    }

    open spec fn eq_spec(&self, other: &Self) -> bool {
        self@ == other@
    }
}

/// Identifier of a context axis.
#[derive(Debug, Eq, Hash)]
pub struct ContextAxisId(pub String);

impl View for ContextAxisId {
    type V = Seq<char>;

    open spec fn view(&self) -> Seq<char> {
        self.0@
    }
}

impl ContextAxisId {
    pub fn new(id: &str) -> (r: Self)
        ensures
            r@ == id@,
    {
        ContextAxisId(id.to_owned())
    }

    pub fn as_str(&self) -> (r: &str)
        ensures
            r@ == self@,
    {
        self.0.as_str()
    }
}

impl Clone for ContextAxisId {
    fn clone(&self) -> (r: Self)
        ensures
            r == *self,
    {
        ContextAxisId(self.0.clone())
    }
}

impl PartialEq for ContextAxisId {
    fn eq(&self, other: &Self) -> (r: bool) {
        self.0 == other.0
    }
}

impl vstd::std_specs::cmp::PartialEqSpecImpl for ContextAxisId {
    open spec fn obeys_eq_spec() -> bool {
        true
    }

    open spec fn eq_spec(&self, other: &Self) -> bool {
        self@ == other@
    }
}

/// Position of a node in a compiled graph's execution list.
#[derive(Clone, Copy, Debug, PartialEq, Eq, Hash, Structural)]
pub struct ExecNodeId(pub u32);

impl ExecNodeId {
    pub fn new(index: u32) -> (r: Self)
        ensures
            r.0 == index,
    {
        ExecNodeId(index)
    }

    /// The position, as an index.
    pub fn index(self) -> (r: usize)
        ensures
            r == self.0,
    {
        self.0 as usize
    }
}

/// Slot of a value in a compiled graph's value memory.
#[derive(Clone, Copy, Debug, PartialEq, Eq, Hash, Structural)]
pub struct ValueSlotId(pub u32);

impl ValueSlotId {
    pub fn new(index: u32) -> (r: Self)
        ensures
            r.0 == index,
    {
        ValueSlotId(index)
    }

    /// The slot, as an index.
    pub fn index(self) -> (r: usize)
        ensures
            r == self.0,
    {
        self.0 as usize
    }
}

/// Slot of a formula property in a compiled formula.
#[derive(Clone, Copy, Debug, PartialEq, Eq, Hash, Structural)]
pub struct FormulaPropertySlotId(pub u32);

impl FormulaPropertySlotId {
    pub fn new(index: u32) -> (r: Self)
        ensures
            r.0 == index,
    {
        FormulaPropertySlotId(index)
    }

    /// The slot, as an index.
    pub fn index(self) -> (r: usize)
        ensures
            r == self.0,
    {
        self.0 as usize
    }
}

} // verus!
