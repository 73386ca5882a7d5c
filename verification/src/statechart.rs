//! Hierarchical statecharts: regions hold states, composite states hold a
//! child region, and transitions move the single active path between states.
use indexmap::{IndexMap, IndexSet};
use vstd::prelude::*;

use crate::ids::{fresh_id, RegionId, StateId, StatechartId, TransitionId};
use crate::text::{decimal_text, with_decimal};
use crate::indexmap_specs::{
    history_entries, history_map_get, history_map_insert, history_map_new, region_entries,
    region_map_contains, region_map_get, region_map_get_mut, region_map_insert, region_map_new,
    scope_items, scope_set_contains, scope_set_insert, scope_set_new, state_entries, state_map_contains,
    state_map_get, state_map_insert, state_map_new,
};
use crate::ordered::{
    entries_insert, has_key, key_pos, keys_distinct, lemma_insert, lemma_key_pos, lemma_set_from_seq,
    set_from_seq, set_insert, value_of,
};

verus! {

/// The schema version of statecharts built by this library.
pub const STATECHART_SCHEMA_VERSION: u32 = 1;

/// A path of states from the outermost active state down to a leaf.
pub type StatePath = Vec<StateId>;

/// What a composite state remembers of its active children when left.
#[derive(Clone, Copy, Debug, PartialEq, Eq, Structural)]
pub enum HistoryPolicy {
    NoHistory,
    Shallow,
    Deep,
}

/// Which child a composite state enters.
#[derive(Clone, Copy, Debug, PartialEq, Eq, Structural)]
pub enum EnterPolicy {
    InitialChild,
    LastActiveChild,
    Explicit(StateId),
}

/// A leaf state, or a composite state with its child regions.
#[derive(Clone, Debug, PartialEq, Eq)]
pub enum StateKind {
    Leaf,
    Composite { regions: Vec<RegionId>, history: HistoryPolicy, enter: EnterPolicy },
}

/// A state of a statechart.
#[derive(Clone, Debug, PartialEq)]
pub struct StateNode {
    pub id: StateId,
    pub label: String,
    pub parent_region: RegionId,
    pub kind: StateKind,
}

impl StateNode {
    /// A leaf state with a fresh random identifier.
    pub fn leaf(label: &str, parent_region: RegionId) -> (node: Self)
        ensures
            node.label@ == label@,
            node.parent_region == parent_region,
            node.kind is Leaf,
    {
        StateNode { id: fresh_id(), label: label.to_owned(), parent_region, kind: StateKind::Leaf }
    }
}

/// A region: an ordered group of sibling states with an optional initial one.
#[derive(Clone, Debug, PartialEq, Eq)]
pub struct Region {
    pub id: RegionId,
    pub parent_state: Option<StateId>,
    pub states: Vec<StateId>,
    pub initial: Option<StateId>,
}

/// A transition from `source` to `target`.
#[derive(Clone, Copy, Debug, PartialEq, Eq, Structural)]
pub struct Transition {
    pub id: TransitionId,
    pub source: StateId,
    pub target: StateId,
    pub priority: i32,
    pub creation_order: u64,
}

/// What a composite state recorded of its active descendants when left.
#[derive(Clone, Debug, PartialEq, Eq)]
pub struct StateHistory {
    pub shallow: Option<StateId>,
    pub deep: Option<StatePath>,
}

/// The active states of a statechart and the recorded histories.
#[derive(Debug)]
pub struct ActiveConfiguration {
    pub active_leaf_paths: Vec<StatePath>,
    pub active_scopes: IndexSet<StateId>,
    pub history: IndexMap<StateId, StateHistory>,
}

/// A state entered or exited.
#[derive(Clone, Copy, Debug, PartialEq, Eq, Structural)]
pub enum LifecycleEvent {
    Enter(StateId),
    Exit(StateId),
}

/// What a step did: the transition taken, the states exited (innermost
/// first) and entered (outermost first), and the matching events.
#[derive(Clone, Debug, PartialEq, Eq)]
pub struct TransitionOutcome {
    pub transition: TransitionId,
    pub exited: Vec<StateId>,
    pub entered: Vec<StateId>,
    pub lifecycle: Vec<LifecycleEvent>,
}

/// Why a statechart operation was refused.
#[derive(Clone, Copy, Debug, PartialEq, Eq, Structural)]
pub enum StatechartError {
    MissingRegion(RegionId),
    MissingState(StateId),
    StateOutsideRegion { state: StateId, region: RegionId },
    MissingInitial(RegionId),
    CompositeWithoutRegion(StateId),
    NotInitialized,
}

impl StatechartError {
    /// A readable message for the error.
    pub fn message(&self) -> (r: String)
        ensures
            match *self {
                StatechartError::MissingRegion(region) => r@ == "region `"@ + decimal_text(region as nat)
                    + "` does not exist"@,
                StatechartError::MissingState(state) => r@ == "state `"@ + decimal_text(state as nat)
                    + "` does not exist"@,
                StatechartError::StateOutsideRegion { state, region } => r@ == "state `"@ + decimal_text(
                    state as nat,
                ) + "` is not inside region `"@ + decimal_text(region as nat) + "`"@,
                StatechartError::MissingInitial(region) => r@ == "region `"@ + decimal_text(region as nat)
                    + "` has no initial state"@,
                StatechartError::CompositeWithoutRegion(state) => r@ == "composite state `"@ + decimal_text(
                    state as nat,
                ) + "` has no child region"@,
                StatechartError::NotInitialized => r@ == "statechart has not been initialized"@,
            },
    {
        match *self {
            StatechartError::MissingRegion(region) => with_decimal("region `", region, "` does not exist"),
            StatechartError::MissingState(state) => with_decimal("state `", state, "` does not exist"),
            StatechartError::StateOutsideRegion { state, region } => {
                let head = with_decimal("state `", state, "` is not inside region `");
                let r = with_decimal(head.as_str(), region, "`");
                proof {
                    assert(r@ =~= "state `"@ + decimal_text(state as nat) + "` is not inside region `"@
                        + decimal_text(region as nat) + "`"@);
                }
                r
            },
            StatechartError::MissingInitial(region) => with_decimal("region `", region, "` has no initial state"),
            StatechartError::CompositeWithoutRegion(state) => with_decimal(
                "composite state `",
                state,
                "` has no child region",
            ),
            StatechartError::NotInitialized => "statechart has not been initialized".to_owned(),
        }
    }
}

/// A statechart. States, regions and transitions receive identifiers that
/// are unique within the chart, allocated in increasing order.
pub struct Statechart {
    pub schema_version: u32,
    pub id: StatechartId,
    pub root_region: RegionId,
    pub regions: IndexMap<RegionId, Region>,
    pub states: IndexMap<StateId, StateNode>,
    pub transitions: Vec<Transition>,
    pub active: ActiveConfiguration,
    pub allocator: ChartAllocator,
}

/// The counters from which a statechart draws identifiers and transition
/// creation orders.
pub struct ChartAllocator {
    next_transition_order: u64,
    next_id: u64,
}

impl ChartAllocator {
    /// The creation order the next transition receives.
    pub closed spec fn transition_counter(&self) -> u64 {
        self.next_transition_order
    }

    /// The identifier the next allocated element receives.
    pub closed spec fn id_counter(&self) -> u64 {
        self.next_id
    }

    fn new() -> (a: Self)
        ensures
            a.transition_counter() == 0,
            a.id_counter() == 1,
    {
        ChartAllocator { next_transition_order: 0, next_id: 1 }
    }

    fn take_id(&mut self) -> (id: u64)
        requires
            old(self).id_counter() < u64::MAX,
        ensures
            id == old(self).id_counter(),
            final(self).id_counter() == old(self).id_counter() + 1,
            final(self).transition_counter() == old(self).transition_counter(),
    {
        let id = self.next_id;
        self.next_id = self.next_id + 1;
        id
    }

    fn take_transition_order(&mut self) -> (order: u64)
        requires
            old(self).transition_counter() < u64::MAX,
        ensures
            order == old(self).transition_counter(),
            final(self).transition_counter() == old(self).transition_counter() + 1,
            final(self).id_counter() == old(self).id_counter(),
    {
        let order = self.next_transition_order;
        self.next_transition_order = self.next_transition_order + 1;
        order
    }
}

/// `new` holds the entries of `old`, except that the entry under `key`
/// (which exists) may carry another value.
pub open spec fn changed_only_at<V>(old: Seq<(u64, V)>, new: Seq<(u64, V)>, key: u64) -> bool {
    &&& has_key(old, key)
    &&& new.len() == old.len()
    &&& forall|i: int| 0 <= i < old.len() && i != key_pos(old, key) ==> #[trigger] new[i] == old[i]
    &&& new[key_pos(old, key)].0 == key
}

/// `new` is region `old` with `state` appended to its states.
pub open spec fn region_gains_state(old: Region, new: Region, state: StateId) -> bool {
    &&& new.id == old.id
    &&& new.parent_state == old.parent_state
    &&& new.initial == old.initial
    &&& new.states@ == old.states@.push(state)
}

/// `node` is the leaf `id` labelled `label` in region `region`.
pub open spec fn is_leaf_node(node: StateNode, id: StateId, label: Seq<char>, region: RegionId) -> bool {
    &&& node.id == id
    &&& node.label@ == label
    &&& node.parent_region == region
    &&& node.kind is Leaf
}

/// `node` is the composite `id` labelled `label` in region `region`, whose
/// only child region is `child`.
pub open spec fn is_composite_node(
    node: StateNode,
    id: StateId,
    label: Seq<char>,
    region: RegionId,
    child: RegionId,
    history: HistoryPolicy,
    enter: EnterPolicy,
) -> bool {
    &&& node.id == id
    &&& node.label@ == label
    &&& node.parent_region == region
    &&& node.kind matches StateKind::Composite { regions, history: h, enter: e } && regions@ == seq![
        child,
    ] && h == history && e == enter
}


/// The event of entering each state of `states`, in order.
pub open spec fn enter_events(states: Seq<StateId>) -> Seq<LifecycleEvent> {
    states.map_values(|s: StateId| LifecycleEvent::Enter(s))
}

/// The event of exiting each state of `states`, in order.
pub open spec fn exit_events(states: Seq<StateId>) -> Seq<LifecycleEvent> {
    states.map_values(|s: StateId| LifecycleEvent::Exit(s))
}

/// `k` is the length of the longest common prefix of `a` and `b`.
pub open spec fn is_common_prefix_len(a: Seq<StateId>, b: Seq<StateId>, k: int) -> bool {
    &&& 0 <= k <= a.len()
    &&& k <= b.len()
    &&& forall|j: int| 0 <= j < k ==> a[j] == b[j]
    &&& (k == a.len() || k == b.len() || a[k] != b[k])
}

/// The length of the longest common prefix of `a` and `b`.
pub open spec fn common_prefix_len_spec(a: Seq<StateId>, b: Seq<StateId>) -> int {
    choose|k: int| is_common_prefix_len(a, b, k)
}

/// Every two sequences have a longest common prefix.
pub proof fn lemma_common_prefix_exists(a: Seq<StateId>, b: Seq<StateId>, k: int)
    requires
        0 <= k <= a.len(),
        k <= b.len(),
        forall|j: int| 0 <= j < k ==> a[j] == b[j],
    ensures
        is_common_prefix_len(a, b, common_prefix_len_spec(a, b)),
    decreases a.len() - k,
{
    if k == a.len() || k == b.len() || a[k] != b[k] {
        assert(is_common_prefix_len(a, b, k));
    } else {
        lemma_common_prefix_exists(a, b, k + 1);
    }
}

pub proof fn lemma_common_prefix_unique(a: Seq<StateId>, b: Seq<StateId>, k: int)
    requires
        is_common_prefix_len(a, b, k),
    ensures
        common_prefix_len_spec(a, b) == k,
{
    let c = common_prefix_len_spec(a, b);
    assert(is_common_prefix_len(a, b, c));
    if c < k {
        assert(a[c] == b[c]);
    } else if k < c {
        assert(a[k] == b[k]);
    }
}

/// A recorded history, viewed with its deep path as a sequence.
pub open spec fn history_view(h: StateHistory) -> (Option<StateId>, Option<Seq<StateId>>) {
    (h.shallow, match h.deep {
        Some(d) => Some(d@),
        None => None,
    })
}

/// Recorded histories, viewed entry by entry.
pub open spec fn history_view_seq(s: Seq<(u64, StateHistory)>) -> Seq<(u64, (Option<StateId>, Option<Seq<StateId>>))> {
    s.map_values(|e: (u64, StateHistory)| (e.0, history_view(e.1)))
}

/// What leaving `path` records for its state at index `i`: the next state
/// on the path, and the rest of the path below it.
pub open spec fn recorded_history(path: Seq<StateId>, i: int) -> (Option<StateId>, Option<Seq<StateId>>) {
    (if i + 1 < path.len() {
        Some(path[i + 1])
    } else {
        None
    }, Some(path.subrange(i + 1, path.len() as int)))
}

pub proof fn lemma_history_view_insert(s: Seq<(u64, StateHistory)>, k: u64, v: StateHistory)
    requires
        keys_distinct(s),
    ensures
        keys_distinct(history_view_seq(s)),
        history_view_seq(entries_insert(s, k, v)) == entries_insert(history_view_seq(s), k, history_view(v)),
{
    let t = history_view_seq(s);
    assert forall|i: int| 0 <= i < s.len() implies #[trigger] t[i].0 == s[i].0 by {}
    assert(has_key(s, k) <==> has_key(t, k)) by {
        if has_key(s, k) {
            let i = key_pos(s, k);
            assert(t[i].0 == k);
        }
        if has_key(t, k) {
            let i = key_pos(t, k);
            assert(s[i].0 == k);
        }
    }
    if has_key(s, k) {
        let i = key_pos(s, k);
        lemma_key_pos(s, i);
        lemma_key_pos(t, i);
        assert(history_view_seq(entries_insert(s, k, v)) =~= entries_insert(t, k, history_view(v)));
    } else {
        assert(history_view_seq(entries_insert(s, k, v)) =~= entries_insert(t, k, history_view(v)));
    }
}

/// A transition outcome viewed as plain sequences.
pub open spec fn outcome_view(o: TransitionOutcome) -> (TransitionId, Seq<StateId>, Seq<StateId>, Seq<LifecycleEvent>) {
    (o.transition, o.exited@, o.entered@, o.lifecycle@)
}

fn common_prefix_len(left: &StatePath, right: &StatePath) -> (k: usize)
    ensures
        is_common_prefix_len(left@, right@, k as int),
        k == common_prefix_len_spec(left@, right@),
{
    let mut k: usize = 0;
    while k < left.len() && k < right.len() && left[k] == right[k]
        invariant
            k <= left@.len(),
            k <= right@.len(),
            forall|j: int| 0 <= j < k ==> left@[j] == right@[j],
        decreases left@.len() - k,
    {
        k = k + 1;
    }
    proof {
        lemma_common_prefix_unique(left@, right@, k as int);
    }
    k
}

impl Statechart {
    /// The regions of the chart, as entries in insertion order.
    pub open spec fn region_seq(&self) -> Seq<(u64, Region)> {
        region_entries(self.regions)
    }

    /// The states of the chart, as entries in insertion order.
    pub open spec fn state_seq(&self) -> Seq<(u64, StateNode)> {
        state_entries(self.states)
    }

    /// The recorded histories, as entries in insertion order.
    pub open spec fn history_seq(&self) -> Seq<(u64, StateHistory)> {
        history_entries(self.active.history)
    }

    /// The creation order the next transition receives.
    pub open spec fn transition_counter(&self) -> u64 {
        self.allocator.transition_counter()
    }

    /// The identifier the next allocated element receives.
    pub open spec fn id_counter(&self) -> u64 {
        self.allocator.id_counter()
    }

    /// Room is left for `n` more identifiers and transitions.
    pub open spec fn has_room(&self, n: int) -> bool {
        &&& self.id_counter() + n <= u64::MAX
        &&& self.transition_counter() < u64::MAX
    }

    pub open spec fn region_of(&self, id: RegionId) -> Region {
        value_of(self.region_seq(), id)
    }

    pub open spec fn state_of(&self, id: StateId) -> StateNode {
        value_of(self.state_seq(), id)
    }

    pub open spec fn has_region(&self, id: RegionId) -> bool {
        has_key(self.region_seq(), id)
    }

    pub open spec fn has_state(&self, id: StateId) -> bool {
        has_key(self.state_seq(), id)
    }

    /// The region `r` stored under `key` is consistent with the chart.
    pub open spec fn region_ok(&self, key: u64, r: Region) -> bool {
        &&& r.id == key
        &&& key < self.id_counter()
        &&& (r.parent_state matches Some(p) ==> self.has_state(p) && p < key)
        &&& (r.initial matches Some(x) ==> self.has_state(x))
    }

    /// The state `s` stored under `key` is consistent with the chart: its
    /// region exists, and the composite owning that region is older.
    pub open spec fn state_ok(&self, key: u64, s: StateNode) -> bool {
        &&& s.id == key
        &&& key < self.id_counter()
        &&& self.has_region(s.parent_region)
        &&& (self.region_of(s.parent_region).parent_state matches Some(p) ==> p < key)
    }

    /// Well-formedness: identifiers are unique and below the allocation
    /// counter, every state lies in an existing region, each region's
    /// initial state exists, and the active path consists of states.
    pub open spec fn wf(&self) -> bool {
        &&& keys_distinct(self.region_seq())
        &&& keys_distinct(self.state_seq())
        &&& keys_distinct(self.history_seq())
        &&& self.has_region(self.root_region)
        &&& forall|i: int|
            0 <= i < self.region_seq().len() ==> #[trigger] self.region_ok(
                self.region_seq()[i].0,
                self.region_seq()[i].1,
            )
        &&& forall|i: int|
            0 <= i < self.state_seq().len() ==> #[trigger] self.state_ok(
                self.state_seq()[i].0,
                self.state_seq()[i].1,
            )
        &&& forall|i: int, j: int|
            0 <= i < self.active.active_leaf_paths@.len() && 0 <= j
                < self.active.active_leaf_paths@[i]@.len() ==> self.has_state(
                #[trigger] self.active.active_leaf_paths@[i]@[j],
            )
    }

    /// The same chart apart from its regions and states.
    pub open spec fn same_except_structure(&self, other: &Self) -> bool {
        &&& self.schema_version == other.schema_version
        &&& self.id == other.id
        &&& self.root_region == other.root_region
        &&& self.transitions@ == other.transitions@
        &&& self.active.active_leaf_paths@ == other.active.active_leaf_paths@
        &&& scope_items(self.active.active_scopes) == scope_items(other.active.active_scopes)
        &&& self.history_seq() == other.history_seq()
        &&& self.transition_counter() == other.transition_counter()
    }

    proof fn lemma_wf_region(&self, key: u64)
        requires
            self.wf(),
            self.has_region(key),
        ensures
            self.region_ok(key, self.region_of(key)),
    {
        let i = key_pos(self.region_seq(), key);
        assert(self.region_ok(self.region_seq()[i].0, self.region_seq()[i].1));
    }

    proof fn lemma_wf_state(&self, key: u64)
        requires
            self.wf(),
            self.has_state(key),
        ensures
            self.state_ok(key, self.state_of(key)),
    {
        let i = key_pos(self.state_seq(), key);
        assert(self.state_ok(self.state_seq()[i].0, self.state_seq()[i].1));
    }

    proof fn lemma_fresh(&self)
        requires
            self.wf(),
            self.id_counter() < u64::MAX,
        ensures
            !self.has_region(self.id_counter()),
            !self.has_state(self.id_counter()),
            !self.has_region((self.id_counter() + 1) as u64),
            !self.has_state((self.id_counter() + 1) as u64),
    {
        if self.has_region(self.id_counter()) {
            self.lemma_wf_region(self.id_counter());
        }
        if self.has_state(self.id_counter()) {
            self.lemma_wf_state(self.id_counter());
        }
        if self.has_region((self.id_counter() + 1) as u64) {
            self.lemma_wf_region((self.id_counter() + 1) as u64);
        }
        if self.has_state((self.id_counter() + 1) as u64) {
            self.lemma_wf_state((self.id_counter() + 1) as u64);
        }
    }

    /// An empty chart with an empty root region and no active state.
    pub fn new() -> (chart: Self)
        ensures
            chart.wf(),
            chart.schema_version == STATECHART_SCHEMA_VERSION,
            chart.region_seq().len() == 1,
            chart.region_seq()[0].0 == chart.root_region,
            chart.region_seq()[0].1.parent_state is None,
            chart.region_seq()[0].1.states@.len() == 0,
            chart.region_seq()[0].1.initial is None,
            chart.state_seq().len() == 0,
            chart.transitions@.len() == 0,
            chart.active.active_leaf_paths@.len() == 0,
            scope_items(chart.active.active_scopes).len() == 0,
            chart.history_seq().len() == 0,
            chart.has_room(u64::MAX - 1),
    {
        let root_region: RegionId = 0;
        let mut regions = region_map_new();
        region_map_insert(
            &mut regions,
            root_region,
            Region { id: root_region, parent_state: None, states: Vec::new(), initial: None },
        );
        let chart = Statechart {
            schema_version: STATECHART_SCHEMA_VERSION,
            id: fresh_id(),
            root_region,
            regions,
            states: state_map_new(),
            transitions: Vec::new(),
            active: ActiveConfiguration {
                active_leaf_paths: Vec::new(),
                active_scopes: scope_set_new(),
                history: history_map_new(),
            },
            allocator: ChartAllocator::new(),
        };
        proof {
            lemma_insert(
                Seq::<(u64, Region)>::empty(),
                root_region,
                chart.region_seq()[0].1,
                root_region,
            );
            assert(chart.region_seq()[0].0 == root_region);
        }
        chart
    }


    /// Adds a leaf state labelled `label` to `region`.
    pub fn add_leaf(&mut self, region: RegionId, label: &str) -> (r: Result<StateId, StatechartError>)
        requires
            old(self).wf(),
            old(self).has_room(1),
        ensures
            final(self).wf(),
            match r {
                Ok(id) => {
                    &&& old(self).has_region(region)
                    &&& id == old(self).id_counter()
                    &&& !old(self).has_state(id)
                    &&& final(self).state_seq() == old(self).state_seq().push(
                        (id, final(self).state_seq().last().1),
                    )
                    &&& is_leaf_node(final(self).state_seq().last().1, id, label@, region)
                    &&& changed_only_at(old(self).region_seq(), final(self).region_seq(), region)
                    &&& region_gains_state(old(self).region_of(region), final(self).region_of(region), id)
                    &&& final(self).id_counter() == old(self).id_counter() + 1
                    &&& final(self).same_except_structure(old(self))
                },
                Err(e) => {
                    &&& e == StatechartError::MissingRegion(region)
                    &&& !old(self).has_region(region)
                    &&& *final(self) == *old(self)
                },
            },
    {
        self.require_region(region)?;
        proof {
            self.lemma_fresh();
        }
        let id = self.allocator.take_id();
        let state = StateNode { id, label: label.to_owned(), parent_region: region, kind: StateKind::Leaf };
        let ghost old_self = *old(self);
        let ghost node = state;
        state_map_insert(&mut self.states, id, state);
        proof {
            lemma_insert(old_self.state_seq(), id, node, id);
        }
        match region_map_get_mut(&mut self.regions, &region) {
            Some(entry) => entry.states.push(id),
            None => {},
        }
        proof {
            self.lemma_add_state_preserves_wf(&old_self, id, region);
        }
        Ok(id)
    }

    /// After a state `id` is appended in `region`, whose entry only gained
    /// `id`, the chart is still well formed.
    proof fn lemma_add_state_preserves_wf(&self, old_self: &Self, id: StateId, region: RegionId)
        requires
            old_self.wf(),
            old_self.has_region(region),
            !old_self.has_state(id),
            id == old_self.id_counter(),
            self.id_counter() > id,
            self.state_seq() == old_self.state_seq().push((id, self.state_seq().last().1)),
            self.state_seq().last().1.id == id,
            self.state_seq().last().1.parent_region == region,
            changed_only_at(old_self.region_seq(), self.region_seq(), region),
            self.region_seq()[key_pos(old_self.region_seq(), region)].1.id == old_self.region_of(region).id,
            self.region_seq()[key_pos(old_self.region_seq(), region)].1.parent_state
                == old_self.region_of(region).parent_state,
            self.region_seq()[key_pos(old_self.region_seq(), region)].1.initial
                == old_self.region_of(region).initial,
            self.same_except_structure(old_self),
        ensures
            self.wf(),
            self.region_of(region) == self.region_seq()[key_pos(old_self.region_seq(), region)].1,
    {
        let olds = old_self.state_seq();
        let news = self.state_seq();
        let oldr = old_self.region_seq();
        let newr = self.region_seq();
        let pos = key_pos(oldr, region);
        lemma_insert(olds, id, news.last().1, id);
        assert(news == entries_insert(olds, id, news.last().1));
        assert forall|k: u64| old_self.has_state(k) implies self.has_state(k) by {
            lemma_insert(olds, id, news.last().1, k);
        }
        assert forall|k: u64| #[trigger] self.has_region(k) <==> old_self.has_region(k) by {
            if old_self.has_region(k) {
                let j = key_pos(oldr, k);
                if j != pos {
                    assert(newr[j] == oldr[j]);
                } else {
                    assert(newr[pos].0 == region);
                }
            }
            if self.has_region(k) {
                let j = choose|j: int| 0 <= j < newr.len() && newr[j].0 == k;
                if j != pos {
                    assert(newr[j] == oldr[j]);
                } else {
                    assert(oldr[pos].0 == region);
                }
            }
        }
        assert(keys_distinct(newr)) by {
            assert forall|i: int, j: int| 0 <= i < newr.len() && 0 <= j < newr.len() && i != j implies newr[i].0
                != newr[j].0 by {
                assert(newr[i].0 == oldr[i].0) by {
                    if i == pos {
                        assert(oldr[pos].0 == region);
                    }
                }
                assert(newr[j].0 == oldr[j].0) by {
                    if j == pos {
                        assert(oldr[pos].0 == region);
                    }
                }
            }
        }
        lemma_key_pos(newr, pos);
        assert(newr[pos].0 == region);
        assert forall|k: u64| old_self.has_region(k) implies #[trigger] self.region_of(k).parent_state
            == old_self.region_of(k).parent_state && self.region_of(k).initial
            == old_self.region_of(k).initial && self.region_of(k).id == old_self.region_of(k).id by {
            let j = key_pos(oldr, k);
            lemma_key_pos(oldr, j);
            if j != pos {
                assert(newr[j] == oldr[j]);
                lemma_key_pos(newr, j);
            }
        }
        assert forall|i: int| 0 <= i < newr.len() implies #[trigger] self.region_ok(newr[i].0, newr[i].1) by {
            assert(old_self.region_ok(oldr[i].0, oldr[i].1));
            lemma_key_pos(oldr, i);
            lemma_key_pos(newr, i);
            if i != pos {
                assert(newr[i] == oldr[i]);
            }
        }
        assert forall|i: int| 0 <= i < news.len() implies #[trigger] self.state_ok(news[i].0, news[i].1) by {
            if i < olds.len() {
                assert(news[i] == olds[i]);
                assert(old_self.state_ok(olds[i].0, olds[i].1));
            } else {
                old_self.lemma_wf_region(region);
            }
        }
        assert forall|i: int, j: int|
            0 <= i < self.active.active_leaf_paths@.len() && 0 <= j
                < self.active.active_leaf_paths@[i]@.len() implies self.has_state(
            #[trigger] self.active.active_leaf_paths@[i]@[j],
        ) by {
            assert(old_self.has_state(old_self.active.active_leaf_paths@[i]@[j]));
        }
    }


    /// Adds to `region` a composite state labelled `label` with one fresh
    /// child region; returns the state and the child region.
    pub fn add_composite(
        &mut self,
        region: RegionId,
        label: &str,
        history: HistoryPolicy,
        enter: EnterPolicy,
    ) -> (r: Result<(StateId, RegionId), StatechartError>)
        requires
            old(self).wf(),
            old(self).has_room(2),
        ensures
            final(self).wf(),
            match r {
                Ok((id, child)) => {
                    &&& old(self).has_region(region)
                    &&& id == old(self).id_counter()
                    &&& child == old(self).id_counter() + 1
                    &&& !old(self).has_state(id)
                    &&& !old(self).has_region(child)
                    &&& final(self).state_seq() == old(self).state_seq().push(
                        (id, final(self).state_seq().last().1),
                    )
                    &&& is_composite_node(
                        final(self).state_seq().last().1,
                        id,
                        label@,
                        region,
                        child,
                        history,
                        enter,
                    )
                    &&& final(self).region_seq().len() == old(self).region_seq().len() + 1
                    &&& changed_only_at(
                        old(self).region_seq(),
                        final(self).region_seq().drop_last(),
                        region,
                    )
                    &&& region_gains_state(old(self).region_of(region), final(self).region_of(region), id)
                    &&& final(self).region_seq().last().0 == child
                    &&& final(self).region_seq().last().1.id == child
                    &&& final(self).region_seq().last().1.parent_state == Some(id)
                    &&& final(self).region_seq().last().1.states@.len() == 0
                    &&& final(self).region_seq().last().1.initial is None
                    &&& final(self).id_counter() == old(self).id_counter() + 2
                    &&& final(self).same_except_structure(old(self))
                },
                Err(e) => {
                    &&& e == StatechartError::MissingRegion(region)
                    &&& !old(self).has_region(region)
                    &&& *final(self) == *old(self)
                },
            },
    {
        self.require_region(region)?;
        proof {
            self.lemma_fresh();
        }
        let ghost old_self = *old(self);
        let state_id = self.allocator.take_id();
        let child_region = self.allocator.take_id();
        let ghost after_ids = *self;
        region_map_insert(
            &mut self.regions,
            child_region,
            Region { id: child_region, parent_state: Some(state_id), states: Vec::new(), initial: None },
        );
        let ghost after_region = *self;
        proof {
            lemma_insert(old_self.region_seq(), child_region, self.region_seq().last().1, child_region);
        }
        let mut regions = Vec::new();
        regions.push(child_region);
        let state = StateNode {
            id: state_id,
            label: label.to_owned(),
            parent_region: region,
            kind: StateKind::Composite { regions, history, enter },
        };
        let ghost node = state;
        state_map_insert(&mut self.states, state_id, state);
        proof {
            lemma_insert(old_self.state_seq(), state_id, node, state_id);
        }
        match region_map_get_mut(&mut self.regions, &region) {
            Some(entry) => entry.states.push(state_id),
            None => {},
        }
        proof {
            self.lemma_add_composite_preserves_wf(&old_self, &after_region, state_id, child_region, region);
        }
        Ok((state_id, child_region))
    }

    proof fn lemma_add_composite_preserves_wf(
        &self,
        old_self: &Self,
        mid: &Self,
        id: StateId,
        child: RegionId,
        region: RegionId,
    )
        requires
            old_self.wf(),
            old_self.has_region(region),
            !old_self.has_state(id),
            !old_self.has_region(child),
            id == old_self.id_counter(),
            child == id + 1,
            self.id_counter() > child,
            mid.region_seq() == old_self.region_seq().push((child, mid.region_seq().last().1)),
            mid.region_seq().last().1.id == child,
            mid.region_seq().last().1.parent_state == Some(id),
            mid.region_seq().last().1.initial is None,
            mid.region_seq().last().1.states@.len() == 0,
            self.state_seq() == old_self.state_seq().push((id, self.state_seq().last().1)),
            self.state_seq().last().1.id == id,
            self.state_seq().last().1.parent_region == region,
            self.region_seq() == mid.region_seq().update(
                key_pos(mid.region_seq(), region),
                (region, self.region_seq()[key_pos(mid.region_seq(), region)].1),
            ),
            self.region_seq()[key_pos(mid.region_seq(), region)].1.id == old_self.region_of(region).id,
            self.region_seq()[key_pos(mid.region_seq(), region)].1.parent_state
                == old_self.region_of(region).parent_state,
            self.region_seq()[key_pos(mid.region_seq(), region)].1.initial
                == old_self.region_of(region).initial,
            self.same_except_structure(old_self),
        ensures
            self.wf(),
            key_pos(mid.region_seq(), region) == key_pos(old_self.region_seq(), region),
            self.region_of(region) == self.region_seq()[key_pos(old_self.region_seq(), region)].1,
            changed_only_at(old_self.region_seq(), self.region_seq().drop_last(), region),
            self.region_seq().last() == mid.region_seq().last(),
            self.region_seq().len() == old_self.region_seq().len() + 1,
    {
        let olds = old_self.state_seq();
        let news = self.state_seq();
        let oldr = old_self.region_seq();
        let midr = mid.region_seq();
        let newr = self.region_seq();
        let pos = key_pos(oldr, region);
        lemma_insert(oldr, child, midr.last().1, region);
        lemma_key_pos(oldr, pos);
        assert(midr[pos] == oldr[pos]);
        lemma_key_pos(midr, pos);
        lemma_insert(olds, id, news.last().1, id);
        assert(news == entries_insert(olds, id, news.last().1));
        assert forall|k: u64| old_self.has_state(k) implies self.has_state(k) by {
            lemma_insert(olds, id, news.last().1, k);
        }
        assert(self.has_state(id));
        assert forall|k: u64| #[trigger] self.has_region(k) <==> (old_self.has_region(k) || k == child) by {
            lemma_insert(oldr, child, midr.last().1, k);
            if mid.has_region(k) {
                let j = key_pos(midr, k);
                if j != pos {
                    assert(newr[j] == midr[j]);
                }
            }
            if self.has_region(k) {
                let j = choose|j: int| 0 <= j < newr.len() && newr[j].0 == k;
                if j != pos {
                    assert(newr[j] == midr[j]);
                }
            }
        }
        assert(keys_distinct(newr)) by {
            assert forall|i: int, j: int| 0 <= i < newr.len() && 0 <= j < newr.len() && i != j implies newr[i].0
                != newr[j].0 by {
                assert(newr[i].0 == midr[i].0);
                assert(newr[j].0 == midr[j].0);
            }
        }
        lemma_key_pos(newr, pos);
        assert forall|k: u64| mid.has_region(k) implies #[trigger] self.region_of(k).parent_state
            == mid.region_of(k).parent_state && self.region_of(k).initial == mid.region_of(k).initial
            && self.region_of(k).id == mid.region_of(k).id by {
            let j = key_pos(midr, k);
            lemma_key_pos(midr, j);
            if j != pos {
                assert(newr[j] == midr[j]);
                lemma_key_pos(newr, j);
            }
        }
        assert forall|k: u64| old_self.has_region(k) implies #[trigger] mid.region_of(k) == old_self.region_of(k) by {
            lemma_insert(oldr, child, midr.last().1, k);
        }
        lemma_insert(oldr, child, midr.last().1, child);
        assert forall|i: int| 0 <= i < newr.len() implies #[trigger] self.region_ok(newr[i].0, newr[i].1) by {
            lemma_key_pos(newr, i);
            lemma_key_pos(midr, i);
            if i < oldr.len() {
                assert(midr[i] == oldr[i]);
                assert(old_self.region_ok(oldr[i].0, oldr[i].1));
                lemma_key_pos(oldr, i);
                if i != pos {
                    assert(newr[i] == midr[i]);
                }
            } else {
                assert(newr[i] == midr[i]);
            }
        }
        assert forall|i: int| 0 <= i < news.len() implies #[trigger] self.state_ok(news[i].0, news[i].1) by {
            if i < olds.len() {
                assert(news[i] == olds[i]);
                assert(old_self.state_ok(olds[i].0, olds[i].1));
                let pr = olds[i].1.parent_region;
                assert(old_self.has_region(pr));
                lemma_insert(oldr, child, midr.last().1, pr);
                assert(mid.has_region(pr));
                assert(self.region_of(pr).parent_state == mid.region_of(pr).parent_state);
                assert(mid.region_of(pr) == old_self.region_of(pr));
            } else {
                old_self.lemma_wf_region(region);
                lemma_insert(oldr, child, midr.last().1, region);
                assert(mid.has_region(region));
                assert(self.region_of(region).parent_state == mid.region_of(region).parent_state);
                assert(mid.region_of(region) == old_self.region_of(region));
            }
        }
        assert forall|i: int, j: int|
            0 <= i < self.active.active_leaf_paths@.len() && 0 <= j
                < self.active.active_leaf_paths@[i]@.len() implies self.has_state(
            #[trigger] self.active.active_leaf_paths@[i]@[j],
        ) by {
            assert(old_self.has_state(old_self.active.active_leaf_paths@[i]@[j]));
        }
        assert(newr.drop_last().len() == oldr.len());
        assert forall|i: int| 0 <= i < oldr.len() && i != pos implies #[trigger] newr.drop_last()[i] == oldr[i] by {
            assert(newr[i] == midr[i]);
        }
    }


    /// Makes `state`, which must lie in `region`, the initial state of `region`.
    pub fn set_initial(&mut self, region: RegionId, state: StateId) -> (r: Result<(), StatechartError>)
        requires
            old(self).wf(),
        ensures
            final(self).wf(),
            match r {
                Ok(()) => {
                    &&& old(self).has_region(region)
                    &&& old(self).has_state(state)
                    &&& old(self).state_of(state).parent_region == region
                    &&& changed_only_at(old(self).region_seq(), final(self).region_seq(), region)
                    &&& final(self).region_of(region).id == old(self).region_of(region).id
                    &&& final(self).region_of(region).parent_state == old(self).region_of(region).parent_state
                    &&& final(self).region_of(region).states@ == old(self).region_of(region).states@
                    &&& final(self).region_of(region).initial == Some(state)
                    &&& final(self).state_seq() == old(self).state_seq()
                    &&& final(self).id_counter() == old(self).id_counter()
                    &&& final(self).same_except_structure(old(self))
                },
                Err(e) => {
                    &&& *final(self) == *old(self)
                    &&& if !old(self).has_region(region) {
                        e == StatechartError::MissingRegion(region)
                    } else {
                        &&& e == (StatechartError::StateOutsideRegion { state, region })
                        &&& !(old(self).has_state(state) && old(self).state_of(state).parent_region == region)
                    }
                },
            },
    {
        self.require_region(region)?;
        match state_map_get(&self.states, &state) {
            Some(node) => {
                if node.parent_region != region {
                    return Err(StatechartError::StateOutsideRegion { state, region });
                }
            },
            None => {
                return Err(StatechartError::StateOutsideRegion { state, region });
            },
        }
        let ghost old_self = *old(self);
        match region_map_get_mut(&mut self.regions, &region) {
            Some(entry) => entry.initial = Some(state),
            None => {},
        }
        proof {
            let oldr = old_self.region_seq();
            let newr = self.region_seq();
            let pos = key_pos(oldr, region);
            lemma_key_pos(oldr, pos);
            assert forall|i: int, j: int| 0 <= i < newr.len() && 0 <= j < newr.len() && i != j implies newr[i].0
                != newr[j].0 by {
                assert(newr[i].0 == oldr[i].0);
                assert(newr[j].0 == oldr[j].0);
            }
            lemma_key_pos(newr, pos);
            assert forall|k: u64| #[trigger] self.has_region(k) <==> old_self.has_region(k) by {
                if old_self.has_region(k) {
                    let j = key_pos(oldr, k);
                    assert(newr[j].0 == k);
                }
                if self.has_region(k) {
                    let j = choose|j: int| 0 <= j < newr.len() && newr[j].0 == k;
                    assert(oldr[j].0 == k);
                }
            }
            assert forall|k: u64| old_self.has_region(k) implies #[trigger] self.region_of(k).parent_state
                == old_self.region_of(k).parent_state && self.region_of(k).id == old_self.region_of(k).id by {
                let j = key_pos(oldr, k);
                lemma_key_pos(oldr, j);
                lemma_key_pos(newr, j);
            }
            assert forall|i: int| 0 <= i < newr.len() implies #[trigger] self.region_ok(newr[i].0, newr[i].1) by {
                assert(old_self.region_ok(oldr[i].0, oldr[i].1));
                lemma_key_pos(oldr, i);
                lemma_key_pos(newr, i);
            }
            assert forall|i: int| 0 <= i < self.state_seq().len() implies #[trigger] self.state_ok(
                self.state_seq()[i].0,
                self.state_seq()[i].1,
            ) by {
                assert(old_self.state_ok(old_self.state_seq()[i].0, old_self.state_seq()[i].1));
            }
        }
        Ok(())
    }

    /// Adds a transition from `source` to `target` with the given priority.
    pub fn add_transition(&mut self, source: StateId, target: StateId, priority: i32) -> (r: Result<
        TransitionId,
        StatechartError,
    >)
        requires
            old(self).wf(),
            old(self).has_room(1),
        ensures
            final(self).wf(),
            match r {
                Ok(id) => {
                    &&& old(self).has_state(source)
                    &&& old(self).has_state(target)
                    &&& id == old(self).id_counter()
                    &&& final(self).transitions@ == old(self).transitions@.push(
                        Transition {
                            id,
                            source,
                            target,
                            priority,
                            creation_order: old(self).transition_counter(),
                        },
                    )
                    &&& final(self).transition_counter() == old(self).transition_counter() + 1
                    &&& final(self).id_counter() == old(self).id_counter() + 1
                    &&& final(self).region_seq() == old(self).region_seq()
                    &&& final(self).state_seq() == old(self).state_seq()
                    &&& final(self).active == old(self).active
                },
                Err(e) => {
                    &&& *final(self) == *old(self)
                    &&& if !old(self).has_state(source) {
                        e == StatechartError::MissingState(source)
                    } else {
                        &&& e == StatechartError::MissingState(target)
                        &&& !old(self).has_state(target)
                    }
                },
            },
    {
        self.require_state(source)?;
        self.require_state(target)?;
        let ghost old_self = *old(self);
        let id = self.allocator.take_id();
        let creation_order = self.allocator.take_transition_order();
        self.transitions.push(Transition { id, source, target, priority, creation_order });
        proof {
            assert forall|i: int| 0 <= i < self.region_seq().len() implies #[trigger] self.region_ok(
                self.region_seq()[i].0,
                self.region_seq()[i].1,
            ) by {
                assert(old_self.region_ok(old_self.region_seq()[i].0, old_self.region_seq()[i].1));
            }
            assert forall|i: int| 0 <= i < self.state_seq().len() implies #[trigger] self.state_ok(
                self.state_seq()[i].0,
                self.state_seq()[i].1,
            ) by {
                assert(old_self.state_ok(old_self.state_seq()[i].0, old_self.state_seq()[i].1));
            }
        }
        Ok(id)
    }


    /// The parent state of state `s`: the state owning `s`'s region.
    pub open spec fn parent_of(&self, s: StateId) -> Option<StateId> {
        self.region_of(self.state_of(s).parent_region).parent_state
    }

    /// The states from the outermost ancestor of `s` down to `s`; empty when
    /// `s` is not a state.
    pub open spec fn path_spec(&self, s: StateId) -> Seq<StateId>
        decreases s,
    {
        if !self.has_state(s) {
            Seq::empty()
        } else {
            match self.parent_of(s) {
                Some(p) => if p < s {
                    self.path_spec(p).push(s)
                } else {
                    seq![s]
                },
                None => seq![s],
            }
        }
    }

    /// The depth of a state: the length of its path from the outermost level.
    pub open spec fn depth_spec(&self, s: StateId) -> int {
        self.path_spec(s).len() as int
    }

    pub proof fn lemma_path_spec(&self, s: StateId)
        requires
            self.wf(),
            self.has_state(s),
        ensures
            self.path_spec(s).len() >= 1,
            self.path_spec(s).last() == s,
            forall|j: int| 0 <= j < self.path_spec(s).len() ==> self.has_state(#[trigger] self.path_spec(s)[j]),
        decreases s,
    {
        self.lemma_wf_state(s);
        let r = self.state_of(s).parent_region;
        self.lemma_wf_region(r);
        if let Some(p) = self.parent_of(s) {
            self.lemma_path_spec(p);
            assert forall|j: int| 0 <= j < self.path_spec(s).len() implies self.has_state(
                #[trigger] self.path_spec(s)[j],
            ) by {
                if j < self.path_spec(p).len() {
                    assert(self.path_spec(s)[j] == self.path_spec(p)[j]);
                }
            }
        }
    }

    fn path_from_root(&self, s: StateId) -> (path: StatePath)
        requires
            self.wf(),
            self.has_state(s),
        ensures
            path@ == self.path_spec(s),
        decreases s,
    {
        proof {
            self.lemma_wf_state(s);
        }
        let node = state_map_get(&self.states, &s).unwrap();
        proof {
            self.lemma_wf_region(node.parent_region);
        }
        let region = region_map_get(&self.regions, &node.parent_region).unwrap();
        match region.parent_state {
            Some(p) => {
                let mut path = self.path_from_root(p);
                path.push(s);
                path
            },
            None => {
                let mut path = Vec::new();
                path.push(s);
                path
            },
        }
    }

    fn path_to(&self, state: StateId) -> (r: Result<StatePath, StatechartError>)
        requires
            self.wf(),
        ensures
            r is Ok <==> self.has_state(state),
            r matches Ok(p) ==> p@ == self.path_spec(state),
            r matches Err(e) ==> e == StatechartError::MissingState(state),
    {
        self.require_state(state)?;
        Ok(self.path_from_root(state))
    }

    fn depth(&self, state: StateId) -> (d: usize)
        requires
            self.wf(),
        ensures
            d == self.depth_spec(state),
    {
        match self.path_to(state) {
            Ok(path) => path.len(),
            Err(_) => 0,
        }
    }

    /// One step of entering `current`: `None` when the original would fail
    /// on a missing state or region; otherwise no further state (a leaf),
    /// the child to enter next, or the error that stops the descent.
    pub open spec fn descent_next(&self, current: StateId) -> Option<Result<Option<StateId>, StatechartError>> {
        if !self.has_state(current) {
            None
        } else {
            match self.state_of(current).kind {
                StateKind::Leaf => Some(Ok(None)),
                StateKind::Composite { regions, history, enter } => {
                    if regions@.len() == 0 {
                        Some(Err(StatechartError::CompositeWithoutRegion(current)))
                    } else {
                        let region = regions@[0];
                        match enter {
                            EnterPolicy::Explicit(x) => Some(Ok(Some(x))),
                            _ => if !self.has_region(region) {
                                None
                            } else {
                                let initial = self.region_of(region).initial;
                                let remembered = if enter == EnterPolicy::LastActiveChild && history
                                    != HistoryPolicy::NoHistory && has_key(self.history_seq(), current) {
                                    value_of(self.history_seq(), current).shallow
                                } else {
                                    None
                                };
                                let next = if remembered is Some {
                                    remembered
                                } else {
                                    initial
                                };
                                match next {
                                    Some(x) => Some(Ok(Some(x))),
                                    None => Some(Err(StatechartError::MissingInitial(region))),
                                }
                            },
                        }
                    }
                },
            }
        }
    }

    /// Entering `s` within `fuel` steps: the states entered from `s` down to
    /// a leaf, or the error met; `None` when the fuel runs out first or the
    /// descent reaches a missing state or region.
    pub open spec fn descend_spec(&self, s: StateId, fuel: nat) -> Option<Result<Seq<StateId>, StatechartError>>
        decreases fuel,
    {
        if fuel == 0 {
            None
        } else {
            match self.descent_next(s) {
                None => None,
                Some(Err(e)) => Some(Err(e)),
                Some(Ok(None)) => Some(Ok(seq![s])),
                Some(Ok(Some(n))) => match self.descend_spec(n, (fuel - 1) as nat) {
                    None => None,
                    Some(Err(e)) => Some(Err(e)),
                    Some(Ok(p)) => Some(Ok(seq![s] + p)),
                },
            }
        }
    }

    /// Entering `s` ends, at a leaf or at an error.
    pub open spec fn descent_completes(&self, s: StateId) -> bool {
        exists|fuel: nat| #[trigger] self.descend_spec(s, fuel) is Some
    }

    /// The outcome of entering `s` (meaningful when the descent completes).
    pub open spec fn descent_result(&self, s: StateId) -> Result<Seq<StateId>, StatechartError> {
        let fuel = choose|fuel: nat| #[trigger] self.descend_spec(s, fuel) is Some;
        match self.descend_spec(s, fuel) {
            Some(r) => r,
            None => Err(StatechartError::NotInitialized),
        }
    }

    pub proof fn lemma_descend_fuel(&self, s: StateId, f: nat, g: nat)
        requires
            self.descend_spec(s, f) is Some,
            f <= g,
        ensures
            self.descend_spec(s, g) == self.descend_spec(s, f),
        decreases f,
    {
        if f > 0 {
            if let Some(Ok(Some(n))) = self.descent_next(s) {
                self.lemma_descend_fuel(n, (f - 1) as nat, (g - 1) as nat);
            }
        }
    }

    pub proof fn lemma_descent_result(&self, s: StateId, f: nat)
        requires
            self.descend_spec(s, f) is Some,
        ensures
            self.descent_completes(s),
            self.descend_spec(s, f) == Some(self.descent_result(s)),
    {
        let c = choose|fuel: nat| #[trigger] self.descend_spec(s, fuel) is Some;
        assert(self.descend_spec(s, c) is Some);
        if c <= f {
            self.lemma_descend_fuel(s, c, f);
        } else {
            self.lemma_descend_fuel(s, f, c);
        }
    }

    /// Entering a composite whose enter policy is `Explicit(x)` goes on at
    /// `x`, whatever its region's initial state or its remembered history:
    /// the next state entered is `x`, and the states entered are the
    /// composite followed by those entered from `x`.
    pub proof fn law_explicit_enter_continues_at(&self, s: StateId, x: StateId, fuel: nat)
        requires
            self.has_state(s),
            self.state_of(s).kind matches StateKind::Composite { regions, enter, .. } && regions@.len() > 0
                && enter == EnterPolicy::Explicit(x),
        ensures
            self.descent_next(s) == Some(Ok::<Option<StateId>, StatechartError>(Some(x))),
            self.descend_spec(x, fuel) matches Some(Ok(p)) ==> self.descend_spec(s, fuel + 1) == Some(
                Ok::<Seq<StateId>, StatechartError>(seq![s] + p),
            ),
            self.descend_spec(s, fuel) matches Some(Ok(p)) ==> p.len() >= 2 && p[0] == s && p[1] == x,
    {
        if fuel > 0 {
            if self.descend_spec(s, fuel) is Some {
                if self.descend_spec(x, (fuel - 1) as nat) matches Some(Ok(_)) {
                    self.lemma_descend_states(x, (fuel - 1) as nat);
                }
            }
        }
    }

    /// Entering a composite with its first region present goes on at the
    /// child it remembers when its policy is to enter the last active child
    /// and it keeps history and has a remembered child; otherwise (other
    /// than an explicit child) at its first region's initial state, and
    /// without one the descent stops with `MissingInitial`.
    pub proof fn law_enter_child_choice(&self, s: StateId)
        requires
            self.has_state(s),
            self.state_of(s).kind matches StateKind::Composite { regions, enter, .. } && regions@.len() > 0
                && !(enter is Explicit) && self.has_region(regions@[0]),
        ensures
            ({
                let (region, history, enter) = match self.state_of(s).kind {
                    StateKind::Composite { regions, history, enter } => (regions@[0], history, enter),
                    StateKind::Leaf => (arbitrary(), arbitrary(), arbitrary()),
                };
                let initial = self.region_of(region).initial;
                let remembered = enter == EnterPolicy::LastActiveChild && history != HistoryPolicy::NoHistory
                    && has_key(self.history_seq(), s) && value_of(self.history_seq(), s).shallow is Some;
                &&& remembered ==> self.descent_next(s) == Some(
                    Ok::<Option<StateId>, StatechartError>(value_of(self.history_seq(), s).shallow),
                )
                &&& !remembered && initial is Some ==> self.descent_next(s) == Some(
                    Ok::<Option<StateId>, StatechartError>(initial),
                )
                &&& !remembered && initial is None ==> self.descent_next(s) == Some(
                    Err::<Option<StateId>, StatechartError>(StatechartError::MissingInitial(region)),
                )
            }),
    {
    }

    pub proof fn lemma_descend_states(&self, s: StateId, f: nat)
        requires
            self.descend_spec(s, f) matches Some(Ok(_)),
        ensures
            self.descend_spec(s, f) matches Some(Ok(p)) && p.len() >= 1 && p[0] == s && (forall|j: int|
                0 <= j < p.len() ==> self.has_state(#[trigger] p[j])),
        decreases f,
    {
        if let Some(Ok(Some(n))) = self.descent_next(s) {
            self.lemma_descend_states(n, (f - 1) as nat);
            let rest = self.descend_spec(n, (f - 1) as nat)->Some_0->Ok_0;
            let p = seq![s] + rest;
            assert forall|j: int| 0 <= j < p.len() implies self.has_state(#[trigger] p[j]) by {
                if j > 0 {
                    assert(p[j] == rest[j - 1]);
                }
            }
        }
    }

    fn descend_rec(&self, s: StateId, Ghost(fuel): Ghost<nat>) -> (r: Result<StatePath, StatechartError>)
        requires
            self.wf(),
            self.descend_spec(s, fuel) is Some,
        ensures
            self.descend_spec(s, fuel) == Some(
                match r {
                    Ok(p) => Ok(p@),
                    Err(e) => Err(e),
                },
            ),
        decreases fuel,
    {
        let node = state_map_get(&self.states, &s).unwrap();
        match &node.kind {
            StateKind::Leaf => {
                let mut path = Vec::new();
                path.push(s);
                Ok(path)
            },
            StateKind::Composite { regions, history, enter } => {
                if regions.len() == 0 {
                    return Err(StatechartError::CompositeWithoutRegion(s));
                }
                let region = regions[0];
                let next = match enter {
                    EnterPolicy::Explicit(x) => Some(*x),
                    EnterPolicy::LastActiveChild if *history != HistoryPolicy::NoHistory => {
                        let remembered = match history_map_get(&self.active.history, &s) {
                            Some(entry) => entry.shallow,
                            None => None,
                        };
                        let initial = region_map_get(&self.regions, &region).unwrap().initial;
                        if remembered.is_some() {
                            remembered
                        } else {
                            initial
                        }
                    },
                    _ => region_map_get(&self.regions, &region).unwrap().initial,
                };
                match next {
                    None => Err(StatechartError::MissingInitial(region)),
                    Some(n) => {
                        let mut rest = self.descend_rec(n, Ghost((fuel - 1) as nat))?;
                        let mut path = Vec::new();
                        path.push(s);
                        path.append(&mut rest);
                        Ok(path)
                    },
                }
            },
        }
    }

    fn descend_from(&self, state: StateId) -> (r: Result<StatePath, StatechartError>)
        requires
            self.wf(),
            self.descent_completes(state),
        ensures
            self.descent_result(state) == match r {
                Ok(p) => Ok(p@),
                Err(e) => Err(e),
            },
    {
        let ghost fuel = choose|fuel: nat| #[trigger] self.descend_spec(state, fuel) is Some;
        proof {
            self.lemma_descent_result(state, fuel);
        }
        self.descend_rec(state, Ghost(fuel))
    }


    /// The recorded histories after leaving the first `k` states of `path`:
    /// each composite state among them records its part of the path.
    pub open spec fn history_after(
        &self,
        h: Seq<(u64, (Option<StateId>, Option<Seq<StateId>>))>,
        path: Seq<StateId>,
        k: nat,
    ) -> Seq<(u64, (Option<StateId>, Option<Seq<StateId>>))>
        decreases k,
    {
        if k == 0 {
            h
        } else {
            let prev = self.history_after(h, path, (k - 1) as nat);
            let s = path[k - 1];
            if self.state_of(s).kind is Composite {
                entries_insert(prev, s, recorded_history(path, k - 1))
            } else {
                prev
            }
        }
    }

    fn record_history(&mut self, path: &StatePath)
        requires
            old(self).wf(),
            forall|j: int| 0 <= j < path@.len() ==> old(self).has_state(#[trigger] path@[j]),
        ensures
            final(self).wf(),
            history_view_seq(final(self).history_seq()) == old(self).history_after(
                history_view_seq(old(self).history_seq()),
                path@,
                path@.len(),
            ),
            final(self).region_seq() == old(self).region_seq(),
            final(self).state_seq() == old(self).state_seq(),
            final(self).transitions@ == old(self).transitions@,
            final(self).active.active_leaf_paths@ == old(self).active.active_leaf_paths@,
            scope_items(final(self).active.active_scopes) == scope_items(old(self).active.active_scopes),
            final(self).id_counter() == old(self).id_counter(),
            final(self).transition_counter() == old(self).transition_counter(),
            final(self).schema_version == old(self).schema_version,
            final(self).id == old(self).id,
            final(self).root_region == old(self).root_region,
    {
        let ghost old_self = *old(self);
        let len = path.len();
        for index in 0..len
            invariant
                len == path@.len(),
                old_self.wf(),
                self.wf(),
                forall|j: int| 0 <= j < path@.len() ==> self.has_state(#[trigger] path@[j]),
                history_view_seq(self.history_seq()) == old_self.history_after(
                    history_view_seq(old_self.history_seq()),
                    path@,
                    index as nat,
                ),
                self.region_seq() == old_self.region_seq(),
                self.state_seq() == old_self.state_seq(),
                self.transitions@ == old_self.transitions@,
                self.active.active_leaf_paths@ == old_self.active.active_leaf_paths@,
                scope_items(self.active.active_scopes) == scope_items(old_self.active.active_scopes),
                self.allocator == old_self.allocator,
                self.schema_version == old_self.schema_version,
                self.id == old_self.id,
                self.root_region == old_self.root_region,
        {
            let state = path[index];
            let node = state_map_get(&self.states, &state).unwrap();
            let composite = match node.kind {
                StateKind::Composite { .. } => true,
                StateKind::Leaf => false,
            };
            if composite {
                let shallow = if index + 1 < len {
                    Some(path[index + 1])
                } else {
                    None
                };
                let mut deep = Vec::new();
                let mut j = index + 1;
                while j < len
                    invariant
                        len == path@.len(),
                        index + 1 <= j <= len,
                        deep@ == path@.subrange(index + 1, j as int),
                    decreases len - j,
                {
                    deep.push(path[j]);
                    j = j + 1;
                }
                let entry = StateHistory { shallow, deep: Some(deep) };
                let ghost before = self.history_seq();
                let ghost entry_value = entry;
                history_map_insert(&mut self.active.history, state, entry);
                proof {
                    lemma_history_view_insert(before, state, entry_value);
                    lemma_insert(before, state, entry_value, state);
                    assert(history_view(entry_value) == recorded_history(path@, index as int));
                    self.lemma_wf_same_structure(&old_self);
                }
            }
            proof {
                assert(self.history_seq() =~= self.history_seq());
            }
        }
    }

    fn set_active_path(&mut self, path: StatePath)
        requires
            old(self).wf(),
            forall|j: int| 0 <= j < path@.len() ==> old(self).has_state(#[trigger] path@[j]),
        ensures
            final(self).wf(),
            final(self).active.active_leaf_paths@.len() == 1,
            final(self).active.active_leaf_paths@[0]@ == path@,
            scope_items(final(self).active.active_scopes) == set_from_seq(path@),
            final(self).history_seq() == old(self).history_seq(),
            final(self).region_seq() == old(self).region_seq(),
            final(self).state_seq() == old(self).state_seq(),
            final(self).transitions@ == old(self).transitions@,
            final(self).id_counter() == old(self).id_counter(),
            final(self).transition_counter() == old(self).transition_counter(),
            final(self).schema_version == old(self).schema_version,
            final(self).id == old(self).id,
            final(self).root_region == old(self).root_region,
    {
        let mut scopes = scope_set_new();
        let len = path.len();
        for i in 0..len
            invariant
                len == path@.len(),
                scope_items(scopes) == set_from_seq(path@.take(i as int)),
        {
            scope_set_insert(&mut scopes, path[i]);
            proof {
                assert(path@.take(i + 1).drop_last() == path@.take(i as int));
            }
        }
        proof {
            assert(path@.take(len as int) == path@);
        }
        let ghost old_self = *old(self);
        self.active.active_scopes = scopes;
        let mut paths = Vec::new();
        paths.push(path);
        self.active.active_leaf_paths = paths;
        proof {
            assert forall|i: int, j: int|
                0 <= i < self.active.active_leaf_paths@.len() && 0 <= j
                    < self.active.active_leaf_paths@[i]@.len() implies self.has_state(
                #[trigger] self.active.active_leaf_paths@[i]@[j],
            ) by {
                assert(self.active.active_leaf_paths@[i]@[j] == path@[j]);
            }
            self.lemma_wf_same_structure(&old_self);
        }
    }

    /// Enters the root region's initial state and its initial descendants,
    /// and returns an `Enter` event for each, outermost first.
    pub fn initialize(&mut self) -> (r: Result<Vec<LifecycleEvent>, StatechartError>)
        requires
            old(self).wf(),
            old(self).region_of(old(self).root_region).initial matches Some(x)
                ==> old(self).descent_completes(x),
        ensures
            final(self).wf(),
            match old(self).region_of(old(self).root_region).initial {
                None => {
                    &&& r == Err::<Vec<LifecycleEvent>, StatechartError>(
                        StatechartError::MissingInitial(old(self).root_region),
                    )
                    &&& *final(self) == *old(self)
                },
                Some(x) => match old(self).descent_result(x) {
                    Err(e) => {
                        &&& r == Err::<Vec<LifecycleEvent>, StatechartError>(e)
                        &&& *final(self) == *old(self)
                    },
                    Ok(path) => {
                        &&& r matches Ok(events) && events@ == enter_events(path)
                        &&& final(self).active.active_leaf_paths@.len() == 1
                        &&& final(self).active.active_leaf_paths@[0]@ == path
                        &&& scope_items(final(self).active.active_scopes) == set_from_seq(path)
                        &&& final(self).history_seq() == old(self).history_seq()
                        &&& final(self).region_seq() == old(self).region_seq()
                        &&& final(self).state_seq() == old(self).state_seq()
                        &&& final(self).transitions@ == old(self).transitions@
                    },
                },
            },
    {
        proof {
            self.lemma_wf_region(self.root_region);
        }
        let initial = match region_map_get(&self.regions, &self.root_region).unwrap().initial {
            Some(state) => state,
            None => return Err(StatechartError::MissingInitial(self.root_region)),
        };
        let path = self.descend_from(initial)?;
        proof {
            let fuel = choose|fuel: nat| #[trigger] self.descend_spec(initial, fuel) is Some;
            self.lemma_descent_result(initial, fuel);
            self.lemma_descend_states(initial, fuel);
        }
        let mut lifecycle = Vec::new();
        let len = path.len();
        for i in 0..len
            invariant
                len == path@.len(),
                lifecycle@ == enter_events(path@.take(i as int)),
        {
            lifecycle.push(LifecycleEvent::Enter(path[i]));
            proof {
                assert(enter_events(path@.take(i + 1)) =~= enter_events(path@.take(i as int)).push(
                    LifecycleEvent::Enter(path@[i as int]),
                ));
            }
        }
        proof {
            assert(path@.take(len as int) == path@);
        }
        self.set_active_path(path);
        Ok(lifecycle)
    }


    /// A chart with the regions, states and counters of a well-formed chart,
    /// distinct history keys and an active path of states is well formed.
    proof fn lemma_wf_same_structure(&self, other: &Self)
        requires
            other.wf(),
            self.region_seq() == other.region_seq(),
            self.state_seq() == other.state_seq(),
            self.id_counter() == other.id_counter(),
            self.root_region == other.root_region,
            keys_distinct(self.history_seq()),
            forall|i: int, j: int|
                0 <= i < self.active.active_leaf_paths@.len() && 0 <= j
                    < self.active.active_leaf_paths@[i]@.len() ==> self.has_state(
                    #[trigger] self.active.active_leaf_paths@[i]@[j],
                ),
        ensures
            self.wf(),
    {
        assert forall|i: int| 0 <= i < self.region_seq().len() implies #[trigger] self.region_ok(
            self.region_seq()[i].0,
            self.region_seq()[i].1,
        ) by {
            assert(other.region_ok(other.region_seq()[i].0, other.region_seq()[i].1));
        }
        assert forall|i: int| 0 <= i < self.state_seq().len() implies #[trigger] self.state_ok(
            self.state_seq()[i].0,
            self.state_seq()[i].1,
        ) by {
            assert(other.state_ok(other.state_seq()[i].0, other.state_seq()[i].1));
        }
    }


    /// Whether `s` is among the active states.
    pub open spec fn is_active(&self, s: StateId) -> bool {
        scope_items(self.active.active_scopes).contains(s)
    }

    /// Transition `i` may fire: it is marked eligible and leaves an active state.
    pub open spec fn is_candidate(&self, eligible: Seq<bool>, i: int) -> bool {
        &&& 0 <= i < self.transitions@.len()
        &&& eligible[i]
        &&& self.is_active(self.transitions@[i].source)
    }

    /// `a` is preferred over `b`: a deeper source, then a higher priority,
    /// then an earlier creation.
    pub open spec fn outranks(&self, a: Transition, b: Transition) -> bool {
        let da = self.depth_spec(a.source);
        let db = self.depth_spec(b.source);
        ||| da > db
        ||| da == db && a.priority > b.priority
        ||| da == db && a.priority == b.priority && a.creation_order < b.creation_order
    }

    /// Transition `i` is the one a step takes: no candidate outranks it, and
    /// it outranks every earlier candidate.
    pub open spec fn is_selected(&self, eligible: Seq<bool>, i: int) -> bool {
        &&& self.is_candidate(eligible, i)
        &&& forall|j: int| #[trigger]
            self.is_candidate(eligible, j) ==> !self.outranks(self.transitions@[j], self.transitions@[i])
        &&& forall|j: int|
            0 <= j < i && #[trigger] self.is_candidate(eligible, j) ==> self.outranks(
                self.transitions@[i],
                self.transitions@[j],
            )
    }

    pub open spec fn has_candidate(&self, eligible: Seq<bool>) -> bool {
        exists|i: int| #[trigger] self.is_candidate(eligible, i)
    }

    /// The active path (meaningful when there is one).
    pub open spec fn active_path(&self) -> Seq<StateId> {
        self.active.active_leaf_paths@[0]@
    }

    /// What taking transition `i` yields: its identifier, the exited states
    /// (innermost first), the entered states (outermost first), the events,
    /// and the new active path; or the error that stops it.
    pub open spec fn step_spec(&self, i: int) -> Result<
        (TransitionId, Seq<StateId>, Seq<StateId>, Seq<LifecycleEvent>, Seq<StateId>),
        StatechartError,
    > {
        let t = self.transitions@[i];
        if !self.has_state(t.target) {
            Err(StatechartError::MissingState(t.target))
        } else {
            match self.descent_result(t.target) {
                Err(e) => Err(e),
                Ok(descent) => {
                    let current = self.active_path();
                    let target_path = self.path_spec(t.target);
                    let entered_path = target_path + descent.drop_first();
                    let common = common_prefix_len_spec(current, target_path);
                    let exited = current.subrange(common, current.len() as int).reverse();
                    let entered = entered_path.subrange(common, entered_path.len() as int);
                    Ok((t.id, exited, entered, exit_events(exited) + enter_events(entered), entered_path))
                },
            }
        }
    }

    /// Takes the best transition among those marked in `eligible` whose
    /// source is active: the deepest source first, then the highest
    /// priority, then the earliest created.
    pub fn step_with_eligibility(&mut self, eligible: &Vec<bool>) -> (r: Result<
        Option<TransitionOutcome>,
        StatechartError,
    >)
        requires
            old(self).wf(),
            eligible@.len() == old(self).transitions@.len(),
            forall|i: int|
                #[trigger] old(self).is_selected(eligible@, i) ==> old(self).descent_completes(
                    old(self).transitions@[i].target,
                ),
        ensures
            final(self).wf(),
            old(self).steps_to(&*final(self), eligible@, r),
    {
        if self.active.active_leaf_paths.len() == 0 {
            return Err(StatechartError::NotInitialized);
        }
        let active_path = self.active.active_leaf_paths[0].clone();
        proof {
            assert(active_path@ =~= self.active_path());
        }
        let count = self.transitions.len();
        let mut best: Option<usize> = None;
        for i in 0..count
            invariant
                count == self.transitions@.len(),
                eligible@.len() == count,
                self.wf(),
                match best {
                    None => forall|j: int| 0 <= j < i ==> !#[trigger] self.is_candidate(eligible@, j),
                    Some(b) => {
                        &&& b < i
                        &&& self.is_candidate(eligible@, b as int)
                        &&& forall|j: int|
                            0 <= j < i && #[trigger] self.is_candidate(eligible@, j) ==> !self.outranks(
                                self.transitions@[j],
                                self.transitions@[b as int],
                            )
                        &&& forall|j: int|
                            0 <= j < b && #[trigger] self.is_candidate(eligible@, j) ==> self.outranks(
                                self.transitions@[b as int],
                                self.transitions@[j],
                            )
                    },
                },
        {
            let transition = self.transitions[i];
            if eligible[i] && scope_set_contains(&self.active.active_scopes, &transition.source) {
                match best {
                    None => {
                        best = Some(i);
                    },
                    Some(b) => {
                        let current = self.transitions[b];
                        let d_new = self.depth(transition.source);
                        let d_cur = self.depth(current.source);
                        let better = d_new > d_cur || (d_new == d_cur && (transition.priority
                            > current.priority || (transition.priority == current.priority
                            && transition.creation_order < current.creation_order)));
                        if better {
                            best = Some(i);
                        }
                    },
                }
            }
        }
        let selected = match best {
            None => {
                proof {
                    assert forall|j: int| !#[trigger] self.is_candidate(eligible@, j) by {}
                }
                return Ok(None);
            },
            Some(b) => b,
        };
        proof {
            assert(self.is_selected(eligible@, selected as int));
        }
        let transition = self.transitions[selected];
        let ghost old_self = *self;
        let target_path = self.path_to(transition.target)?;
        let mut descendants = self.descend_from(transition.target)?;
        proof {
            let fuel = choose|fuel: nat| #[trigger] self.descend_spec(transition.target, fuel) is Some;
            self.lemma_descent_result(transition.target, fuel);
            self.lemma_descend_states(transition.target, fuel);
            self.lemma_path_spec(transition.target);
        }
        let mut entered_path = target_path.clone();
        let dlen = descendants.len();
        for j in 1..dlen
            invariant
                dlen == descendants@.len(),
                dlen >= 1,
                entered_path@ == target_path@ + descendants@.subrange(1, j as int),
        {
            entered_path.push(descendants[j]);
            proof {
                assert(descendants@.subrange(1, j + 1) == descendants@.subrange(1, j as int).push(
                    descendants@[j as int],
                ));
            }
        }
        proof {
            assert(descendants@.subrange(1, dlen as int) == descendants@.drop_first());
            assert(target_path@ =~= self.path_spec(transition.target));
        }
        let common = common_prefix_len(&active_path, &target_path);
        let alen = active_path.len();
        let mut exited = Vec::new();
        let mut k = alen;
        while k > common
            invariant
                common <= k <= alen,
                alen == active_path@.len(),
                exited@ == active_path@.subrange(k as int, alen as int).reverse(),
            decreases k,
        {
            k = k - 1;
            exited.push(active_path[k]);
            proof {
                assert(active_path@.subrange(k as int, alen as int).reverse() =~= active_path@.subrange(
                    (k + 1) as int,
                    alen as int,
                ).reverse().push(active_path@[k as int]));
            }
        }
        self.record_history(&active_path);
        let elen = entered_path.len();
        let mut entered = Vec::new();
        let mut m = common;
        while m < elen
            invariant
                common <= m <= elen,
                elen == entered_path@.len(),
                entered@ == entered_path@.subrange(common as int, m as int),
            decreases elen - m,
        {
            entered.push(entered_path[m]);
            m = m + 1;
            proof {
                assert(entered_path@.subrange(common as int, m as int) == entered_path@.subrange(
                    common as int,
                    m - 1,
                ).push(entered_path@[m - 1]));
            }
        }
        let mut lifecycle = Vec::new();
        let xlen = exited.len();
        for q in 0..xlen
            invariant
                xlen == exited@.len(),
                lifecycle@ == exit_events(exited@.take(q as int)),
        {
            lifecycle.push(LifecycleEvent::Exit(exited[q]));
            proof {
                assert(exit_events(exited@.take(q + 1)) =~= exit_events(exited@.take(q as int)).push(
                    LifecycleEvent::Exit(exited@[q as int]),
                ));
            }
        }
        let nlen = entered.len();
        for q in 0..nlen
            invariant
                nlen == entered@.len(),
                xlen == exited@.len(),
                lifecycle@ == exit_events(exited@) + enter_events(entered@.take(q as int)),
        {
            proof {
                assert(exited@.take(xlen as int) == exited@);
            }
            lifecycle.push(LifecycleEvent::Enter(entered[q]));
            proof {
                assert(enter_events(entered@.take(q + 1)) =~= enter_events(entered@.take(q as int)).push(
                    LifecycleEvent::Enter(entered@[q as int]),
                ));
            }
        }
        proof {
            assert(exited@.take(xlen as int) == exited@);
            assert(entered@.take(nlen as int) == entered@);
            assert forall|j: int| 0 <= j < entered_path@.len() implies self.has_state(#[trigger] entered_path@[j]) by {
                if j < target_path@.len() {
                } else {
                    assert(entered_path@[j] == descendants@[j - target_path@.len() + 1]);
                }
            }
            assert forall|j: int| 0 <= j < active_path@.len() implies old_self.has_state(#[trigger] active_path@[j]) by {
                assert(old_self.has_state(old_self.active.active_leaf_paths@[0]@[j]));
            }
        }
        self.set_active_path(entered_path);
        proof {
            assert forall|i: int| #[trigger] old_self.is_selected(eligible@, i) implies i == selected by {
                old_self.lemma_selected_unique(eligible@, i, selected as int);
            }
        }
        Ok(Some(TransitionOutcome { transition: transition.id, exited, entered, lifecycle }))
    }


    /// `after` and `r` are what a step with eligibility marks `eligible`
    /// leaves and returns, starting from `self`.
    pub open spec fn steps_to(
        &self,
        after: &Self,
        eligible: Seq<bool>,
        r: Result<Option<TransitionOutcome>, StatechartError>,
    ) -> bool {
        &&& (self.active.active_leaf_paths@.len() == 0 ==> {
            &&& r == Err::<Option<TransitionOutcome>, StatechartError>(StatechartError::NotInitialized)
            &&& *after == *self
        })
        &&& (self.active.active_leaf_paths@.len() > 0 && !self.has_candidate(eligible) ==> {
            &&& r == Ok::<Option<TransitionOutcome>, StatechartError>(None)
            &&& *after == *self
        })
        &&& (self.active.active_leaf_paths@.len() > 0 ==> forall|i: int| #[trigger]
                self.is_selected(eligible, i) ==> match self.step_spec(i) {
                    Err(e) => {
                        &&& r == Err::<Option<TransitionOutcome>, StatechartError>(e)
                        &&& *after == *self
                    },
                    Ok((id, exited, entered, lifecycle, path)) => {
                        &&& r matches Ok(Some(o)) && outcome_view(o) == (id, exited, entered, lifecycle)
                        &&& after.active.active_leaf_paths@.len() == 1
                        &&& after.active.active_leaf_paths@[0]@ == path
                        &&& scope_items(after.active.active_scopes) == set_from_seq(path)
                        &&& history_view_seq(after.history_seq()) == self.history_after(
                            history_view_seq(self.history_seq()),
                            self.active_path(),
                            self.active_path().len(),
                        )
                        &&& after.region_seq() == self.region_seq()
                        &&& after.state_seq() == self.state_seq()
                        &&& after.transitions@ == self.transitions@
                    },
                })
    }

    /// Takes the best transition, among those whose source is active, for
    /// which `eligible` holds: the deepest source first, then the highest
    /// priority, then the earliest created. `eligible` is asked about each
    /// transition with an active source, in order.
    pub fn step<F: Fn(&Transition) -> bool>(&mut self, eligible: F) -> (r: Result<
        Option<TransitionOutcome>,
        StatechartError,
    >)
        requires
            old(self).wf(),
            forall|t: Transition| #[trigger] eligible.requires((&t,)),
            forall|i: int|
                0 <= i < old(self).transitions@.len() && #[trigger] old(self).is_active(
                    old(self).transitions@[i].source,
                ) ==> old(self).descent_completes(old(self).transitions@[i].target),
        ensures
            final(self).wf(),
            exists|marks: Seq<bool>|
                {
                    &&& marks.len() == old(self).transitions@.len()
                    &&& forall|i: int|
                        0 <= i < marks.len() ==> (#[trigger] marks[i] ==> old(self).is_active(
                            old(self).transitions@[i].source,
                        ) && eligible.ensures((&old(self).transitions@[i],), true))
                    &&& forall|i: int|
                        0 <= i < marks.len() && !#[trigger] marks[i] && old(self).is_active(
                            old(self).transitions@[i].source,
                        ) ==> eligible.ensures((&old(self).transitions@[i],), false)
                    &&& old(self).steps_to(&*final(self), marks, r)
                },
    {
        let count = self.transitions.len();
        let mut marks: Vec<bool> = Vec::new();
        for i in 0..count
            invariant
                count == self.transitions@.len(),
                marks@.len() == i,
                forall|t: Transition| #[trigger] eligible.requires((&t,)),
                forall|j: int|
                    0 <= j < i ==> (#[trigger] marks@[j] ==> self.is_active(self.transitions@[j].source)
                        && eligible.ensures((&self.transitions@[j],), true)),
                forall|j: int|
                    0 <= j < i && !#[trigger] marks@[j] && self.is_active(self.transitions@[j].source)
                        ==> eligible.ensures((&self.transitions@[j],), false),
        {
            let transition = self.transitions[i];
            let mark = if scope_set_contains(&self.active.active_scopes, &transition.source) {
                eligible(&transition)
            } else {
                false
            };
            marks.push(mark);
        }
        proof {
            assert forall|i: int| #[trigger] self.is_selected(marks@, i) implies self.descent_completes(
                self.transitions@[i].target,
            ) by {}
        }
        self.step_with_eligibility(&marks)
    }


    /// A step keeps the states that the old and new active paths share at
    /// their top, exits the rest of the old path innermost first, and enters
    /// the rest of the new path outermost first; its events are the exits
    /// followed by the entries.
    pub proof fn law_step_replaces_path_suffix(&self, i: int)
        requires
            self.wf(),
            self.active.active_leaf_paths@.len() > 0,
            0 <= i < self.transitions@.len(),
            self.step_spec(i) is Ok,
        ensures
            self.step_spec(i) matches Ok((id, exited, entered, lifecycle, path)) && exists|k: int|
                {
                    &&& 0 <= k <= self.active_path().len()
                    &&& self.active_path() == self.active_path().take(k) + exited.reverse()
                    &&& path == self.active_path().take(k) + entered
                    &&& lifecycle == exit_events(exited) + enter_events(entered)
                    &&& id == self.transitions@[i].id
                },
    {
        let t = self.transitions@[i];
        let current = self.active_path();
        let target_path = self.path_spec(t.target);
        let descent = self.descent_result(t.target)->Ok_0;
        let entered_path = target_path + descent.drop_first();
        let c = common_prefix_len_spec(current, target_path);
        lemma_common_prefix_exists(current, target_path, 0);
        let exited = current.subrange(c, current.len() as int).reverse();
        let entered = entered_path.subrange(c, entered_path.len() as int);
        assert(exited.reverse() =~= current.subrange(c, current.len() as int));
        assert(current =~= current.take(c) + exited.reverse());
        assert(entered_path =~= current.take(c) + entered) by {
            assert forall|j: int| 0 <= j < c implies entered_path[j] == current[j] by {
                assert(entered_path[j] == target_path[j]);
            }
        }
    }

    /// The transition a step selects has a source at least as deep as that
    /// of any other candidate.
    pub proof fn law_deepest_source_wins(&self, eligible: Seq<bool>, i: int, j: int)
        requires
            self.is_selected(eligible, i),
            self.is_candidate(eligible, j),
        ensures
            self.depth_spec(self.transitions@[i].source) >= self.depth_spec(self.transitions@[j].source),
    {
        assert(!self.outranks(self.transitions@[j], self.transitions@[i]));
    }

    /// Among candidates with sources equally deep, the selected transition
    /// has the highest priority.
    pub proof fn law_priority_breaks_depth_ties(&self, eligible: Seq<bool>, i: int, j: int)
        requires
            self.is_selected(eligible, i),
            self.is_candidate(eligible, j),
            self.depth_spec(self.transitions@[i].source) == self.depth_spec(self.transitions@[j].source),
        ensures
            self.transitions@[i].priority >= self.transitions@[j].priority,
    {
        assert(!self.outranks(self.transitions@[j], self.transitions@[i]));
    }

    /// After a step that takes a transition, a state is active exactly when
    /// it lies on the new active path.
    pub proof fn law_active_scopes_follow_path(
        &self,
        after: &Self,
        eligible: Seq<bool>,
        r: Result<Option<TransitionOutcome>, StatechartError>,
        x: StateId,
    )
        requires
            self.steps_to(after, eligible, r),
            self.active.active_leaf_paths@.len() > 0,
            r matches Ok(Some(_)),
        ensures
            after.active.active_leaf_paths@.len() == 1,
            after.is_active(x) <==> after.active.active_leaf_paths@[0]@.contains(x),
    {
        let i = choose|i: int| self.is_candidate(eligible, i);
        assert(self.is_candidate(eligible, i));
        let sel = self.lemma_selected_exists(eligible);
        assert(self.is_selected(eligible, sel));
        lemma_set_from_seq(after.active.active_leaf_paths@[0]@, x);
    }

    /// Whenever some transition is a candidate, exactly one is selected.
    pub proof fn lemma_selected_exists(&self, eligible: Seq<bool>) -> (i: int)
        requires
            self.has_candidate(eligible),
        ensures
            self.is_selected(eligible, i),
    {
        let n = self.transitions@.len() as int;
        let c = choose|i: int| self.is_candidate(eligible, i);
        self.lemma_best_prefix(eligible, n)
    }

    /// The best candidate among the first `n` transitions, when there is one.
    proof fn lemma_best_prefix(&self, eligible: Seq<bool>, n: int) -> (b: int)
        requires
            0 <= n <= self.transitions@.len(),
            exists|j: int| 0 <= j < n && #[trigger] self.is_candidate(eligible, j),
            self.has_candidate(eligible),
        ensures
            0 <= b < n,
            self.is_candidate(eligible, b),
            forall|j: int| 0 <= j < n && #[trigger] self.is_candidate(eligible, j) ==> !self.outranks(
                self.transitions@[j],
                self.transitions@[b],
            ),
            forall|j: int| 0 <= j < b && #[trigger] self.is_candidate(eligible, j) ==> self.outranks(
                self.transitions@[b],
                self.transitions@[j],
            ),
            n == self.transitions@.len() ==> self.is_selected(eligible, b),
        decreases n,
    {
        if exists|j: int| 0 <= j < n - 1 && #[trigger] self.is_candidate(eligible, j) {
            let b0 = self.lemma_best_prefix(eligible, n - 1);
            if self.is_candidate(eligible, n - 1) && self.outranks(
                self.transitions@[n - 1],
                self.transitions@[b0],
            ) {
                assert forall|j: int| 0 <= j < n && #[trigger] self.is_candidate(eligible, j) implies !self.outranks(
                    self.transitions@[j],
                    self.transitions@[n - 1],
                ) by {
                    if j < n - 1 {
                        assert(!self.outranks(self.transitions@[j], self.transitions@[b0]));
                    }
                }
                assert forall|j: int| 0 <= j < n - 1 && #[trigger] self.is_candidate(eligible, j) implies self.outranks(
                    self.transitions@[n - 1],
                    self.transitions@[j],
                ) by {
                    assert(!self.outranks(self.transitions@[j], self.transitions@[b0]));
                }
                if n == self.transitions@.len() {
                    assert forall|j: int| #[trigger] self.is_candidate(eligible, j) implies !self.outranks(
                        self.transitions@[j],
                        self.transitions@[n - 1],
                    ) by {
                        assert(0 <= j < n);
                    }
                }
                n - 1
            } else {
                if n == self.transitions@.len() {
                    assert forall|j: int| #[trigger] self.is_candidate(eligible, j) implies !self.outranks(
                        self.transitions@[j],
                        self.transitions@[b0],
                    ) by {
                        assert(0 <= j < n);
                    }
                }
                b0
            }
        } else {
            assert(self.is_candidate(eligible, n - 1));
            if n == self.transitions@.len() {
                assert forall|j: int| #[trigger] self.is_candidate(eligible, j) implies !self.outranks(
                    self.transitions@[j],
                    self.transitions@[n - 1],
                ) by {
                    assert(0 <= j < n);
                    if j < n - 1 {
                        assert(!self.is_candidate(eligible, j));
                    }
                }
            }
            n - 1
        }
    }

    /// At most one transition is selected.
    pub proof fn lemma_selected_unique(&self, eligible: Seq<bool>, i: int, j: int)
        requires
            self.is_selected(eligible, i),
            self.is_selected(eligible, j),
        ensures
            i == j,
    {
        if i < j {
            assert(self.is_candidate(eligible, i));
            assert(self.outranks(self.transitions@[j], self.transitions@[i]));
        } else if j < i {
            assert(self.is_candidate(eligible, j));
            assert(self.outranks(self.transitions@[i], self.transitions@[j]));
        }
    }

    fn require_region(&self, region: RegionId) -> (r: Result<(), StatechartError>)
        ensures
            r is Ok <==> self.has_region(region),
            r matches Err(e) ==> e == StatechartError::MissingRegion(region),
    {
        if region_map_contains(&self.regions, &region) {
            Ok(())
        } else {
            Err(StatechartError::MissingRegion(region))
        }
    }

    fn require_state(&self, state: StateId) -> (r: Result<(), StatechartError>)
        ensures
            r is Ok <==> self.has_state(state),
            r matches Err(e) ==> e == StatechartError::MissingState(state),
    {
        if state_map_contains(&self.states, &state) {
            Ok(())
        } else {
            Err(StatechartError::MissingState(state))
        }
    }
}

} // verus!
