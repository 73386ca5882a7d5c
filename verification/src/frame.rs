//! The property values a compiled formula runs with: the declared defaults,
//! with an instance's overrides.
use indexmap::IndexMap;
use vstd::prelude::*;

use crate::compile::{CompiledFormulaProperty, CompiledFormulaPropertySchema};
use crate::compiled::CompiledAlchemistGraph;
use crate::ids::{FormulaPropertyId, FormulaPropertySlotId, ValueSlotId};
use crate::indexmap_specs::{
    compiled_property_map_get_index, compiled_property_map_len, property_value_entries, property_value_map_get_index,
    property_value_map_len,
};
use crate::ordered::{has_key, key_pos, keys_distinct, value_of};
use crate::text::concat3;
use crate::value::{same_value, value_type_of, RuntimeValue, ValueTypeId};

verus! {

/// Whether two lists of values hold the same values, position by position.
pub open spec fn values_same(a: Seq<RuntimeValue>, b: Seq<RuntimeValue>) -> bool {
    &&& a.len() == b.len()
    &&& forall|i: int| 0 <= i < a.len() ==> same_value(#[trigger] a[i], b[i])
}

/// The values of a frame after the first `n` properties: `n` unit values,
/// then each property's default written to its slot, in order.
pub open spec fn default_values(props: Seq<(Seq<char>, CompiledFormulaProperty)>, n: nat) -> Seq<RuntimeValue>
    decreases n,
{
    if n == 0 || n > props.len() {
        Seq::new(props.len(), |i: int| RuntimeValue::Unit)
    } else {
        default_values(props, (n - 1) as nat).update(props[n - 1].1.slot.0 as int, props[n - 1].1.default_value)
    }
}

/// Whether every property's slot is a position of the frame.
pub open spec fn slots_in_range(props: Seq<(Seq<char>, CompiledFormulaProperty)>) -> bool {
    forall|i: int| 0 <= i < props.len() ==> (#[trigger] props[i]).1.slot.0 < props.len()
}

/// Why overrides do not fit a property schema.
#[derive(Debug, PartialEq, Eq)]
pub enum RuntimePropertyFrameError {
    UnknownProperty(FormulaPropertyId),
    InvalidOverrideType { property: FormulaPropertyId, expected: ValueTypeId, actual: ValueTypeId },
}

impl RuntimePropertyFrameError {
    /// A readable message for the error.
    pub fn message(&self) -> (r: String)
        ensures
            match self {
                RuntimePropertyFrameError::UnknownProperty(id) => r@ == "processor override references unknown property `"@
                    + id@ + "`"@,
                RuntimePropertyFrameError::InvalidOverrideType { property, expected, actual } => r@
                    == "processor override for property `"@ + property@ + "` has type `"@ + actual@ + "`, expected `"@
                    + expected@ + "`"@,
            },
    {
        match self {
            RuntimePropertyFrameError::UnknownProperty(id) => concat3(
                "processor override references unknown property `",
                id.as_str(),
                "`",
            ),
            RuntimePropertyFrameError::InvalidOverrideType { property, expected, actual } => {
                let a = concat3("processor override for property `", property.as_str(), "` has type `");
                let b = concat3(a.as_str(), actual.as_str(), "`, expected `");
                let r = concat3(b.as_str(), expected.as_str(), "`");
                proof {
                    assert(r@ =~= "processor override for property `"@ + property@ + "` has type `"@ + actual@
                        + "`, expected `"@ + expected@ + "`"@);
                }
                r
            },
        }
    }
}

/// The first of the first `k` overrides that does not fit `props`: its
/// property is not declared, or its value is not of the property's type.
/// As (property, expected type, actual type); no expected type for an
/// undeclared property.
pub open spec fn override_error(
    props: Seq<(Seq<char>, CompiledFormulaProperty)>,
    overrides: Seq<(Seq<char>, RuntimeValue)>,
    k: nat,
) -> Option<(Seq<char>, Option<Seq<char>>, Seq<char>)>
    decreases k,
{
    if k == 0 || k > overrides.len() {
        None
    } else {
        match override_error(props, overrides, (k - 1) as nat) {
            Some(e) => Some(e),
            None => {
                let (id, v) = overrides[k - 1];
                if !has_key(props, id) {
                    Some((id, None, value_type_of(v)))
                } else if value_type_of(v) != value_of(props, id).value_type@ {
                    Some((id, Some(value_of(props, id).value_type@), value_type_of(v)))
                } else {
                    None
                }
            },
        }
    }
}

/// The values after the defaults of `props` and the first `k` overrides,
/// each written to the slot of its property.
pub open spec fn overridden_values(
    props: Seq<(Seq<char>, CompiledFormulaProperty)>,
    overrides: Seq<(Seq<char>, RuntimeValue)>,
    k: nat,
) -> Seq<RuntimeValue>
    decreases k,
{
    if k == 0 || k > overrides.len() {
        default_values(props, props.len())
    } else {
        overridden_values(props, overrides, (k - 1) as nat).update(
            value_of(props, overrides[k - 1].0).slot.0 as int,
            overrides[k - 1].1,
        )
    }
}

proof fn lemma_override_error_stays(
    props: Seq<(Seq<char>, CompiledFormulaProperty)>,
    overrides: Seq<(Seq<char>, RuntimeValue)>,
    k: nat,
    n: nat,
)
    requires
        k <= n <= overrides.len(),
        override_error(props, overrides, k) is Some,
    ensures
        override_error(props, overrides, n) == override_error(props, overrides, k),
    decreases n - k,
{
    if k < n {
        lemma_override_error_stays(props, overrides, k + 1, n);
    }
}

proof fn lemma_default_len(props: Seq<(Seq<char>, CompiledFormulaProperty)>, n: nat)
    requires
        slots_in_range(props),
    ensures
        default_values(props, n).len() == props.len(),
    decreases n,
{
    if n > 0 && n <= props.len() {
        lemma_default_len(props, (n - 1) as nat);
        assert(props[n - 1].1.slot.0 < props.len());
    }
}

proof fn lemma_overridden_len(
    props: Seq<(Seq<char>, CompiledFormulaProperty)>,
    overrides: Seq<(Seq<char>, RuntimeValue)>,
    k: nat,
)
    requires
        slots_in_range(props),
        override_error(props, overrides, k) is None,
    ensures
        overridden_values(props, overrides, k).len() == props.len(),
    decreases k,
{
    if k > 0 && k <= overrides.len() {
        lemma_overridden_len(props, overrides, (k - 1) as nat);
        let q = crate::ordered::key_pos(props, overrides[k - 1].0);
        assert(props[q].1.slot.0 < props.len());
    } else {
        lemma_default_len(props, props.len());
    }
}

/// No two properties share a slot, as compiling numbers them.
pub open spec fn property_slots_distinct(props: Seq<(Seq<char>, CompiledFormulaProperty)>) -> bool {
    forall|i: int, j: int| 0 <= i < j < props.len() ==> (#[trigger] props[i]).1.slot != (#[trigger] props[j]).1.slot
}

/// The overrides of a prefix of a list that fits fit too.
proof fn lemma_override_prefix_fits(
    props: Seq<(Seq<char>, CompiledFormulaProperty)>,
    overrides: Seq<(Seq<char>, RuntimeValue)>,
    k: nat,
    n: nat,
)
    requires
        k <= n <= overrides.len(),
        override_error(props, overrides, n) is None,
    ensures
        override_error(props, overrides, k) is None,
{
    if override_error(props, overrides, k) is Some {
        lemma_override_error_stays(props, overrides, k, n);
    }
}

/// After the first `n` fitting overrides with distinct properties, each of
/// them is in the slot of its property, and every slot that none of them
/// writes holds its default.
proof fn lemma_overrides_prefix(
    props: Seq<(Seq<char>, CompiledFormulaProperty)>,
    ovs: Seq<(Seq<char>, RuntimeValue)>,
    n: nat,
)
    requires
        n <= ovs.len(),
        slots_in_range(props),
        keys_distinct(props),
        property_slots_distinct(props),
        keys_distinct(ovs),
        override_error(props, ovs, n) is None,
    ensures
        overridden_values(props, ovs, n).len() == props.len(),
        forall|k: int|
            0 <= k < n ==> overridden_values(props, ovs, n)[value_of(props, (#[trigger] ovs[k]).0).slot.0 as int]
                == ovs[k].1,
        forall|i: int|
            0 <= i < props.len() && (forall|k: int| 0 <= k < n ==> value_of(props, (#[trigger] ovs[k]).0).slot.0 != i)
                ==> overridden_values(props, ovs, n)[i] == default_values(props, props.len())[i],
    decreases n,
{
    lemma_overridden_len(props, ovs, n);
    if n > 0 {
        let m = (n - 1) as nat;
        lemma_override_prefix_fits(props, ovs, m, n);
        lemma_overrides_prefix(props, ovs, m);
        lemma_overridden_len(props, ovs, m);
        let before = overridden_values(props, ovs, m);
        let id = ovs[m as int].0;
        assert(override_error(props, ovs, n) is None);
        assert(has_key(props, id));
        let p = key_pos(props, id);
        assert(props[p].1.slot.0 < props.len());
        let slot = value_of(props, id).slot.0 as int;
        assert(overridden_values(props, ovs, n) == before.update(slot, ovs[m as int].1));
        assert forall|k: int| 0 <= k < n implies overridden_values(props, ovs, n)[value_of(
            props,
            (#[trigger] ovs[k]).0,
        ).slot.0 as int] == ovs[k].1 by {
            if k < m {
                let idk = ovs[k].0;
                assert(idk != id);
                lemma_override_prefix_fits(props, ovs, (k + 1) as nat, m);
                assert(has_key(props, idk));
                let q = key_pos(props, idk);
                assert(props[q].0 == idk && props[p].0 == id);
                assert(q != p);
                if q < p {
                    assert(props[q].1.slot != props[p].1.slot);
                } else {
                    assert(props[p].1.slot != props[q].1.slot);
                }
                assert(props[q].1.slot.0 < props.len());
            }
        }
        assert forall|i: int|
            0 <= i < props.len() && (forall|k: int| 0 <= k < n ==> value_of(props, (#[trigger] ovs[k]).0).slot.0 != i)
                implies overridden_values(props, ovs, n)[i] == default_values(props, props.len())[i] by {
            assert(value_of(props, ovs[m as int].0).slot.0 != i);
            assert forall|k: int| 0 <= k < m implies value_of(props, (#[trigger] ovs[k]).0).slot.0 != i by {
                assert(value_of(props, ovs[k].0).slot.0 != i);
            }
        }
    }
}

/// Once every override fits, each override's value is in the slot of its
/// property, and every slot that no override writes holds its default,
/// for schemas whose properties have their own slots.
pub proof fn law_overrides_land_in_their_slots(
    props: Seq<(Seq<char>, CompiledFormulaProperty)>,
    ovs: Seq<(Seq<char>, RuntimeValue)>,
)
    requires
        slots_in_range(props),
        keys_distinct(props),
        property_slots_distinct(props),
        keys_distinct(ovs),
        override_error(props, ovs, ovs.len()) is None,
    ensures
        overridden_values(props, ovs, ovs.len()).len() == props.len(),
        forall|k: int|
            0 <= k < ovs.len() ==> overridden_values(props, ovs, ovs.len())[value_of(
                props,
                (#[trigger] ovs[k]).0,
            ).slot.0 as int] == ovs[k].1,
        forall|i: int|
            0 <= i < props.len() && (forall|k: int|
                0 <= k < ovs.len() ==> value_of(props, (#[trigger] ovs[k]).0).slot.0 != i) ==> overridden_values(
                props,
                ovs,
                ovs.len(),
            )[i] == default_values(props, props.len())[i],
{
    lemma_overrides_prefix(props, ovs, ovs.len());
}

/// Writing the same value into lists of the same values keeps them the same.
proof fn lemma_set_same(a: Seq<RuntimeValue>, b: Seq<RuntimeValue>, i: int, x: RuntimeValue, y: RuntimeValue)
    requires
        values_same(a, b),
        0 <= i < a.len(),
        same_value(x, y),
    ensures
        values_same(a.update(i, x), b.update(i, y)),
{
    assert forall|j: int| 0 <= j < a.len() implies same_value(#[trigger] a.update(i, x)[j], b.update(i, y)[j]) by {
        if j != i {
            assert(same_value(a[j], b[j]));
        }
    }
}

/// The values of a compiled formula's properties, by slot.
#[derive(Debug)]
pub struct RuntimePropertyFrame {
    values: Vec<RuntimeValue>,
}

impl RuntimePropertyFrame {
    /// The values, by slot.
    pub closed spec fn values(&self) -> Seq<RuntimeValue> {
        self.values@
    }

    /// Whether every property of `schema` has a slot within the schema, as
    /// compiling gives them.
    pub fn slots_fit(schema: &CompiledFormulaPropertySchema) -> (r: bool)
        ensures
            r == slots_in_range(schema.entries()),
    {
        let ghost props = schema.entries();
        let n = compiled_property_map_len(&schema.properties);
        let mut i: usize = 0;
        while i < n
            invariant
                i <= n,
                n == props.len(),
                props == schema.entries(),
                forall|q: int| 0 <= q < i ==> (#[trigger] props[q]).1.slot.0 < props.len(),
            decreases n - i,
        {
            let (_, property) = compiled_property_map_get_index(&schema.properties, i).unwrap();
            if property.slot.index() >= n {
                return false;
            }
            i = i + 1;
        }
        true
    }

    /// The defaults of `schema`, each at the slot of its property; a slot
    /// that no property takes holds the unit value.
    pub fn from_defaults(schema: &CompiledFormulaPropertySchema) -> (r: Self)
        requires
            slots_in_range(schema.entries()),
        ensures
            values_same(r.values(), default_values(schema.entries(), schema.entries().len())),
    {
        let ghost props = schema.entries();
        let n = compiled_property_map_len(&schema.properties);
        let mut values: Vec<RuntimeValue> = Vec::new();
        let mut i: usize = 0;
        while i < n
            invariant
                i <= n,
                n == props.len(),
                values@.len() == i,
                forall|j: int| 0 <= j < i ==> values@[j] == RuntimeValue::Unit,
            decreases n - i,
        {
            values.push(RuntimeValue::Unit);
            i = i + 1;
        }
        proof {
            assert(values_same(values@, default_values(props, 0)));
        }
        let mut k: usize = 0;
        while k < n
            invariant
                k <= n,
                n == props.len(),
                props == schema.entries(),
                slots_in_range(props),
                values_same(values@, default_values(props, k as nat)),
            decreases n - k,
        {
            let (_, property) = compiled_property_map_get_index(&schema.properties, k).unwrap();
            let slot = property.slot.index();
            assert(props[k as int].1.slot.0 < n);
            proof {
                lemma_default_len(props, k as nat);
            }
            let ghost before = values@;
            let copy = property.default_value.clone();
            values.set(slot, copy);
            proof {
                lemma_set_same(before, default_values(props, k as nat), slot as int, copy, props[k as int].1.default_value);
                assert(default_values(props, (k + 1) as nat) == default_values(props, k as nat).update(
                    slot as int,
                    props[k as int].1.default_value,
                ));
            }
            k = k + 1;
        }
        RuntimePropertyFrame { values }
    }

    /// The defaults of `schema` with `overrides` written over them, in
    /// order, each to the slot of its property.
    ///
    /// Fails at the first override whose property `schema` does not declare,
    /// or whose value is not of the property's type.
    pub fn with_overrides(
        schema: &CompiledFormulaPropertySchema,
        overrides: &IndexMap<FormulaPropertyId, RuntimeValue>,
    ) -> (r: Result<Self, RuntimePropertyFrameError>)
        requires
            slots_in_range(schema.entries()),
        ensures
            ({
                let props = schema.entries();
                let ovs = property_value_entries(*overrides);
                match override_error(props, ovs, ovs.len()) {
                    Some((id, None, actual)) => r matches Err(RuntimePropertyFrameError::UnknownProperty(p)) && p@
                        == id,
                    Some((id, Some(expected), actual)) => r matches Err(
                        RuntimePropertyFrameError::InvalidOverrideType { property, expected: e, actual: a },
                    ) && property@ == id && e@ == expected && a@ == actual,
                    None => r matches Ok(frame) && values_same(frame.values(), overridden_values(props, ovs, ovs.len())),
                }
            }),
    {
        let ghost props = schema.entries();
        let ghost ovs = property_value_entries(*overrides);
        let mut frame = RuntimePropertyFrame::from_defaults(schema);
        let n = property_value_map_len(overrides);
        let mut k: usize = 0;
        while k < n
            invariant
                k <= n,
                n == ovs.len(),
                props == schema.entries(),
                ovs == property_value_entries(*overrides),
                slots_in_range(props),
                override_error(props, ovs, k as nat) is None,
                values_same(frame.values@, overridden_values(props, ovs, k as nat)),
            decreases n - k,
        {
            let (id, value) = property_value_map_get_index(overrides, k).unwrap();
            let property = match schema.get(id) {
                None => {
                    proof {
                        assert(override_error(props, ovs, (k + 1) as nat) == Some(
                            (id@, None::<Seq<char>>, value_type_of(*value)),
                        ));
                        lemma_override_error_stays(props, ovs, (k + 1) as nat, n as nat);
                    }
                    return Err(RuntimePropertyFrameError::UnknownProperty(id.clone()));
                },
                Some(p) => p,
            };
            let actual = value.value_type();
            if !crate::text::str_eq(actual.as_str(), property.value_type.as_str()) {
                proof {
                    assert(override_error(props, ovs, (k + 1) as nat) == Some(
                        (id@, Some(property.value_type@), value_type_of(*value)),
                    ));
                    lemma_override_error_stays(props, ovs, (k + 1) as nat, n as nat);
                }
                return Err(
                    RuntimePropertyFrameError::InvalidOverrideType {
                        property: id.clone(),
                        expected: property.value_type.clone(),
                        actual,
                    },
                );
            }
            let slot = property.slot.index();
            proof {
                let q = crate::ordered::key_pos(props, id@);
                assert(props[q].1.slot.0 < props.len());
                lemma_overridden_len(props, ovs, k as nat);
            }
            let ghost before = frame.values@;
            let copy = value.clone();
            frame.values.set(slot, copy);
            proof {
                lemma_set_same(before, overridden_values(props, ovs, k as nat), slot as int, copy, *value);
                assert(overridden_values(props, ovs, (k + 1) as nat) == overridden_values(props, ovs, k as nat).update(
                    slot as int,
                    *value,
                ));
            }
            k = k + 1;
        }
        Ok(frame)
    }

    /// The value in `slot`, if the frame has that slot.
    pub fn get(&self, slot: FormulaPropertySlotId) -> (r: Option<&RuntimeValue>)
        ensures
            r is Some <==> slot.0 < self.values().len(),
            r matches Some(v) ==> *v == self.values()[slot.0 as int],
    {
        let i = slot.index();
        if i < self.values.len() {
            Some(&self.values[i])
        } else {
            None
        }
    }

    /// The number of slots.
    pub fn slot_count(&self) -> (r: usize)
        ensures
            r == self.values().len(),
    {
        self.values.len()
    }
}

/// `n` unit values.
fn units(n: usize) -> (r: Vec<RuntimeValue>)
    ensures
        r@ == Seq::new(n as nat, |i: int| RuntimeValue::Unit),
{
    let mut r: Vec<RuntimeValue> = Vec::new();
    let mut i: usize = 0;
    while i < n
        invariant
            i <= n,
            r@ == Seq::new(i as nat, |j: int| RuntimeValue::Unit),
        decreases n - i,
    {
        r.push(RuntimeValue::Unit);
        proof {
            assert(r@ =~= Seq::new((i + 1) as nat, |j: int| RuntimeValue::Unit));
        }
        i = i + 1;
    }
    r
}

/// The value and state memory of a compiled graph.
#[derive(Debug)]
pub struct AlchemistMemory {
    values: Vec<RuntimeValue>,
    states: Vec<RuntimeValue>,
}

impl AlchemistMemory {
    /// The values, by value slot.
    pub closed spec fn values(&self) -> Seq<RuntimeValue> {
        self.values@
    }

    /// The states, by state slot.
    pub closed spec fn states(&self) -> Seq<RuntimeValue> {
        self.states@
    }

    /// Memory for `compiled`: a unit value in each value slot and in each
    /// state slot of its layout.
    pub fn for_graph(compiled: &CompiledAlchemistGraph) -> (r: Self)
        ensures
            r.values() == Seq::new(compiled.state_layout.value_slot_count as nat, |i: int| RuntimeValue::Unit),
            r.states() == Seq::new(compiled.state_layout.state_slot_count as nat, |i: int| RuntimeValue::Unit),
    {
        AlchemistMemory {
            values: units(compiled.state_layout.value_slot_count),
            states: units(compiled.state_layout.state_slot_count),
        }
    }

    /// The value in `slot`, if the memory has that slot.
    pub fn value(&self, slot: ValueSlotId) -> (r: Option<&RuntimeValue>)
        ensures
            r is Some <==> slot.0 < self.values().len(),
            r matches Some(v) ==> *v == self.values()[slot.0 as int],
    {
        let i = slot.index();
        if i < self.values.len() {
            Some(&self.values[i])
        } else {
            None
        }
    }

    /// The number of value slots.
    pub fn value_len(&self) -> (r: usize)
        ensures
            r == self.values().len(),
    {
        self.values.len()
    }

    /// The number of state slots.
    pub fn state_len(&self) -> (r: usize)
        ensures
            r == self.states().len(),
    {
        self.states.len()
    }

    /// Whether the memory has no state slot.
    pub fn is_stateless(&self) -> (r: bool)
        ensures
            r == (self.states().len() == 0),
    {
        self.states.len() == 0
    }

    /// Writes `value` into value slot `slot`.
    pub fn set_value(&mut self, slot: ValueSlotId, value: RuntimeValue)
        requires
            slot.0 < old(self).values().len(),
        ensures
            final(self).values() == old(self).values().update(slot.0 as int, value),
            final(self).states() == old(self).states(),
    {
        let i = slot.index();
        self.values.set(i, value);
    }

    /// A copy of the states in slots `start` up to `end` (excluded).
    pub fn state_slice(&self, start: usize, end: usize) -> (r: Vec<RuntimeValue>)
        requires
            start <= end <= self.states().len(),
        ensures
            values_same(r@, self.states().subrange(start as int, end as int)),
    {
        let mut r: Vec<RuntimeValue> = Vec::new();
        let mut i: usize = start;
        while i < end
            invariant
                start <= i <= end <= self.states@.len(),
                values_same(r@, self.states@.subrange(start as int, i as int)),
            decreases end - i,
        {
            r.push(self.states[i].clone());
            i = i + 1;
        }
        r
    }

    /// Writes `values` into the state slots from `start` on.
    pub fn set_states(&mut self, start: usize, values: Vec<RuntimeValue>)
        requires
            start + values@.len() <= old(self).states().len(),
        ensures
            final(self).states() == old(self).states().subrange(0, start as int) + values@ + old(
                self,
            ).states().subrange(start + values@.len(), old(self).states().len() as int),
            final(self).values() == old(self).values(),
    {
        let ghost before = self.states@;
        let total = self.states.len();
        let ghost all = values@;
        let mut values = values;
        while values.len() > 0
            invariant
                values@.len() <= all.len(),
                before.len() == total,
                values@ == all.take(values@.len() as int),
                start + all.len() <= before.len(),
                self.states@.len() == before.len(),
                forall|j: int| 0 <= j < start ==> self.states@[j] == before[j],
                forall|j: int| values@.len() <= j < all.len() ==> self.states@[start + j] == all[j],
                forall|j: int| start + all.len() <= j < before.len() ==> self.states@[j] == before[j],
                self.values@ == old(self).values@,
            decreases values@.len(),
        {
            let n = values.len() - 1;
            let v = values.pop().unwrap();
            proof {
                assert(v == all[n as int]);
                assert(values@ =~= all.take(n as int));
            }
            self.states.set(start + n, v);
        }
        proof {
            let want = before.subrange(0, start as int) + all + before.subrange(
                start + all.len(),
                before.len() as int,
            );
            assert(self.states@ =~= want);
        }
    }
}

} // verus!
