//! Capability registry.
//!
//! The schema is shaped by independent protocol-binding modules.  Each module
//! owns a capability kind (a tag) and contributes one data value to every
//! structural position of the schema.  A position stores those contributions
//! in a [`Registry`]: a chain of slots, at most one per capability kind, so
//! that looking a kind up is never ambiguous.  Trying to add a second
//! contribution of a kind that is already present is rejected at construction
//! time, never resolved silently.

use vstd::prelude::*;

verus! {

/// Construction-time failure of a registry operation.
#[derive(Debug, Clone, Copy, PartialEq, Eq, Structural)]
pub enum RegistryError {
    /// A contribution of this capability kind is already present; a second
    /// one would make lookups ambiguous.
    DuplicateCapability,
}

/// One contribution: the owning module's capability kind and its value.
pub struct Slot<V> {
    /// The capability kind this contribution belongs to.
    pub kind: u64,
    /// The contributed value.
    pub value: V,
}

/// The contributions attached to one structural position of the schema.
pub struct Registry<V> {
    /// The chain of contributions, in the order they were added.
    pub slots: Vec<Slot<V>>,
}

/// The value stored for `kind` in `slots`, if any.
pub open spec fn lookup_slots<V>(slots: Seq<Slot<V>>, kind: u64) -> Option<V>
    decreases slots.len(),
{
    if slots.len() == 0 {
        None
    } else if slots[0].kind == kind {
        Some(slots[0].value)
    } else {
        lookup_slots(slots.drop_first(), kind)
    }
}

/// A found lookup names some existing slot; a missed one means no slot has
/// that kind.
pub proof fn lemma_lookup_slots<V>(slots: Seq<Slot<V>>, kind: u64)
    ensures
        match lookup_slots(slots, kind) {
            Some(v) => exists|i: int|
                0 <= i < slots.len() && slots[i].kind == kind && slots[i].value == v,
            None => forall|i: int| 0 <= i < slots.len() ==> slots[i].kind != kind,
        },
    decreases slots.len(),
{
    if slots.len() > 0 && slots[0].kind != kind {
        lemma_lookup_slots(slots.drop_first(), kind);
        match lookup_slots(slots.drop_first(), kind) {
            Some(v) => {
                let i = choose|i: int|
                    0 <= i < slots.drop_first().len() && slots.drop_first()[i].kind == kind
                        && slots.drop_first()[i].value == v;
                assert(slots[i + 1] == slots.drop_first()[i]);
            },
            None => {
                assert forall|i: int| 0 <= i < slots.len() implies slots[i].kind != kind by {
                    if i > 0 {
                        assert(slots.drop_first()[i - 1] == slots[i]);
                    }
                }
            },
        }
    }
}

impl<V> Registry<V> {
    /// The capability kinds present, in order of contribution.
    pub open spec fn kinds(self) -> Seq<u64> {
        self.slots@.map_values(|s: Slot<V>| s.kind)
    }

    /// No capability kind appears twice: every lookup is unambiguous.
    pub open spec fn wf(self) -> bool {
        forall|i: int, j: int|
            0 <= i < j < self.slots@.len() ==> self.slots@[i].kind != self.slots@[j].kind
    }

    /// Whether a contribution of `kind` is present.
    pub open spec fn spec_contains(self, kind: u64) -> bool {
        exists|i: int| 0 <= i < self.slots@.len() && self.slots@[i].kind == kind
    }

    /// The value contributed for `kind`, if any.
    pub open spec fn spec_lookup(self, kind: u64) -> Option<V> {
        lookup_slots(self.slots@, kind)
    }

    /// A registry holding no contribution at all.
    pub fn empty() -> (r: Registry<V>)
        ensures
            r.wf(),
            r.slots@.len() == 0,
            forall|k: u64| r.spec_lookup(k) is None,
    {
        let r = Registry { slots: Vec::new() };
        proof {
            assert forall|k: u64| r.spec_lookup(k) is None by {
                lemma_lookup_slots(r.slots@, k);
            }
        }
        r
    }

    /// Whether a contribution of `kind` is present.
    pub fn contains(&self, kind: u64) -> (r: bool)
        ensures
            r == self.spec_contains(kind),
    {
        let n = self.slots.len();
        let mut i: usize = 0;
        while i < n
            invariant
                i <= n == self.slots@.len(),
                forall|j: int| 0 <= j < i ==> self.slots@[j].kind != kind,
            decreases n - i,
        {
            if self.slots[i].kind == kind {
                return true;
            }
            i = i + 1;
        }
        false
    }

    /// Add the contribution of a new capability kind.
    ///
    /// Fails, leaving nothing changed, when a contribution of `kind` is
    /// already present: two contributors of one capability would be
    /// ambiguous.
    pub fn extend(self, kind: u64, value: V) -> (r: Result<Registry<V>, RegistryError>)
        ensures
            self.spec_contains(kind) <==> r matches Err(RegistryError::DuplicateCapability),
            !self.spec_contains(kind) ==> (r matches Ok(n) && {
                &&& n.slots@ == self.slots@.push(Slot { kind, value })
                &&& n.kinds() == self.kinds().push(kind)
                &&& (self.wf() ==> n.wf())
                &&& n.spec_lookup(kind) == Some(value)
                &&& forall|k: u64| k != kind ==> n.spec_lookup(k) == self.spec_lookup(k)
            }),
    {
        if self.contains(kind) {
            return Err(RegistryError::DuplicateCapability);
        }
        let ghost old_slots = self.slots@;
        let mut slots = self.slots;
        slots.push(Slot { kind, value });
        let n = Registry { slots };
        proof {
            assert(n.kinds() =~= old_slots.map_values(|s: Slot<V>| s.kind).push(kind));
            assert forall|i: int| 0 <= i < old_slots.len() implies old_slots[i].kind != kind by {}
            lemma_lookup_push(old_slots, kind, value);
        }
        Ok(n)
    }

    /// The contribution of `kind`, if one is present.
    pub fn lookup(&self, kind: u64) -> (r: Option<&V>)
        ensures
            match r {
                Some(v) => self.spec_lookup(kind) == Some(*v),
                None => self.spec_lookup(kind) is None,
            },
    {
        let n = self.slots.len();
        let mut i: usize = 0;
        while i < n
            invariant
                i <= n == self.slots@.len(),
                forall|j: int| 0 <= j < i ==> self.slots@[j].kind != kind,
            decreases n - i,
        {
            if self.slots[i].kind == kind {
                proof {
                    lemma_lookup_at(self.slots@, kind, i as int);
                }
                return Some(&self.slots[i].value);
            }
            i = i + 1;
        }
        proof {
            lemma_lookup_slots(self.slots@, kind);
        }
        None
    }

    /// Replace the contribution of `kind`, which must be unambiguous.
    ///
    /// Returns whether a contribution of `kind` was present; without one,
    /// nothing changes.
    #[verifier::loop_isolation(false)]
    pub fn set_value(&mut self, kind: u64, value: V) -> (found: bool)
        requires
            old(self).wf(),
        ensures
            final(self).wf(),
            found == old(self).spec_contains(kind),
            final(self).kinds() == old(self).kinds(),
            found ==> final(self).spec_lookup(kind) == Some(value),
            forall|k: u64| k != kind ==> final(self).spec_lookup(k) == old(self).spec_lookup(k),
            !found ==> *final(self) == *old(self),
    {
        let n = self.slots.len();
        let mut i: usize = 0;
        while i < n
            invariant
                i <= n == self.slots@.len(),
                *self == *old(self),
                forall|j: int| 0 <= j < i ==> self.slots@[j].kind != kind,
            decreases n - i,
        {
            if self.slots[i].kind == kind {
                let ghost before = self.slots@;
                let slot = &mut self.slots[i];
                slot.value = value;
                proof {
                    assert(self.slots@ == before.update(
                        i as int,
                        Slot { kind: before[i as int].kind, value },
                    ));
                    assert forall|j: int| 0 <= j < self.slots@.len() implies self.slots@[j].kind
                        == before[j].kind by {}
                    assert forall|j: int| 0 <= j < self.slots@.len() implies self.kinds()[j]
                        == old(self).kinds()[j] by {
                        assert(self.kinds()[j] == self.slots@[j].kind);
                        assert(old(self).kinds()[j] == before[j].kind);
                    }
                    assert(self.kinds() =~= old(self).kinds());
                    assert forall|x: int, y: int|
                        0 <= x < y < self.slots@.len() implies self.slots@[x].kind
                        != self.slots@[y].kind by {
                        assert(self.slots@[x].kind == before[x].kind);
                        assert(self.slots@[y].kind == before[y].kind);
                    }
                    lemma_lookup_update(before, i as int, kind, value);
                }
                return true;
            }
            i = i + 1;
        }
        proof {
            lemma_lookup_slots(self.slots@, kind);
        }
        false
    }
}

/// A kind is present exactly when looking it up finds a value.
pub proof fn lemma_contains_lookup<V>(r: Registry<V>, k: u64)
    ensures
        r.spec_contains(k) <==> r.spec_lookup(k) is Some,
{
    lemma_lookup_slots(r.slots@, k);
}

/// Pushing a new slot keeps every other lookup and resolves the new kind.
proof fn lemma_lookup_push<V>(slots: Seq<Slot<V>>, kind: u64, value: V)
    requires
        forall|i: int| 0 <= i < slots.len() ==> slots[i].kind != kind,
    ensures
        lookup_slots(slots.push(Slot { kind, value }), kind) == Some(value),
        forall|k: u64|
            #![trigger lookup_slots(slots.push(Slot { kind, value }), k)]
            k != kind ==> lookup_slots(slots.push(Slot { kind, value }), k) == lookup_slots(
                slots,
                k,
            ),
    decreases slots.len(),
{
    let pushed = slots.push(Slot { kind, value });
    if slots.len() == 0 {
        assert(pushed.len() == 1);
        assert(pushed[0] == Slot { kind, value });
        assert(pushed.drop_first() =~= Seq::<Slot<V>>::empty());
        assert forall|k: u64| k != kind implies lookup_slots(pushed, k) == lookup_slots(
            slots,
            k,
        ) by {
            assert(lookup_slots(pushed, k) == lookup_slots(pushed.drop_first(), k));
        }
    } else {
        let rest = slots.drop_first();
        assert(pushed[0] == slots[0]);
        assert(slots[0].kind != kind);
        assert(pushed.drop_first() =~= rest.push(Slot { kind, value }));
        assert forall|i: int| 0 <= i < rest.len() implies rest[i].kind != kind by {
            assert(rest[i] == slots[i + 1]);
        }
        lemma_lookup_push(rest, kind, value);
        assert(lookup_slots(pushed, kind) == lookup_slots(rest.push(Slot { kind, value }), kind));
        assert forall|k: u64| k != kind implies lookup_slots(pushed, k) == lookup_slots(
            slots,
            k,
        ) by {
            if slots[0].kind != k {
                assert(lookup_slots(pushed, k) == lookup_slots(rest.push(Slot { kind, value }), k));
                assert(lookup_slots(slots, k) == lookup_slots(rest, k));
            }
        }
    }
}

/// A slot found at `i`, with no earlier slot of that kind, is the lookup.
proof fn lemma_lookup_at<V>(slots: Seq<Slot<V>>, kind: u64, i: int)
    requires
        0 <= i < slots.len(),
        slots[i].kind == kind,
        forall|j: int| 0 <= j < i ==> slots[j].kind != kind,
    ensures
        lookup_slots(slots, kind) == Some(slots[i].value),
    decreases i,
{
    if i > 0 {
        assert(slots[0].kind != kind);
        let rest = slots.drop_first();
        assert(rest[i - 1] == slots[i]);
        assert forall|j: int| 0 <= j < i - 1 implies rest[j].kind != kind by {
            assert(rest[j] == slots[j + 1]);
        }
        lemma_lookup_at(rest, kind, i - 1);
    }
}

/// Updating the value of the unique slot of `kind` changes only that lookup.
proof fn lemma_lookup_update<V>(slots: Seq<Slot<V>>, i: int, kind: u64, value: V)
    requires
        0 <= i < slots.len(),
        slots[i].kind == kind,
        forall|j: int| 0 <= j < i ==> slots[j].kind != kind,
    ensures
        lookup_slots(slots.update(i, Slot { kind, value }), kind) == Some(value),
        forall|k: u64|
            #![trigger lookup_slots(slots.update(i, Slot { kind, value }), k)]
            k != kind ==> lookup_slots(slots.update(i, Slot { kind, value }), k) == lookup_slots(
                slots,
                k,
            ),
    decreases i,
{
    let updated = slots.update(i, Slot { kind, value });
    if i == 0 {
        assert(updated[0] == Slot { kind, value });
        assert(updated.drop_first() =~= slots.drop_first());
        assert forall|k: u64| k != kind implies lookup_slots(updated, k) == lookup_slots(
            slots,
            k,
        ) by {
            assert(lookup_slots(updated, k) == lookup_slots(updated.drop_first(), k));
            assert(lookup_slots(slots, k) == lookup_slots(slots.drop_first(), k));
        }
    } else {
        assert(updated[0] == slots[0]);
        assert(slots[0].kind != kind);
        let rest = slots.drop_first();
        assert(updated.drop_first() =~= rest.update(i - 1, Slot { kind, value }));
        assert(rest[i - 1] == slots[i]);
        assert forall|j: int| 0 <= j < i - 1 implies rest[j].kind != kind by {
            assert(rest[j] == slots[j + 1]);
        }
        lemma_lookup_update(rest, i - 1, kind, value);
        assert(lookup_slots(updated, kind) == lookup_slots(
            rest.update(i - 1, Slot { kind, value }),
            kind,
        ));
        assert forall|k: u64| k != kind implies lookup_slots(updated, k) == lookup_slots(
            slots,
            k,
        ) by {
            if slots[0].kind != k {
                assert(lookup_slots(updated, k) == lookup_slots(
                    rest.update(i - 1, Slot { kind, value }),
                    k,
                ));
                assert(lookup_slots(slots, k) == lookup_slots(rest, k));
            }
        }
    }
}

} // verus!
