use vstd::prelude::*;

verus! {

/// The abstract state of one allocation.
///
/// ```text
///            Unknown
///           /       \
///      Borrowed   Forgotten
///           \       /
///            Tainted
///              |
///           Untainted
/// ```
#[derive(Clone, Copy, Debug, PartialEq, Eq, Hash, Structural)]
pub enum MemoryState {
    Untainted,
    Tainted,
    Borrowed,
    Forgotten,
    Unknown,
}

/// The partial order of the diagram: `a ≤ b`.
pub open spec fn state_le(a: MemoryState, b: MemoryState) -> bool {
    a == b || a == MemoryState::Untainted || b == MemoryState::Unknown || (a
        == MemoryState::Tainted && b != MemoryState::Untainted)
}

/// The least upper bound of two states.
pub open spec fn state_join(a: MemoryState, b: MemoryState) -> MemoryState {
    if state_le(a, b) {
        b
    } else if state_le(b, a) {
        a
    } else {
        MemoryState::Unknown
    }
}

/// What `partial_cmp` answers for two states.
pub open spec fn state_cmp(a: MemoryState, b: MemoryState) -> Option<core::cmp::Ordering> {
    if a == b {
        Some(core::cmp::Ordering::Equal)
    } else if state_le(a, b) {
        Some(core::cmp::Ordering::Less)
    } else if state_le(b, a) {
        Some(core::cmp::Ordering::Greater)
    } else {
        None
    }
}

impl MemoryState {
    /// `self ≤ other` in the lattice.
    pub fn is_le(&self, other: &MemoryState) -> (r: bool)
        ensures
            r == state_le(*self, *other),
    {
        *self == *other || *self == MemoryState::Untainted || *other == MemoryState::Unknown || (
        *self == MemoryState::Tainted && *other != MemoryState::Untainted)
    }

    /// `self < other` in the lattice.
    pub fn is_lt(&self, other: &MemoryState) -> (r: bool)
        ensures
            r == (state_le(*self, *other) && *self != *other),
    {
        *self != *other && self.is_le(other)
    }

    /// The least upper bound of `self` and `other`.
    pub fn union(&self, other: MemoryState) -> (r: MemoryState)
        ensures
            r == state_join(*self, other),
    {
        if self.is_le(&other) {
            other
        } else if other.is_le(self) {
            *self
        } else {
            MemoryState::Unknown
        }
    }
}

impl PartialOrd for MemoryState {
    fn partial_cmp(&self, other: &MemoryState) -> (r: Option<core::cmp::Ordering>)
        ensures
            r == state_cmp(*self, *other),
    {
        if *self == *other {
            Some(core::cmp::Ordering::Equal)
        } else if self.is_le(other) {
            Some(core::cmp::Ordering::Less)
        } else if other.is_le(self) {
            Some(core::cmp::Ordering::Greater)
        } else {
            None
        }
    }
}

impl vstd::std_specs::cmp::PartialOrdSpecImpl for MemoryState {
    open spec fn obeys_partial_cmp_spec() -> bool {
        true
    }

    open spec fn partial_cmp_spec(&self, other: &MemoryState) -> Option<core::cmp::Ordering> {
        state_cmp(*self, *other)
    }
}

/// `state_le` is a partial order.
pub proof fn lemma_state_le_partial_order(a: MemoryState, b: MemoryState, c: MemoryState)
    ensures
        state_le(a, a),
        state_le(a, b) && state_le(b, a) ==> a == b,
        state_le(a, b) && state_le(b, c) ==> state_le(a, c),
{
}

/// The join is an upper bound of both operands.
pub proof fn lemma_union_upper_bound(a: MemoryState, b: MemoryState)
    ensures
        state_le(a, state_join(a, b)),
        state_le(b, state_join(a, b)),
{
}

/// The join is the least upper bound.
pub proof fn lemma_union_least(a: MemoryState, b: MemoryState, c: MemoryState)
    requires
        state_le(a, c),
        state_le(b, c),
    ensures
        state_le(state_join(a, b), c),
{
}

/// Joining a state with itself gives it back.
pub proof fn lemma_union_idempotent(a: MemoryState)
    ensures
        state_join(a, a) == a,
{
}

/// The join does not depend on the order of its operands.
pub proof fn lemma_union_commutative(a: MemoryState, b: MemoryState)
    ensures
        state_join(a, b) == state_join(b, a),
{
}

/// `Borrowed ∪ Forgotten = Unknown`; `Untainted` is the identity of the join and
/// `Unknown` absorbs every state.
pub proof fn lemma_union_identities(x: MemoryState)
    ensures
        state_join(MemoryState::Borrowed, MemoryState::Forgotten) == MemoryState::Unknown,
        state_join(MemoryState::Untainted, x) == x,
        state_join(MemoryState::Unknown, x) == MemoryState::Unknown,
{
}

} // verus!
