use vstd::prelude::*;
use crate::block_state::{BlockState, Shape, shape_le};
use crate::name::{Name, NameModel};

verus! {

/// The state after each analysed basic block, keyed by the block's name. A
/// block with no entry is bottom.
#[derive(Debug)]
pub struct AbstractDomain {
    map: Vec<(Name, BlockState)>,
}

impl View for AbstractDomain {
    type V = Map<NameModel, Shape>;

    closed spec fn view(&self) -> Map<NameModel, Shape> {
        Map::new(
            |b: NameModel| exists|i: int| 0 <= i < self.map@.len() && #[trigger] self.map@[i].0@ == b,
            |b: NameModel| self.map@[choose|i: int| 0 <= i < self.map@.len() && #[trigger] self.map@[i].0@ == b].1@,
        )
    }
}

impl Default for AbstractDomain {
    fn default() -> (r: AbstractDomain)
        ensures
            r.wf(),
            r@ == Map::<NameModel, Shape>::empty(),
    {
        AbstractDomain::new()
    }
}

/// Every block of `a` has an entry in `b` at least as high.
pub open spec fn domain_le(a: Map<NameModel, Shape>, b: Map<NameModel, Shape>) -> bool {
    forall|k: NameModel| #[trigger] a.contains_key(k) ==> b.contains_key(k) && shape_le(a[k], b[k])
}

impl AbstractDomain {
    /// Each block has one entry, and every state is well formed.
    pub closed spec fn wf(&self) -> bool {
        &&& forall|i: int, j: int| 0 <= i < self.map@.len() && 0 <= j < self.map@.len() && #[trigger] self.map@[i].0@ == #[trigger] self.map@[j].0@ ==> i == j
        &&& forall|i: int| 0 <= i < self.map@.len() ==> (#[trigger] self.map@[i]).1.wf()
    }

    /// The domain with no block analysed.
    pub fn new() -> (r: AbstractDomain)
        ensures
            r.wf(),
            r@ == Map::<NameModel, Shape>::empty(),
    {
        let r = AbstractDomain { map: Vec::new() };
        assert(r@ =~= Map::<NameModel, Shape>::empty());
        r
    }

    fn find(&self, name: &Name) -> (r: Option<usize>)
        requires
            self.wf(),
        ensures
            match r {
                Some(i) => i < self.map@.len() && self.map@[i as int].0@ == name@ && self@.contains_key(name@)
                    && self@[name@] == self.map@[i as int].1@,
                None => !self@.contains_key(name@),
            },
    {
        let mut i: usize = 0;
        while i < self.map.len()
            invariant
                self.wf(),
                i <= self.map@.len(),
                forall|k: int| 0 <= k < i ==> #[trigger] self.map@[k].0@ != name@,
            decreases self.map@.len() - i,
        {
            if self.map[i].0 == *name {
                assert(self@.contains_key(name@));
                let ghost k = choose|k: int| 0 <= k < self.map@.len() && #[trigger] self.map@[k].0@ == name@;
                assert(self.map@[k].0@ == self.map@[i as int].0@);
                return Some(i);
            }
            i = i + 1;
        }
        None
    }

    /// The state after block `name`, if it was analysed.
    pub fn get(&self, name: &Name) -> (r: Option<BlockState>)
        requires
            self.wf(),
        ensures
            r.is_some() == self@.contains_key(name@),
            r.is_some() ==> r.unwrap().wf() && r.unwrap()@ == self@[name@],
    {
        match self.find(name) {
            Some(i) => Some(self.map[i].1.clone()),
            None => None,
        }
    }

    /// Records the state after block `name`.
    pub fn insert(&mut self, name: Name, state: BlockState)
        requires
            old(self).wf(),
            state.wf(),
        ensures
            final(self).wf(),
            final(self)@ == old(self)@.insert(name@, state@),
    {
        let ghost nm = name@;
        let ghost sv = state@;
        let ghost m0 = self@;
        let ghost before = self.map@;
        match self.find(&name) {
            Some(i) => {
                self.map.remove(i);
                self.map.insert(i, (name, state));
                proof {
                    let after = self.map@;
                    assert(after =~= before.update(i as int, after[i as int]));
                    assert forall|a: int, b: int| 0 <= a < after.len() && 0 <= b < after.len() && #[trigger] after[a].0@ == #[trigger] after[b].0@ implies a == b by {
                        assert(before[a].0@ == before[b].0@);
                    }
                    assert forall|b: NameModel| #[trigger] self@.contains_key(b) <==> m0.insert(nm, sv).contains_key(b) by {
                        if self@.contains_key(b) {
                            let k = choose|k: int| 0 <= k < after.len() && #[trigger] after[k].0@ == b;
                            assert(before[k].0@ == b);
                        }
                        if m0.contains_key(b) {
                            let k = choose|k: int| 0 <= k < before.len() && #[trigger] before[k].0@ == b;
                            assert(after[k].0@ == b);
                        }
                    }
                    assert forall|b: NameModel| #[trigger] self@.contains_key(b) implies self@[b] == m0.insert(nm, sv)[b] by {
                        let k = choose|k: int| 0 <= k < after.len() && #[trigger] after[k].0@ == b;
                        assert(after[k].0@ == after[k].0@);
                        if b != nm {
                            let k0 = choose|k0: int| 0 <= k0 < before.len() && #[trigger] before[k0].0@ == b;
                            assert(before[k].0@ == before[k0].0@);
                        } else {
                            assert(after[i as int].0@ == after[k].0@);
                        }
                    }
                    assert(self@ =~= m0.insert(nm, sv));
                }
            },
            None => {
                self.map.push((name, state));
                proof {
                    let after = self.map@;
                    let last = before.len() as int;
                    assert forall|a: int, b: int| 0 <= a < after.len() && 0 <= b < after.len() && #[trigger] after[a].0@ == #[trigger] after[b].0@ implies a == b by {
                        if a < last && b < last {
                            assert(before[a].0@ == before[b].0@);
                        } else if a < last {
                            assert(m0.contains_key(before[a].0@));
                        } else if b < last {
                            assert(m0.contains_key(before[b].0@));
                        }
                    }
                    assert forall|b: NameModel| #[trigger] self@.contains_key(b) <==> m0.insert(nm, sv).contains_key(b) by {
                        if self@.contains_key(b) {
                            let k = choose|k: int| 0 <= k < after.len() && #[trigger] after[k].0@ == b;
                            if k < last {
                                assert(before[k].0@ == b);
                            }
                        }
                        if m0.contains_key(b) {
                            let k = choose|k: int| 0 <= k < before.len() && #[trigger] before[k].0@ == b;
                            assert(after[k].0@ == b);
                        }
                        if b == nm {
                            assert(after[last].0@ == b);
                        }
                    }
                    assert forall|b: NameModel| #[trigger] self@.contains_key(b) implies self@[b] == m0.insert(nm, sv)[b] by {
                        let k = choose|k: int| 0 <= k < after.len() && #[trigger] after[k].0@ == b;
                        if b != nm {
                            let k0 = choose|k0: int| 0 <= k0 < before.len() && #[trigger] before[k0].0@ == b;
                            assert(after[k0].0@ == b);
                            assert(after[k].0@ == after[k0].0@);
                        } else {
                            assert(after[last].0@ == after[k].0@);
                        }
                    }
                    assert(self@ =~= m0.insert(nm, sv));
                }
            },
        }
    }

    /// Whether every block of `self` has an entry in `other` at least as high.
    pub fn is_le(&self, other: &AbstractDomain) -> (r: bool)
        requires
            self.wf(),
            other.wf(),
        ensures
            r == domain_le(self@, other@),
    {
        let mut i: usize = 0;
        while i < self.map.len()
            invariant
                self.wf(),
                other.wf(),
                i <= self.map@.len(),
                forall|k: int| 0 <= k < i ==> other@.contains_key(#[trigger] self.map@[k].0@) && shape_le(self.map@[k].1@, other@[self.map@[k].0@]),
            decreases self.map@.len() - i,
        {
            match other.find(&self.map[i].0) {
                None => {
                    assert(self@.contains_key(self.map@[i as int].0@));
                    return false;
                },
                Some(j) => {
                    if !self.map[i].1.is_le(&other.map[j].1) {
                        assert(self@.contains_key(self.map@[i as int].0@));
                        return false;
                    }
                },
            }
            i = i + 1;
        }
        assert forall|k: NameModel| #[trigger] self@.contains_key(k) implies other@.contains_key(k) && shape_le(self@[k], other@[k]) by {
            let i = choose|i: int| 0 <= i < self.map@.len() && #[trigger] self.map@[i].0@ == k;
        }
        true
    }
}

} // verus!
