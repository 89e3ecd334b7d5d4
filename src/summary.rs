use vstd::prelude::*;
use crate::block_state::{BlockState, Shape};
use crate::lattice::MemoryState;

verus! {

/// A function symbol and the states of its arguments (`None` for a constant).
pub type SummaryKey = (String, Vec<Option<MemoryState>>);

/// The state after a call and the state of the returned value.
pub type Summary = (BlockState, MemoryState);

/// The value of a summary key.
pub open spec fn key_view(k: &SummaryKey) -> (Seq<char>, Seq<Option<MemoryState>>) {
    (k.0@, k.1@)
}

fn same_context(a: &Vec<Option<MemoryState>>, b: &Vec<Option<MemoryState>>) -> (r: bool)
    ensures
        r == (a@ == b@),
{
    if a.len() != b.len() {
        return false;
    }
    let mut i: usize = 0;
    while i < a.len()
        invariant
            a@.len() == b@.len(),
            i <= a@.len(),
            forall|k: int| 0 <= k < i ==> a@[k] == b@[k],
        decreases a@.len() - i,
    {
        let same = match (a[i], b[i]) {
            (Some(x), Some(y)) => x == y,
            (None, None) => true,
            _ => false,
        };
        if !same {
            return false;
        }
        i = i + 1;
    }
    assert(a@ =~= b@);
    true
}

/// The summaries computed so far, keyed by function symbol and argument
/// states.
pub struct SummaryCache {
    map: Vec<(SummaryKey, Summary)>,
}

/// A summary key, as values.
pub type KeyModel = (Seq<char>, Seq<Option<MemoryState>>);

/// Every summary of `a` is in `b`, unchanged.
pub open spec fn cache_extends(a: Map<KeyModel, (Shape, MemoryState)>, b: Map<KeyModel, (Shape, MemoryState)>) -> bool {
    forall|k: KeyModel| #[trigger] a.contains_key(k) ==> b.contains_key(k) && b[k] == a[k]
}

impl View for SummaryCache {
    type V = Map<KeyModel, (Shape, MemoryState)>;

    closed spec fn view(&self) -> Map<KeyModel, (Shape, MemoryState)> {
        Map::new(
            |k: KeyModel| exists|i: int| 0 <= i < self.map@.len() && #[trigger] key_view(&self.map@[i].0) == k,
            |k: KeyModel| {
                let i = choose|i: int| 0 <= i < self.map@.len() && #[trigger] key_view(&self.map@[i].0) == k;
                (self.map@[i].1.0@, self.map@[i].1.1)
            },
        )
    }
}

impl Default for SummaryCache {
    fn default() -> (r: SummaryCache)
        ensures
            r.wf(),
            r@ == Map::<KeyModel, (Shape, MemoryState)>::empty(),
    {
        SummaryCache::new()
    }
}

impl SummaryCache {
    /// Each key has one entry, and every stored state is well formed.
    pub closed spec fn wf(&self) -> bool {
        &&& forall|i: int, j: int| 0 <= i < self.map@.len() && 0 <= j < self.map@.len() && #[trigger] key_view(&self.map@[i].0) == #[trigger] key_view(&self.map@[j].0) ==> i == j
        &&& forall|i: int| 0 <= i < self.map@.len() ==> (#[trigger] self.map@[i]).1.0.wf()
    }

    /// An empty cache.
    pub fn new() -> (r: SummaryCache)
        ensures
            r.wf(),
            r@ == Map::<KeyModel, (Shape, MemoryState)>::empty(),
    {
        let r = SummaryCache { map: Vec::new() };
        assert(r@ =~= Map::<KeyModel, (Shape, MemoryState)>::empty());
        r
    }

    fn find(&self, key: &SummaryKey) -> (r: Option<usize>)
        requires
            self.wf(),
        ensures
            match r {
                Some(i) => i < self.map@.len() && key_view(&self.map@[i as int].0) == key_view(key) && self@.contains_key(key_view(key))
                    && self@[key_view(key)] == (self.map@[i as int].1.0@, self.map@[i as int].1.1),
                None => !self@.contains_key(key_view(key)),
            },
    {
        let mut i: usize = 0;
        while i < self.map.len()
            invariant
                self.wf(),
                i <= self.map@.len(),
                forall|k: int| 0 <= k < i ==> #[trigger] key_view(&self.map@[k].0) != key_view(key),
            decreases self.map@.len() - i,
        {
            if self.map[i].0.0 == key.0 && same_context(&self.map[i].0.1, &key.1) {
                assert(key_view(&self.map@[i as int].0) == key_view(key));
                assert(self@.contains_key(key_view(key)));
                let ghost k = choose|k: int| 0 <= k < self.map@.len() && #[trigger] key_view(&self.map@[k].0) == key_view(key);
                assert(key_view(&self.map@[k].0) == key_view(&self.map@[i as int].0));
                return Some(i);
            }
            i = i + 1;
        }
        None
    }

    /// Stores a summary under `key`, replacing any earlier one.
    pub fn insert(&mut self, key: &SummaryKey, state: Summary)
        requires
            old(self).wf(),
            state.0.wf(),
        ensures
            final(self).wf(),
            final(self)@ == old(self)@.insert(key_view(key), (state.0@, state.1)),
    {
        let ghost kv = key_view(key);
        let ghost sv = (state.0@, state.1);
        let ghost m0 = self@;
        let ghost before = self.map@;
        let k = (key.0.clone(), copy_context(&key.1));
        assert(key_view(&k) == kv);
        match self.find(key) {
            Some(i) => {
                self.map.remove(i);
                self.map.insert(i, (k, state));
                proof {
                    let after = self.map@;
                    assert(after =~= before.update(i as int, after[i as int]));
                    assert forall|a: int, b: int| 0 <= a < after.len() && 0 <= b < after.len() && #[trigger] key_view(&after[a].0) == #[trigger] key_view(&after[b].0) implies a == b by {
                        assert(key_view(&before[a].0) == key_view(&before[b].0));
                    }
                    assert forall|x: KeyModel| #[trigger] self@.contains_key(x) <==> m0.insert(kv, sv).contains_key(x) by {
                        if self@.contains_key(x) {
                            let j = choose|j: int| 0 <= j < after.len() && #[trigger] key_view(&after[j].0) == x;
                            assert(key_view(&before[j].0) == x);
                        }
                        if m0.contains_key(x) {
                            let j = choose|j: int| 0 <= j < before.len() && #[trigger] key_view(&before[j].0) == x;
                            assert(key_view(&after[j].0) == x);
                        }
                    }
                    assert forall|x: KeyModel| #[trigger] self@.contains_key(x) implies self@[x] == m0.insert(kv, sv)[x] by {
                        let j = choose|j: int| 0 <= j < after.len() && #[trigger] key_view(&after[j].0) == x;
                        if x != kv {
                            let j0 = choose|j0: int| 0 <= j0 < before.len() && #[trigger] key_view(&before[j0].0) == x;
                            assert(key_view(&before[j].0) == key_view(&before[j0].0));
                        } else {
                            assert(key_view(&after[i as int].0) == key_view(&after[j].0));
                        }
                    }
                    assert(self@ =~= m0.insert(kv, sv));
                }
            },
            None => {
                self.map.push((k, state));
                proof {
                    let after = self.map@;
                    let last = before.len() as int;
                    assert forall|a: int, b: int| 0 <= a < after.len() && 0 <= b < after.len() && #[trigger] key_view(&after[a].0) == #[trigger] key_view(&after[b].0) implies a == b by {
                        if a < last && b < last {
                            assert(key_view(&before[a].0) == key_view(&before[b].0));
                        } else if a < last {
                            assert(m0.contains_key(key_view(&before[a].0)));
                        } else if b < last {
                            assert(m0.contains_key(key_view(&before[b].0)));
                        }
                    }
                    assert forall|x: KeyModel| #[trigger] self@.contains_key(x) <==> m0.insert(kv, sv).contains_key(x) by {
                        if self@.contains_key(x) {
                            let j = choose|j: int| 0 <= j < after.len() && #[trigger] key_view(&after[j].0) == x;
                            if j < last {
                                assert(key_view(&before[j].0) == x);
                            }
                        }
                        if m0.contains_key(x) {
                            let j = choose|j: int| 0 <= j < before.len() && #[trigger] key_view(&before[j].0) == x;
                            assert(key_view(&after[j].0) == x);
                        }
                        if x == kv {
                            assert(key_view(&after[last].0) == x);
                        }
                    }
                    assert forall|x: KeyModel| #[trigger] self@.contains_key(x) implies self@[x] == m0.insert(kv, sv)[x] by {
                        let j = choose|j: int| 0 <= j < after.len() && #[trigger] key_view(&after[j].0) == x;
                        if x != kv {
                            let j0 = choose|j0: int| 0 <= j0 < before.len() && #[trigger] key_view(&before[j0].0) == x;
                            assert(key_view(&after[j0].0) == x);
                            assert(key_view(&after[j].0) == key_view(&after[j0].0));
                        } else {
                            assert(key_view(&after[last].0) == key_view(&after[j].0));
                        }
                    }
                    assert(self@ =~= m0.insert(kv, sv));
                }
            },
        }
    }

    /// The summary stored under `key`, if any.
    pub fn get(&self, key: &SummaryKey) -> (r: Option<Summary>)
        requires
            self.wf(),
        ensures
            r.is_some() == self@.contains_key(key_view(key)),
            r matches Some(s) ==> s.0.wf() && self@[key_view(key)] == (s.0@, s.1),
    {
        match self.find(key) {
            Some(i) => Some((self.map[i].1.0.clone(), self.map[i].1.1)),
            None => None,
        }
    }
}

fn copy_context(v: &Vec<Option<MemoryState>>) -> (r: Vec<Option<MemoryState>>)
    ensures
        r@ == v@,
{
    let mut r: Vec<Option<MemoryState>> = Vec::new();
    let mut i: usize = 0;
    while i < v.len()
        invariant
            i <= v@.len(),
            r@ == v@.take(i as int),
        decreases v@.len() - i,
    {
        r.push(v[i]);
        assert(r@ =~= v@.take(i + 1));
        i = i + 1;
    }
    assert(r@ =~= v@);
    r
}

} // verus!
