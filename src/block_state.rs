use vstd::prelude::*;
use crate::lattice::{MemoryState, state_le, state_join, lemma_union_least, lemma_union_upper_bound};
use crate::join::{is_union, adds_class, merged_class, merged_state, lemma_union_base, lemma_merge_step};
use crate::name::{Name, NameModel, dot_closure, dotted_prefixes, is_dot_prefix};

verus! {

/// The names held by a sequence, as a set.
pub open spec fn names_of(s: Seq<Name>) -> Set<NameModel> {
    Set::new(|n: NameModel| exists|i: int| 0 <= i < s.len() && #[trigger] s[i]@ == n)
}

proof fn lemma_names_of_push(s: Seq<Name>, x: Name)
    ensures
        names_of(s.push(x)) == names_of(s).insert(x@),
{
    assert(names_of(s.push(x)) =~= names_of(s).insert(x@)) by {
        assert(s.push(x)[s.len() as int] == x);
        assert forall|n: NameModel| names_of(s.push(x)).contains(n) implies names_of(s).insert(
            x@,
        ).contains(n) by {
            let k = choose|k: int| 0 <= k < s.len() + 1 && #[trigger] s.push(x)[k]@ == n;
            if k < s.len() {
                assert(s[k] == s.push(x)[k]);
            }
        }
        assert forall|n: NameModel| names_of(s).contains(n) implies names_of(s.push(x)).contains(
            n,
        ) by {
            let k = choose|k: int| 0 <= k < s.len() && #[trigger] s[k]@ == n;
            assert(s.push(x)[k] == s[k]);
        }
    }
}

proof fn lemma_names_of_take(s: Seq<Name>, i: int)
    requires
        0 <= i < s.len(),
    ensures
        names_of(s.take(i + 1)) == names_of(s.take(i)).insert(s[i]@),
{
    assert(s.take(i + 1) =~= s.take(i).push(s[i]));
    lemma_names_of_push(s.take(i), s[i]);
}

/// A set of names that alias one underlying allocation.
#[derive(Debug)]
pub struct Allocation {
    pub set: Vec<Name>,
}

impl View for Allocation {
    type V = Set<NameModel>;

    open spec fn view(&self) -> Set<NameModel> {
        names_of(self.set@)
    }
}

impl Clone for Allocation {
    fn clone(&self) -> (r: Allocation)
        ensures
            r@ == self@,
    {
        let mut v: Vec<Name> = Vec::new();
        let mut i: usize = 0;
        while i < self.set.len()
            invariant
                i <= self.set@.len(),
                v@ == self.set@.take(i as int),
            decreases self.set@.len() - i,
        {
            v.push(self.set[i].clone());
            assert(v@ =~= self.set@.take(i + 1));
            i = i + 1;
        }
        assert(v@ =~= self.set@);
        Allocation { set: v }
    }
}

impl Allocation {
    /// A class that holds `var` alone.
    pub fn new(var: Name) -> (r: Allocation)
        ensures
            r@ == Set::<NameModel>::empty().insert(var@),
    {
        let r = Allocation { set: vec![var] };
        proof {
            assert(r.set@ =~= Seq::<Name>::empty().push(r.set@[0]));
            lemma_names_of_push(Seq::<Name>::empty(), r.set@[0]);
            assert(names_of(Seq::<Name>::empty()) =~= Set::<NameModel>::empty());
        }
        r
    }

    /// Whether `var` belongs to the class.
    pub fn contains(&self, var: &Name) -> (r: bool)
        ensures
            r == self@.contains(var@),
    {
        let mut i: usize = 0;
        while i < self.set.len()
            invariant
                i <= self.set@.len(),
                forall|k: int| 0 <= k < i ==> #[trigger] self.set@[k]@ != var@,
            decreases self.set@.len() - i,
        {
            if self.set[i] == *var {
                return true;
            }
            i = i + 1;
        }
        false
    }

    /// Adds `var` to the class.
    pub fn insert(&mut self, var: Name)
        ensures
            final(self)@ == old(self)@.insert(var@),
    {
        if !self.contains(&var) {
            proof {
                lemma_names_of_push(self.set@, var);
            }
            self.set.push(var);
        } else {
            assert(old(self)@.insert(var@) =~= old(self)@);
        }
    }

    /// Adds every name of `other` to the class.
    pub fn extend(&mut self, other: &Allocation)
        ensures
            final(self)@ == old(self)@.union(other@),
    {
        let mut i: usize = 0;
        assert(names_of(other.set@.take(0)) =~= Set::<NameModel>::empty());
        assert(old(self)@.union(Set::<NameModel>::empty()) =~= old(self)@);
        while i < other.set.len()
            invariant
                i <= other.set@.len(),
                self@ == old(self)@.union(names_of(other.set@.take(i as int))),
            decreases other.set@.len() - i,
        {
            self.insert(other.set[i].clone());
            proof {
                lemma_names_of_take(other.set@, i as int);
                assert(self@ =~= old(self)@.union(names_of(other.set@.take(i + 1))));
            }
            i = i + 1;
        }
        assert(other.set@.take(i as int) =~= other.set@);
    }

    /// The class without the names of `drop`.
    pub fn without(&self, drop: &Allocation) -> (r: Allocation)
        ensures
            r@ == self@.difference(drop@),
    {
        let mut v: Vec<Name> = Vec::new();
        let mut i: usize = 0;
        assert(names_of(v@) =~= names_of(self.set@.take(0)).difference(drop@));
        while i < self.set.len()
            invariant
                i <= self.set@.len(),
                names_of(v@) == names_of(self.set@.take(i as int)).difference(drop@),
            decreases self.set@.len() - i,
        {
            proof {
                lemma_names_of_take(self.set@, i as int);
            }
            if !drop.contains(&self.set[i]) {
                proof {
                    lemma_names_of_push(v@, self.set@[i as int]);
                }
                v.push(self.set[i].clone());
            }
            assert(names_of(v@) =~= names_of(self.set@.take(i + 1)).difference(drop@));
            i = i + 1;
        }
        assert(self.set@.take(i as int) =~= self.set@);
        Allocation { set: v }
    }

    /// Whether the two classes share a name.
    pub fn meets(&self, other: &Allocation) -> (r: bool)
        ensures
            r == meets(self@, other@),
    {
        let mut i: usize = 0;
        while i < self.set.len()
            invariant
                i <= self.set@.len(),
                forall|k: int| 0 <= k < i ==> !other@.contains(#[trigger] self.set@[k]@),
            decreases self.set@.len() - i,
        {
            if other.contains(&self.set[i]) {
                assert(self@.contains(self.set@[i as int]@));
                return true;
            }
            i = i + 1;
        }
        assert forall|x: NameModel| self@.contains(x) implies !other@.contains(x) by {
            let k = choose|k: int| 0 <= k < self.set@.len() && #[trigger] self.set@[k]@ == x;
        }
        false
    }

    /// Whether every name of the class is in `other`.
    pub fn subset_of(&self, other: &Allocation) -> (r: bool)
        ensures
            r == self@.subset_of(other@),
    {
        let mut i: usize = 0;
        while i < self.set.len()
            invariant
                i <= self.set@.len(),
                forall|k: int| 0 <= k < i ==> other@.contains(#[trigger] self.set@[k]@),
            decreases self.set@.len() - i,
        {
            if !other.contains(&self.set[i]) {
                assert(self@.contains(self.set@[i as int]@));
                return false;
            }
            i = i + 1;
        }
        assert forall|x: NameModel| self@.contains(x) implies other@.contains(x) by {
            let k = choose|k: int| 0 <= k < self.set@.len() && #[trigger] self.set@[k]@ == x;
        }
        true
    }

    /// Whether the two classes hold the same names.
    pub fn same_names(&self, other: &Allocation) -> (r: bool)
        ensures
            r == (self@ == other@),
    {
        let r = self.subset_of(other) && other.subset_of(self);
        if r {
            assert(self@ =~= other@);
        }
        r
    }

    /// Whether the class holds no name.
    pub fn is_empty(&self) -> (r: bool)
        ensures
            r == (self@ == Set::<NameModel>::empty()),
    {
        if self.set.len() == 0 {
            assert(self@ =~= Set::<NameModel>::empty());
            true
        } else {
            assert(self@.contains(self.set@[0]@));
            false
        }
    }
}

/// The classes of a block state, each with its state.
pub type ClassSeq = Seq<(Set<NameModel>, MemoryState)>;

/// What a block state says of each tracked name: its class and its state.
pub type Shape = Map<NameModel, (Set<NameModel>, MemoryState)>;

/// Class `i` of `cs` holds `n`.
pub open spec fn holds(cs: ClassSeq, i: int, n: NameModel) -> bool {
    0 <= i < cs.len() && cs[i].0.contains(n)
}

/// No name belongs to two classes.
pub open spec fn disjoint_classes(cs: ClassSeq) -> bool {
    forall|i: int, j: int, n: NameModel| #[trigger] holds(cs, i, n) && #[trigger] holds(cs, j, n) ==> i
        == j
}

/// The shape that a sequence of disjoint classes describes.
pub open spec fn shape_of(cs: ClassSeq) -> Shape {
    Map::new(
        |n: NameModel| exists|i: int| holds(cs, i, n),
        |n: NameModel| cs[choose|i: int| holds(cs, i, n)],
    )
}

/// Every tracked name lies in its own class, and all the names of a class share
/// that class and its state.
pub open spec fn shape_wf(m: Shape) -> bool {
    forall|n: NameModel, k: NameModel|
        #![trigger m[n].0.contains(k)]
        m.contains_key(n) ==> m[n].0.contains(n) && (m[n].0.contains(k) ==> m.contains_key(k)
            && m[k] == m[n])
}

/// The state of `n`; a name that no class holds is untainted.
pub open spec fn state_in(m: Shape, n: NameModel) -> MemoryState {
    if m.contains_key(n) {
        m[n].1
    } else {
        MemoryState::Untainted
    }
}

/// The class of `n`, empty where no class holds it.
pub open spec fn class_in(m: Shape, n: NameModel) -> Set<NameModel> {
    if m.contains_key(n) {
        m[n].0
    } else {
        Set::empty()
    }
}

pub proof fn lemma_shape_at(cs: ClassSeq, i: int, n: NameModel)
    requires
        disjoint_classes(cs),
        holds(cs, i, n),
    ensures
        shape_of(cs).contains_key(n),
        shape_of(cs)[n] == cs[i],
{
    let j = choose|j: int| holds(cs, j, n);
    assert(holds(cs, j, n) && holds(cs, i, n));
}

pub proof fn lemma_shape_none(cs: ClassSeq, n: NameModel)
    requires
        forall|i: int| 0 <= i < cs.len() ==> !cs[i].0.contains(n),
    ensures
        !shape_of(cs).contains_key(n),
{
    if exists|i: int| holds(cs, i, n) {
        let i = choose|i: int| holds(cs, i, n);
        assert(cs[i].0.contains(n));
    }
}

pub proof fn lemma_shape_wf(cs: ClassSeq)
    requires
        disjoint_classes(cs),
    ensures
        shape_wf(shape_of(cs)),
{
    let m = shape_of(cs);
    assert forall|n: NameModel, k: NameModel|
        m.contains_key(n) implies m[n].0.contains(n) && (#[trigger] m[n].0.contains(k)
        ==> m.contains_key(k) && m[k] == m[n]) by {
        let i = choose|i: int| holds(cs, i, n);
        lemma_shape_at(cs, i, n);
        if m[n].0.contains(k) {
            assert(holds(cs, i, k));
            lemma_shape_at(cs, i, k);
        }
    }
}

/// A shape that agrees with every class of `cs` is the shape of `cs`.
pub proof fn lemma_shape_eq(cs: ClassSeq, m: Shape)
    requires
        disjoint_classes(cs),
        forall|n: NameModel| m.contains_key(n) <==> exists|i: int| holds(cs, i, n),
        forall|i: int, n: NameModel| #[trigger] holds(cs, i, n) ==> m[n] == cs[i],
    ensures
        shape_of(cs) == m,
{
    assert forall|n: NameModel| m.contains_key(n) implies shape_of(cs)[n] == m[n] by {
        let i = choose|i: int| holds(cs, i, n);
        lemma_shape_at(cs, i, n);
    }
    assert(shape_of(cs) =~= m);
}

/// `m` with the names of `k` no longer tracked.
pub open spec fn drop_names(m: Shape, k: Set<NameModel>) -> Shape {
    Map::new(
        |n: NameModel| m.contains_key(n) && !k.contains(n),
        |n: NameModel| (m[n].0.difference(k), m[n].1),
    )
}

/// `m` with the names of `k` gathered into one class in state `s`, taken out of
/// the classes they held before.
pub open spec fn absorb_names(m: Shape, k: Set<NameModel>, s: MemoryState) -> Shape {
    Map::new(
        |n: NameModel| m.contains_key(n) || k.contains(n),
        |n: NameModel|
            if k.contains(n) {
                (k, s)
            } else {
                (m[n].0.difference(k), m[n].1)
            },
    )
}

/// Every name of the classes, in `m`, of the names of `ps`.
pub open spec fn classes_of_names(m: Shape, ps: Set<NameModel>) -> Set<NameModel> {
    Set::new(|x: NameModel| exists|q: NameModel| #[trigger] ps.contains(q) && m.contains_key(q) && m[q].0.contains(x))
}

/// The effect of `set_tainted(v, s)`: `Untainted` forgets the class of `v`;
/// any other state puts `v`, its dotted prefixes and the whole classes of all
/// of these in one class.
pub open spec fn set_tainted_shape(m: Shape, v: NameModel, s: MemoryState) -> Shape {
    if s == MemoryState::Untainted {
        drop_names(m, class_in(m, v))
    } else {
        absorb_names(m, dot_closure(v).union(classes_of_names(m, dot_closure(v))), s)
    }
}

/// Each tracked name's dotted prefixes lie in its class.
pub open spec fn prefix_closed(m: Shape) -> bool {
    forall|n: NameModel, p: NameModel|
        #![trigger m.contains_key(n), is_dot_prefix(p, n)]
        m.contains_key(n) && is_dot_prefix(p, n) ==> m.contains_key(p) && m[p] == m[n]
}

/// No class is in state `Untainted`.
pub open spec fn no_untainted(m: Shape) -> bool {
    forall|n: NameModel| #[trigger] m.contains_key(n) ==> m[n].1 != MemoryState::Untainted
}

/// The effect of `propagate_taint(from, to)`: an untainted `from` takes `to` out
/// of its class; otherwise the classes of `from` and `to` merge, with the state
/// of `from`.
pub open spec fn propagate_shape(m: Shape, from: NameModel, to: NameModel) -> Shape {
    if state_in(m, from) == MemoryState::Untainted {
        drop_names(m, Set::empty().insert(to))
    } else {
        absorb_names(
            m,
            class_in(m, from).union(class_in(m, to)).insert(to),
            state_in(m, from),
        )
    }
}

/// The two sets share a name.
pub open spec fn meets(a: Set<NameModel>, b: Set<NameModel>) -> bool {
    exists|x: NameModel| a.contains(x) && b.contains(x)
}

/// The shape of the first `j + 1` classes adds class `j` to that of the first `j`.
pub proof fn lemma_take_step(cs: ClassSeq, j: int)
    requires
        disjoint_classes(cs),
        0 <= j < cs.len(),
    ensures
        adds_class(shape_of(cs.take(j)), shape_of(cs.take(j + 1)), cs[j].0, cs[j].1),
{
    let p = cs.take(j);
    let q = cs.take(j + 1);
    assert forall|a: int, b: int, n: NameModel| #[trigger] holds(q, a, n) && #[trigger] holds(q, b, n) implies a == b by {
        assert(holds(cs, a, n) && holds(cs, b, n));
    }
    assert forall|a: int, b: int, n: NameModel| #[trigger] holds(p, a, n) && #[trigger] holds(p, b, n) implies a == b by {
        assert(holds(cs, a, n) && holds(cs, b, n));
    }
    assert forall|x: NameModel| #[trigger] cs[j].0.contains(x) implies !shape_of(p).contains_key(x) && shape_of(q).contains_key(x) && shape_of(q)[x] == (cs[j].0, cs[j].1) by {
        assert(holds(q, j, x));
        lemma_shape_at(q, j, x);
        if shape_of(p).contains_key(x) {
            let a = choose|a: int| holds(p, a, x);
            assert(holds(cs, a, x) && holds(cs, j, x));
        }
    }
    assert forall|x: NameModel| !cs[j].0.contains(x) implies (#[trigger] shape_of(q).contains_key(x) == shape_of(p).contains_key(x)) && (shape_of(p).contains_key(x) ==> shape_of(q)[x] == shape_of(p)[x]) by {
        if shape_of(q).contains_key(x) {
            let a = choose|a: int| holds(q, a, x);
            assert(holds(p, a, x));
        }
        if shape_of(p).contains_key(x) {
            let a = choose|a: int| holds(p, a, x);
            assert(holds(q, a, x));
            lemma_shape_at(p, a, x);
            lemma_shape_at(q, a, x);
        }
    }
}

/// Every tracked name of `a` is tracked in `b`, with a state at least as high.
pub open spec fn shape_le(a: Shape, b: Shape) -> bool {
    forall|n: NameModel| #[trigger] a.contains_key(n) ==> b.contains_key(n) && state_le(a[n].1, b[n].1)
}

/// Every name of the classes, in `m`, of the first `i` names of `s`.
pub open spec fn classes_upto(m: Shape, s: Seq<Name>, i: int) -> Set<NameModel> {
    Set::new(|x: NameModel| exists|j: int| 0 <= j < i && m.contains_key(#[trigger] s[j]@) && m[s[j]@].0.contains(x))
}

/// A dotted prefix of a dotted prefix is a dotted prefix.
pub proof fn lemma_dot_prefix_trans(p: NameModel, n: NameModel, v: NameModel)
    requires
        is_dot_prefix(p, n),
        is_dot_prefix(n, v),
    ensures
        is_dot_prefix(p, v),
{
    let q = p->Text_0;
    let t = n->Text_0;
    let u = v->Text_0;
    assert(t[q.len() as int] == u[q.len() as int]);
    assert(q =~= u.subrange(0, q.len() as int));
}

/// `set_tainted` keeps prefix closure and keeps classes out of `Untainted`.
pub proof fn lemma_set_keeps_invariants(m: Shape, v: NameModel, s: MemoryState)
    requires
        shape_wf(m),
    ensures
        prefix_closed(m) ==> prefix_closed(set_tainted_shape(m, v, s)),
        no_untainted(m) ==> no_untainted(set_tainted_shape(m, v, s)),
{
    let r = set_tainted_shape(m, v, s);
    if s == MemoryState::Untainted {
        let k = class_in(m, v);
        if prefix_closed(m) {
            assert forall|n: NameModel, p: NameModel| #![trigger r.contains_key(n), is_dot_prefix(p, n)]
                r.contains_key(n) && is_dot_prefix(p, n) implies r.contains_key(p) && r[p] == r[n] by {
                assert(m.contains_key(p) && m[p] == m[n]);
                if k.contains(p) {
                    assert(m[v].0.contains(p));
                    assert(m[p] == m[v]);
                    assert(m[n].0.contains(n));
                }
            }
        }
    } else {
        let k = dot_closure(v).union(classes_of_names(m, dot_closure(v)));
        if prefix_closed(m) {
            assert forall|n: NameModel, p: NameModel| #![trigger r.contains_key(n), is_dot_prefix(p, n)]
                r.contains_key(n) && is_dot_prefix(p, n) implies r.contains_key(p) && r[p] == r[n] by {
                if k.contains(n) {
                    if dot_closure(v).contains(n) {
                        if n != v {
                            lemma_dot_prefix_trans(p, n, v);
                        }
                        assert(dot_closure(v).contains(p));
                    } else {
                        let q = choose|q: NameModel| #[trigger] dot_closure(v).contains(q) && m.contains_key(q) && m[q].0.contains(n);
                        assert(m[q].0.contains(n));
                        assert(m[n] == m[q]);
                        assert(m.contains_key(p) && m[p] == m[n]);
                        assert(m[n].0.contains(n));
                        assert(m[p].0.contains(n));
                        assert(m[q].0.contains(p));
                        assert(classes_of_names(m, dot_closure(v)).contains(p));
                    }
                } else {
                    assert(m.contains_key(p) && m[p] == m[n]);
                    if k.contains(p) {
                        if dot_closure(v).contains(p) {
                            assert(m[p].0.contains(n)) by {
                                assert(m[n].0.contains(n));
                            }
                            assert(classes_of_names(m, dot_closure(v)).contains(n));
                        } else {
                            let q = choose|q: NameModel| #[trigger] dot_closure(v).contains(q) && m.contains_key(q) && m[q].0.contains(p);
                            assert(m[q].0.contains(p));
                            assert(m[p] == m[q]);
                            assert(m[n].0.contains(n));
                            assert(m[q].0.contains(n));
                            assert(classes_of_names(m, dot_closure(v)).contains(n));
                        }
                    }
                }
            }
        }
    }
}

/// Every class holds a name.
pub open spec fn nonempty_classes(cs: ClassSeq) -> bool {
    forall|i: int| 0 <= i < cs.len() ==> #[trigger] cs[i].0 != Set::<NameModel>::empty()
}

/// The classes of a shape with their states.
pub open spec fn shape_entries(m: Shape) -> Set<(Set<NameModel>, MemoryState)> {
    Set::new(|e: (Set<NameModel>, MemoryState)| exists|n: NameModel| #[trigger] m.contains_key(n) && m[n] == e)
}

/// The abstract state of one basic block: disjoint classes of aliasing names,
/// each with its memory state. A name in no class is untainted.
#[derive(Debug)]
pub struct BlockState {
    state: Vec<(Allocation, MemoryState)>,
}

/// The classes of a sequence of entries.
pub open spec fn classes_of(v: Seq<(Allocation, MemoryState)>) -> ClassSeq {
    v.map_values(|e: (Allocation, MemoryState)| (e.0@, e.1))
}

impl Clone for BlockState {
    fn clone(&self) -> (r: BlockState)
        ensures
            r@ == self@,
            r.wf() == self.wf(),
    {
        let mut v: Vec<(Allocation, MemoryState)> = Vec::new();
        let mut i: usize = 0;
        while i < self.state.len()
            invariant
                i <= self.state@.len(),
                v@.len() == i,
                classes_of(v@) == classes_of(self.state@).take(i as int),
            decreases self.state@.len() - i,
        {
            let a = self.state[i].0.clone();
            let ghost before = v@;
            v.push((a, self.state[i].1));
            assert forall|x: int| 0 <= x < i + 1 implies #[trigger] classes_of(v@)[x] == classes_of(self.state@).take(i + 1)[x] by {
                if x < i {
                    assert(v@[x] == before[x]);
                    assert(classes_of(before)[x] == classes_of(self.state@).take(i as int)[x]);
                }
            }
            assert(classes_of(v@) =~= classes_of(self.state@).take(i + 1));
            i = i + 1;
        }
        assert(classes_of(v@) =~= classes_of(self.state@));
        BlockState { state: v }
    }
}

impl PartialEq for BlockState {
    fn eq(&self, other: &BlockState) -> (r: bool)
        ensures
            r == (self.entries() == other.entries()),
    {
        let r = self.includes(other) && other.includes(self);
        if r {
            assert(self.entries() =~= other.entries());
        }
        r
    }
}

impl vstd::std_specs::cmp::PartialEqSpecImpl for BlockState {
    open spec fn obeys_eq_spec() -> bool {
        true
    }

    open spec fn eq_spec(&self, other: &BlockState) -> bool {
        self.entries() == other.entries()
    }
}

/// Some class of `cs` holds `x` with a state at least `s`.
pub open spec fn covered_name(cs: ClassSeq, x: NameModel, s: MemoryState) -> bool {
    exists|j: int| holds(cs, j, x) && state_le(s, #[trigger] cs[j].1)
}

/// What `partial_cmp` answers for two block states: `Equal` for the same
/// entries, `Less` where every name of the first is covered by the second.
pub open spec fn block_cmp(a: &BlockState, b: &BlockState) -> Option<core::cmp::Ordering> {
    if a.entries() == b.entries() {
        Some(core::cmp::Ordering::Equal)
    } else if a.covered_by(b) {
        Some(core::cmp::Ordering::Less)
    } else {
        None
    }
}

impl PartialOrd for BlockState {
    fn partial_cmp(&self, other: &BlockState) -> (r: Option<core::cmp::Ordering>)
        ensures
            r == block_cmp(self, other),
    {
        if *self == *other {
            Some(core::cmp::Ordering::Equal)
        } else if self.is_covered_by(other) {
            Some(core::cmp::Ordering::Less)
        } else {
            None
        }
    }
}

impl vstd::std_specs::cmp::PartialOrdSpecImpl for BlockState {
    open spec fn obeys_partial_cmp_spec() -> bool {
        true
    }

    open spec fn partial_cmp_spec(&self, other: &BlockState) -> Option<core::cmp::Ordering> {
        block_cmp(self, other)
    }
}

impl Default for BlockState {
    fn default() -> (r: BlockState)
        ensures
            r.wf(),
            r@ == Shape::empty(),
    {
        BlockState::new()
    }
}

impl View for BlockState {
    type V = Shape;

    closed spec fn view(&self) -> Shape {
        shape_of(classes_of(self.state@))
    }
}

impl BlockState {
    /// No name lies in two classes, and no class is empty.
    pub closed spec fn wf(&self) -> bool {
        disjoint_classes(classes_of(self.state@)) && nonempty_classes(classes_of(self.state@))
    }

    /// The shape of a well-formed block state is well formed.
    pub proof fn lemma_wf(&self)
        requires
            self.wf(),
        ensures
            shape_wf(self@),
    {
        lemma_shape_wf(classes_of(self.state@));
    }

    /// A state in which every name is untainted.
    pub fn new() -> (r: BlockState)
        ensures
            r.wf(),
            r@ == Shape::empty(),
    {
        let r = BlockState { state: Vec::new() };
        assert(r@ =~= Shape::empty());
        r
    }

    /// Index of the class that holds `var`.
    fn find(&self, var: &Name) -> (r: Option<usize>)
        ensures
            match r {
                Some(i) => holds(classes_of(self.state@), i as int, var@),
                None => forall|i: int|
                    0 <= i < self.state@.len() ==> !classes_of(self.state@)[i].0.contains(var@),
            },
    {
        let mut i: usize = 0;
        while i < self.state.len()
            invariant
                i <= self.state@.len(),
                forall|k: int| 0 <= k < i ==> !classes_of(self.state@)[k].0.contains(var@),
            decreases self.state@.len() - i,
        {
            if self.state[i].0.contains(var) {
                return Some(i);
            }
            i = i + 1;
        }
        None
    }

    /// The state of `var`: that of its class, or `Untainted`.
    pub fn get_memory_state(&self, var: &Name) -> (r: MemoryState)
        requires
            self.wf(),
        ensures
            r == state_in(self@, var@),
    {
        match self.find(var) {
            Some(i) => {
                proof {
                    lemma_shape_at(classes_of(self.state@), i as int, var@);
                }
                self.state[i].1
            },
            None => {
                proof {
                    lemma_shape_none(classes_of(self.state@), var@);
                }
                MemoryState::Untainted
            },
        }
    }

    /// The class that holds `var`, if any.
    pub fn get_allocation(&self, var: &Name) -> (r: Option<Allocation>)
        requires
            self.wf(),
        ensures
            r.is_some() == self@.contains_key(var@),
            r.is_some() ==> r.unwrap()@ == self@[var@].0,
    {
        match self.find(var) {
            Some(i) => {
                proof {
                    lemma_shape_at(classes_of(self.state@), i as int, var@);
                }
                Some(self.state[i].0.clone())
            },
            None => {
                proof {
                    lemma_shape_none(classes_of(self.state@), var@);
                }
                None
            },
        }
    }

    /// Whether `var` is at least `Tainted`.
    pub fn is_tainted(&self, var: &Name) -> (r: bool)
        requires
            self.wf(),
        ensures
            r == state_le(MemoryState::Tainted, state_in(self@, var@)),
    {
        MemoryState::Tainted.is_le(&self.get_memory_state(var))
    }

    /// Stops tracking every name of `k`.
    fn remove_names(&mut self, k: &Allocation)
        requires
            old(self).wf(),
        ensures
            final(self).wf(),
            final(self)@ == drop_names(old(self)@, k@),
            forall|i: int| 0 <= i < final(self).state@.len() ==> classes_of(final(self).state@)[i].0.disjoint(k@),
    {
        let ghost orig = classes_of(self.state@);
        let mut out: Vec<(Allocation, MemoryState)> = Vec::new();
        let ghost mut src: Seq<int> = Seq::empty();
        let mut j: usize = 0;
        while j < self.state.len()
            invariant
                orig == classes_of(self.state@),
                disjoint_classes(orig),
                j <= self.state@.len(),
                src.len() == out@.len(),
                forall|p: int| 0 <= p < src.len() ==> 0 <= #[trigger] src[p] < j,
                forall|p: int, q: int| 0 <= p < q < src.len() ==> src[p] < src[q],
                forall|p: int| 0 <= p < src.len() ==> #[trigger] classes_of(out@)[p] == (orig[src[p]].0.difference(k@), orig[src[p]].1),
                nonempty_classes(classes_of(out@)),
                forall|jj: int, n: NameModel| 0 <= jj < j && #[trigger] holds(orig, jj, n) && !k@.contains(n) ==> exists|p: int| 0 <= p < src.len() && #[trigger] src[p] == jj,
            decreases self.state@.len() - j,
        {
            let a = self.state[j].0.without(k);
            if !a.is_empty() {
                let ghost before = out@;
                let ghost old_src = src;
                out.push((a, self.state[j].1));
                proof {
                    src = src.push(j as int);
                    assert forall|p: int| 0 <= p < out@.len() implies #[trigger] classes_of(out@)[p].0 != Set::<NameModel>::empty() by {
                        if p < before.len() {
                            assert(out@[p] == before[p]);
                            assert(classes_of(before)[p].0 != Set::<NameModel>::empty());
                        } else {
                            assert(out@[p] == (a, self.state@[j as int].1));
                        }
                    }
                    assert forall|p: int| 0 <= p < src.len() implies #[trigger] classes_of(out@)[p] == (orig[src[p]].0.difference(k@), orig[src[p]].1) by {
                        if p < before.len() {
                            assert(out@[p] == before[p]);
                            assert(src[p] == old_src[p]);
                            assert(classes_of(before)[p] == (orig[old_src[p]].0.difference(k@), orig[old_src[p]].1));
                        } else {
                            assert(out@[p] == (a, self.state@[j as int].1));
                        }
                    }
                    assert forall|jj: int, n: NameModel| 0 <= jj < j + 1 && #[trigger] holds(orig, jj, n) && !k@.contains(n) implies exists|p: int| 0 <= p < src.len() && #[trigger] src[p] == jj by {
                        if jj == j {
                            assert(src[src.len() - 1] == jj);
                        } else {
                            let p = choose|p: int| 0 <= p < old_src.len() && #[trigger] old_src[p] == jj;
                            assert(src[p] == old_src[p]);
                        }
                    }
                }
            } else {
                proof {
                    assert forall|jj: int, n: NameModel| 0 <= jj < j + 1 && #[trigger] holds(orig, jj, n) && !k@.contains(n) implies exists|p: int| 0 <= p < src.len() && #[trigger] src[p] == jj by {
                        if jj == j {
                            assert(a@.contains(n));
                        }
                    }
                }
            }
            j = j + 1;
        }
        let ghost m = drop_names(shape_of(orig), k@);
        proof {
            let cs = classes_of(out@);
            assert forall|p: int, q: int, n: NameModel| #[trigger] holds(cs, p, n) && #[trigger] holds(cs, q, n) implies p == q by {
                assert(holds(orig, src[p], n) && holds(orig, src[q], n));
                if p < q {
                    assert(src[p] < src[q]);
                } else if q < p {
                    assert(src[q] < src[p]);
                }
            }
            assert forall|n: NameModel| m.contains_key(n) <==> exists|p: int| holds(cs, p, n) by {
                if m.contains_key(n) {
                    let jj = choose|jj: int| holds(orig, jj, n);
                    let p = choose|p: int| 0 <= p < src.len() && #[trigger] src[p] == jj;
                    assert(holds(cs, p, n));
                }
                if exists|p: int| holds(cs, p, n) {
                    let p = choose|p: int| holds(cs, p, n);
                    assert(holds(orig, src[p], n));
                }
            }
            assert forall|p: int, n: NameModel| #[trigger] holds(cs, p, n) implies m[n] == cs[p] by {
                assert(holds(orig, src[p], n));
                lemma_shape_at(orig, src[p], n);
            }
            lemma_shape_eq(cs, m);
        }
        self.state = out;
    }

    /// Gathers the names of `k` into one class in state `s`.
    fn absorb(&mut self, k: Allocation, s: MemoryState)
        requires
            old(self).wf(),
            k@ != Set::<NameModel>::empty(),
        ensures
            final(self).wf(),
            final(self)@ == absorb_names(old(self)@, k@, s),
    {
        let ghost m0 = self@;
        let ghost kk = k@;
        self.remove_names(&k);
        let ghost mid = classes_of(self.state@);
        self.state.push((k, s));
        proof {
            let cs = classes_of(self.state@);
            assert(cs =~= mid.push((kk, s)));
            let last = mid.len() as int;
            assert forall|p: int, q: int, n: NameModel| #[trigger] holds(cs, p, n) && #[trigger] holds(cs, q, n) implies p == q by {
                if p < last && q < last {
                    assert(holds(mid, p, n) && holds(mid, q, n));
                } else if p < last {
                    assert(mid[p].0.disjoint(kk));
                } else if q < last {
                    assert(mid[q].0.disjoint(kk));
                }
            }
            let m = absorb_names(m0, kk, s);
            assert forall|n: NameModel| m.contains_key(n) <==> exists|p: int| holds(cs, p, n) by {
                if m.contains_key(n) {
                    if kk.contains(n) {
                        assert(holds(cs, last, n));
                    } else {
                        assert(drop_names(m0, kk).contains_key(n));
                        let p = choose|p: int| holds(mid, p, n);
                        assert(holds(cs, p, n));
                    }
                }
                if exists|p: int| holds(cs, p, n) {
                    let p = choose|p: int| holds(cs, p, n);
                    if p < last {
                        assert(holds(mid, p, n));
                        lemma_shape_at(mid, p, n);
                    }
                }
            }
            assert forall|p: int, n: NameModel| #[trigger] holds(cs, p, n) implies m[n] == cs[p] by {
                if p < last {
                    assert(holds(mid, p, n));
                    lemma_shape_at(mid, p, n);
                    assert(mid[p].0.disjoint(kk));
                }
            }
            lemma_shape_eq(cs, m);
        }
    }

    /// Sets the state of `var` and of its class. `Untainted` forgets the whole
    /// class; any other state also gathers the dotted prefixes of `var` into the
    /// class, so that `x.y.z` taints `x.y` and `x`.
    pub fn set_tainted(&mut self, var: &Name, state: MemoryState)
        requires
            old(self).wf(),
        ensures
            final(self).wf(),
            final(self)@ == set_tainted_shape(old(self)@, var@, state),
            prefix_closed(old(self)@) ==> prefix_closed(final(self)@),
            no_untainted(old(self)@) ==> no_untainted(final(self)@),
    {
        proof {
            self.lemma_wf();
            lemma_set_keeps_invariants(self@, var@, state);
        }
        let ghost m = self@;
        if state == MemoryState::Untainted {
            match self.get_allocation(var) {
                Some(a) => self.remove_names(&a),
                None => {
                    assert(drop_names(m, class_in(m, var@)) =~= m) by {
                        assert forall|n: NameModel| m.contains_key(n) implies drop_names(m, class_in(m, var@))[n] == m[n] by {
                            assert(m[n].0.difference(Set::empty()) =~= m[n].0);
                        }
                    }
                },
            }
        } else {
            let pa = Allocation { set: dotted_prefixes(var) };
            assert(pa@ =~= dot_closure(var@));
            let mut k = pa.clone();
            let mut i: usize = 0;
            assert(k@ =~= dot_closure(var@).union(classes_upto(m, pa.set@, 0)));
            while i < pa.set.len()
                invariant
                    self.wf(),
                    self@ == m,
                    pa@ == dot_closure(var@),
                    i <= pa.set@.len(),
                    k@ == dot_closure(var@).union(classes_upto(m, pa.set@, i as int)),
                decreases pa.set@.len() - i,
            {
                match self.get_allocation(&pa.set[i]) {
                    Some(a) => {
                        k.extend(&a);
                        assert(k@ =~= dot_closure(var@).union(classes_upto(m, pa.set@, i + 1)));
                    },
                    None => {
                        assert(k@ =~= dot_closure(var@).union(classes_upto(m, pa.set@, i + 1)));
                    },
                }
                i = i + 1;
            }
            assert(classes_upto(m, pa.set@, i as int) =~= classes_of_names(m, dot_closure(var@))) by {
                assert forall|x: NameModel| classes_of_names(m, dot_closure(var@)).contains(x) implies classes_upto(m, pa.set@, i as int).contains(x) by {
                    let q = choose|q: NameModel| #[trigger] dot_closure(var@).contains(q) && m.contains_key(q) && m[q].0.contains(x);
                    assert(pa@.contains(q));
                    let j = choose|j: int| 0 <= j < pa.set@.len() && #[trigger] pa.set@[j]@ == q;
                    assert(m.contains_key(pa.set@[j]@) && m[pa.set@[j]@].0.contains(x));
                }
                assert forall|x: NameModel| classes_upto(m, pa.set@, i as int).contains(x) implies classes_of_names(m, dot_closure(var@)).contains(x) by {
                    let j = choose|j: int| 0 <= j < i && m.contains_key(#[trigger] pa.set@[j]@) && m[pa.set@[j]@].0.contains(x);
                    assert(pa@.contains(pa.set@[j]@));
                }
            }
            assert(k@.contains(var@));
            self.absorb(k, state);
        }
    }

    /// Carries the state of `from` over to `to`. An untainted `from` takes `to`
    /// out of its class; otherwise the classes of the two merge and take the
    /// state of `from`.
    pub fn propagate_taint(&mut self, from: &Name, to: &Name)
        requires
            old(self).wf(),
        ensures
            final(self).wf(),
            final(self)@ == propagate_shape(old(self)@, from@, to@),
            no_untainted(old(self)@) ==> no_untainted(final(self)@),
    {
        let ghost m = self@;
        let from_state = self.get_memory_state(from);
        if from_state == MemoryState::Untainted {
            let k = Allocation::new(to.clone());
            self.remove_names(&k);
        } else {
            let mut k = match self.get_allocation(from) {
                Some(a) => a,
                None => Allocation::new(from.clone()),
            };
            match self.get_allocation(to) {
                Some(b) => k.extend(&b),
                None => {},
            }
            k.insert(to.clone());
            assert(k@ =~= class_in(m, from@).union(class_in(m, to@)).insert(to@));
            assert(k@.contains(to@));
            self.absorb(k, from_state);
        }
    }

    /// The least upper bound of `self` and `other`: every name of either is
    /// tracked, classes that share a name merge, and each class takes the join
    /// of the states of its names.
    pub fn union(&self, other: &BlockState) -> (r: BlockState)
        requires
            self.wf(),
            other.wf(),
        ensures
            r.wf(),
            is_union(self@, other@, r@),
            r.entries() == shape_entries(r@),
            no_untainted(self@) && no_untainted(other@) ==> no_untainted(r@),
    {
        let ghost ocs = classes_of(other.state@);
        let mut res = self.clone();
        proof {
            self.lemma_wf();
            lemma_union_base(self@);
            assert(ocs.take(0) =~= ClassSeq::empty());
            assert(shape_of(ocs.take(0)) =~= Shape::empty());
        }
        let mut j: usize = 0;
        while j < other.state.len()
            invariant
                ocs == classes_of(other.state@),
                disjoint_classes(ocs),
                nonempty_classes(ocs),
                j <= other.state@.len(),
                res.wf(),
                is_union(self@, shape_of(ocs.take(j as int)), res@),
            decreases other.state@.len() - j,
        {
            let c = &other.state[j].0;
            let s = other.state[j].1;
            let mut k = c.clone();
            let mut st = s;
            let ghost rcs = classes_of(res.state@);
            let ghost r = res@;
            let mut i: usize = 0;
            while i < res.state.len()
                invariant
                    rcs == classes_of(res.state@),
                    i <= res.state@.len(),
                    forall|x: NameModel| #[trigger] k@.contains(x) <==> (c@.contains(x) || exists|ii: int|
                        0 <= ii < i && meets(rcs[ii].0, c@) && #[trigger] rcs[ii].0.contains(x)),
                    state_le(s, st),
                    forall|ii: int| 0 <= ii < i && meets(#[trigger] rcs[ii].0, c@) ==> state_le(rcs[ii].1, st),
                    forall|t: MemoryState| state_le(s, t) && (forall|ii: int| 0 <= ii < i && meets(#[trigger] rcs[ii].0, c@) ==> state_le(rcs[ii].1, t)) ==> #[trigger] state_le(st, t),
                decreases res.state@.len() - i,
            {
                if res.state[i].0.meets(c) {
                    let ghost k0 = k@;
                    let ghost st0 = st;
                    k.extend(&res.state[i].0);
                    st = st.union(res.state[i].1);
                    proof {
                        lemma_union_upper_bound(st0, rcs[i as int].1);
                        assert forall|x: NameModel| #[trigger] k@.contains(x) <==> (c@.contains(x) || exists|ii: int|
                            0 <= ii < i + 1 && meets(rcs[ii].0, c@) && #[trigger] rcs[ii].0.contains(x)) by {
                            if rcs[i as int].0.contains(x) {
                                assert(0 <= i < i + 1 && meets(rcs[i as int].0, c@) && rcs[i as int].0.contains(x));
                            }
                            if exists|ii: int| 0 <= ii < i + 1 && meets(rcs[ii].0, c@) && #[trigger] rcs[ii].0.contains(x) {
                                let ii = choose|ii: int| 0 <= ii < i + 1 && meets(rcs[ii].0, c@) && #[trigger] rcs[ii].0.contains(x);
                                if ii < i {
                                    assert(k0.contains(x));
                                }
                            }
                        }
                        assert forall|ii: int| 0 <= ii < i + 1 && meets(#[trigger] rcs[ii].0, c@) implies state_le(rcs[ii].1, st) by {
                            if ii < i {
                                assert(state_le(rcs[ii].1, st0));
                            }
                        }
                        assert forall|t: MemoryState| state_le(s, t) && (forall|ii: int| 0 <= ii < i + 1 && meets(#[trigger] rcs[ii].0, c@) ==> state_le(rcs[ii].1, t)) implies #[trigger] state_le(st, t) by {
                            assert(meets(rcs[i as int].0, c@));
                            assert(state_le(st0, t));
                            assert(state_le(rcs[i as int].1, t));
                            lemma_union_least(st0, rcs[i as int].1, t);
                        }
                    }
                } else {
                    proof {
                        assert forall|x: NameModel| #[trigger] k@.contains(x) <==> (c@.contains(x) || exists|ii: int|
                            0 <= ii < i + 1 && meets(rcs[ii].0, c@) && #[trigger] rcs[ii].0.contains(x)) by {
                            if exists|ii: int| 0 <= ii < i + 1 && meets(rcs[ii].0, c@) && #[trigger] rcs[ii].0.contains(x) {
                                let ii = choose|ii: int| 0 <= ii < i + 1 && meets(rcs[ii].0, c@) && #[trigger] rcs[ii].0.contains(x);
                                assert(ii < i);
                            }
                        }
                        assert forall|t: MemoryState| state_le(s, t) && (forall|ii: int| 0 <= ii < i + 1 && meets(#[trigger] rcs[ii].0, c@) ==> state_le(rcs[ii].1, t)) implies #[trigger] state_le(st, t) by {
                            assert forall|ii: int| 0 <= ii < i && meets(#[trigger] rcs[ii].0, c@) implies state_le(rcs[ii].1, t) by {
                                assert(0 <= ii < i + 1);
                            }
                        }
                    }
                }
                i = i + 1;
            }
            proof {
                assert(merged_class(r, c@, k@)) by {
                    assert forall|x: NameModel| #[trigger] k@.contains(x) <==> (c@.contains(x) || exists|y: NameModel|
                        #[trigger] c@.contains(y) && r.contains_key(y) && r[y].0.contains(x)) by {
                        if k@.contains(x) && !c@.contains(x) {
                            let ii = choose|ii: int| 0 <= ii < i && meets(rcs[ii].0, c@) && #[trigger] rcs[ii].0.contains(x);
                            let y = choose|y: NameModel| rcs[ii].0.contains(y) && c@.contains(y);
                            assert(holds(rcs, ii, y));
                            lemma_shape_at(rcs, ii, y);
                        }
                        if exists|y: NameModel| #[trigger] c@.contains(y) && r.contains_key(y) && r[y].0.contains(x) {
                            let y = choose|y: NameModel| #[trigger] c@.contains(y) && r.contains_key(y) && r[y].0.contains(x);
                            let ii = choose|ii: int| holds(rcs, ii, y);
                            lemma_shape_at(rcs, ii, y);
                            assert(meets(rcs[ii].0, c@));
                        }
                    }
                }
                assert(merged_state(r, c@, s, st)) by {
                    assert forall|y: NameModel| #[trigger] c@.contains(y) && r.contains_key(y) implies state_le(r[y].1, st) by {
                        let ii = choose|ii: int| holds(rcs, ii, y);
                        lemma_shape_at(rcs, ii, y);
                        assert(meets(rcs[ii].0, c@));
                    }
                    assert forall|t: MemoryState| state_le(s, t) && (forall|y: NameModel| #[trigger] c@.contains(y) && r.contains_key(y) ==> state_le(r[y].1, t)) implies #[trigger] state_le(st, t) by {
                        assert forall|ii: int| 0 <= ii < i && meets(#[trigger] rcs[ii].0, c@) implies state_le(rcs[ii].1, t) by {
                            let y = choose|y: NameModel| rcs[ii].0.contains(y) && c@.contains(y);
                            assert(holds(rcs, ii, y));
                            lemma_shape_at(rcs, ii, y);
                        }
                    }
                }
                lemma_take_step(ocs, j as int);
                lemma_merge_step(self@, shape_of(ocs.take(j as int)), shape_of(ocs.take(j + 1)), r, c@, s, k@, st);
            }
            proof {
                assert(classes_of(other.state@)[j as int].0 != Set::<NameModel>::empty());
                assert(exists|x: NameModel| c@.contains(x)) by {
                    if !(exists|x: NameModel| c@.contains(x)) {
                        assert(c@ =~= Set::<NameModel>::empty());
                    }
                }
                let x = choose|x: NameModel| c@.contains(x);
                assert(k@.contains(x));
            }
            res.absorb(k, st);
            j = j + 1;
        }
        assert(ocs.take(j as int) =~= ocs);
        proof {
            lemma_union_no_untainted(self@, other@, res@);
            lemma_entries_shape(&res);
        }
        res
    }

    /// A block state made of the given classes, which share no name.
    pub fn from_entries(entries: Vec<(Allocation, MemoryState)>) -> (r: BlockState)
        requires
            disjoint_classes(classes_of(entries@)),
            nonempty_classes(classes_of(entries@)),
        ensures
            r.wf(),
            r@ == shape_of(classes_of(entries@)),
            r.entries() == classes_of(entries@).to_set(),
    {
        BlockState { state: entries }
    }

    proof fn lemma_entries_shape_inner(&self)
        requires
            self.wf(),
        ensures
            self.entries() == shape_entries(self@),
    {
        let cs = classes_of(self.state@);
        assert forall|e: (Set<NameModel>, MemoryState)| self.entries().contains(e) implies shape_entries(self@).contains(e) by {
            let i = choose|i: int| 0 <= i < cs.len() && cs[i] == e;
            assert(cs[i].0 != Set::<NameModel>::empty());
            assert(exists|x: NameModel| cs[i].0.contains(x)) by {
                if !(exists|x: NameModel| cs[i].0.contains(x)) {
                    assert(cs[i].0 =~= Set::<NameModel>::empty());
                }
            }
            let x = choose|x: NameModel| cs[i].0.contains(x);
            assert(holds(cs, i, x));
            lemma_shape_at(cs, i, x);
        }
        assert forall|e: (Set<NameModel>, MemoryState)| shape_entries(self@).contains(e) implies self.entries().contains(e) by {
            let n = choose|n: NameModel| #[trigger] self@.contains_key(n) && self@[n] == e;
            let i = choose|i: int| holds(cs, i, n);
            lemma_shape_at(cs, i, n);
            assert(cs[i] == e);
        }
        assert(self.entries() =~= shape_entries(self@));
    }

    /// The classes with their states, as the set of entries of a map from
    /// classes to states.
    pub closed spec fn entries(&self) -> Set<(Set<NameModel>, MemoryState)> {
        classes_of(self.state@).to_set()
    }

    /// Whether some class of `self` is `a` with state `s`.
    fn has_entry(&self, a: &Allocation, s: MemoryState) -> (r: bool)
        ensures
            r == self.entries().contains((a@, s)),
    {
        let ghost cs = classes_of(self.state@);
        let mut j: usize = 0;
        while j < self.state.len()
            invariant
                cs == classes_of(self.state@),
                j <= self.state@.len(),
                forall|k: int| 0 <= k < j ==> #[trigger] cs[k] != (a@, s),
            decreases self.state@.len() - j,
        {
            if self.state[j].1 == s && self.state[j].0.same_names(a) {
                assert(cs[j as int] == (a@, s));
                return true;
            }
            j = j + 1;
        }
        false
    }

    /// Whether every entry of `other` is an entry of `self`.
    fn includes(&self, other: &BlockState) -> (r: bool)
        ensures
            r == other.entries().subset_of(self.entries()),
    {
        let ghost ocs = classes_of(other.state@);
        let mut i: usize = 0;
        while i < other.state.len()
            invariant
                ocs == classes_of(other.state@),
                i <= other.state@.len(),
                forall|k: int| 0 <= k < i ==> self.entries().contains(#[trigger] ocs[k]),
            decreases other.state@.len() - i,
        {
            if !self.has_entry(&other.state[i].0, other.state[i].1) {
                assert(other.entries().contains(ocs[i as int]));
                return false;
            }
            i = i + 1;
        }
        true
    }

    /// Whether every tracked name of `self` is tracked in `other` with a state
    /// at least as high.
    pub fn is_le(&self, other: &BlockState) -> (r: bool)
        requires
            self.wf(),
            other.wf(),
        ensures
            r == shape_le(self@, other@),
    {
        let ghost cs = classes_of(self.state@);
        let mut i: usize = 0;
        while i < self.state.len()
            invariant
                cs == classes_of(self.state@),
                disjoint_classes(cs),
                other.wf(),
                i <= self.state@.len(),
                forall|k: int, x: NameModel| 0 <= k < i && #[trigger] holds(cs, k, x) ==> other@.contains_key(x) && state_le(cs[k].1, other@[x].1),
            decreases self.state@.len() - i,
        {
            let a = &self.state[i].0;
            let s = self.state[i].1;
            let mut p: usize = 0;
            while p < a.set.len()
                invariant
                    cs == classes_of(self.state@),
                    disjoint_classes(cs),
                    i < self.state@.len(),
                    a == &self.state@[i as int].0,
                    s == self.state@[i as int].1,
                    other.wf(),
                    p <= a.set@.len(),
                    forall|q: int| 0 <= q < p ==> other@.contains_key(#[trigger] a.set@[q]@) && state_le(s, other@[a.set@[q]@].1),
                decreases a.set@.len() - p,
            {
                match other.get_allocation(&a.set[p]) {
                    None => {
                        assert(a@.contains(a.set@[p as int]@));
                        assert(holds(cs, i as int, a.set@[p as int]@));
                        proof {
                            lemma_shape_at(cs, i as int, a.set@[p as int]@);
                        }
                        return false;
                    },
                    Some(_) => {},
                }
                let t = other.get_memory_state(&a.set[p]);
                if !s.is_le(&t) {
                    assert(a@.contains(a.set@[p as int]@));
                    assert(holds(cs, i as int, a.set@[p as int]@));
                    proof {
                        lemma_shape_at(cs, i as int, a.set@[p as int]@);
                    }
                    return false;
                }
                p = p + 1;
            }
            assert forall|k: int, x: NameModel| 0 <= k < i + 1 && #[trigger] holds(cs, k, x) implies other@.contains_key(x) && state_le(cs[k].1, other@[x].1) by {
                if k == i {
                    let q = choose|q: int| 0 <= q < a.set@.len() && #[trigger] a.set@[q]@ == x;
                }
            }
            i = i + 1;
        }
        assert forall|n: NameModel| self@.contains_key(n) implies other@.contains_key(n) && state_le(self@[n].1, other@[n].1) by {
            let k = choose|k: int| holds(cs, k, n);
            lemma_shape_at(cs, k, n);
        }
        true
    }

    /// Every name of every class of `self` lies in some class of `other` whose
    /// state is at least as high.
    pub closed spec fn covered_by(&self, other: &BlockState) -> bool {
        forall|i: int, x: NameModel| #[trigger] holds(classes_of(self.state@), i, x) ==> exists|j: int|
            holds(classes_of(other.state@), j, x) && state_le(classes_of(self.state@)[i].1, #[trigger] classes_of(other.state@)[j].1)
    }

    /// For well-formed states, being covered is the order on shapes.
    pub proof fn lemma_covered_by(&self, other: &BlockState)
        requires
            self.wf(),
            other.wf(),
        ensures
            self.covered_by(other) == shape_le(self@, other@),
    {
        let cs = classes_of(self.state@);
        let os = classes_of(other.state@);
        if self.covered_by(other) {
            assert forall|n: NameModel| #[trigger] self@.contains_key(n) implies other@.contains_key(n) && state_le(self@[n].1, other@[n].1) by {
                let i = choose|i: int| holds(cs, i, n);
                lemma_shape_at(cs, i, n);
                let j = choose|j: int| holds(os, j, n) && state_le(cs[i].1, #[trigger] os[j].1);
                lemma_shape_at(os, j, n);
            }
        }
        if shape_le(self@, other@) {
            assert forall|i: int, x: NameModel| #[trigger] holds(cs, i, x) implies exists|j: int|
                holds(os, j, x) && state_le(cs[i].1, #[trigger] os[j].1) by {
                lemma_shape_at(cs, i, x);
                let j = choose|j: int| holds(os, j, x);
                lemma_shape_at(os, j, x);
            }
        }
    }

    fn first_covering(&self, x: &Name, s: MemoryState) -> (r: bool)
        ensures
            r == covered_name(classes_of(self.state@), x@, s),
    {
        let ghost cs = classes_of(self.state@);
        let mut j: usize = 0;
        while j < self.state.len()
            invariant
                cs == classes_of(self.state@),
                j <= self.state@.len(),
                forall|k: int| 0 <= k < j ==> !(holds(cs, k, x@) && state_le(s, #[trigger] cs[k].1)),
            decreases self.state@.len() - j,
        {
            if self.state[j].0.contains(x) && s.is_le(&self.state[j].1) {
                assert(holds(cs, j as int, x@) && state_le(s, cs[j as int].1));
                return true;
            }
            j = j + 1;
        }
        false
    }

    fn is_covered_by(&self, other: &BlockState) -> (r: bool)
        ensures
            r == self.covered_by(other),
    {
        let ghost cs = classes_of(self.state@);
        let ghost os = classes_of(other.state@);
        let mut i: usize = 0;
        while i < self.state.len()
            invariant
                cs == classes_of(self.state@),
                os == classes_of(other.state@),
                i <= self.state@.len(),
                forall|k: int, x: NameModel| 0 <= k < i && #[trigger] holds(cs, k, x) ==> exists|j: int|
                    holds(os, j, x) && state_le(cs[k].1, #[trigger] os[j].1),
            decreases self.state@.len() - i,
        {
            let a = &self.state[i].0;
            let s = self.state[i].1;
            let mut p: usize = 0;
            while p < a.set.len()
                invariant
                    cs == classes_of(self.state@),
                    os == classes_of(other.state@),
                    i < self.state@.len(),
                    a == &self.state@[i as int].0,
                    s == self.state@[i as int].1,
                    p <= a.set@.len(),
                    forall|q: int| 0 <= q < p ==> covered_name(os, #[trigger] a.set@[q]@, s),
                decreases a.set@.len() - p,
            {
                if !other.first_covering(&a.set[p], s) {
                    assert(a@.contains(a.set@[p as int]@));
                    assert(holds(cs, i as int, a.set@[p as int]@));
                    return false;
                }
                p = p + 1;
            }
            assert forall|k: int, x: NameModel| 0 <= k < i + 1 && #[trigger] holds(cs, k, x) implies exists|j: int|
                holds(os, j, x) && state_le(cs[k].1, #[trigger] os[j].1) by {
                if k == i {
                    let q = choose|q: int| 0 <= q < a.set@.len() && #[trigger] a.set@[q]@ == x;
                    assert(covered_name(os, a.set@[q]@, s));
                }
            }
            i = i + 1;
        }
        true
    }
}

/// Clearing a name right after setting it, to any state, leaves the name
/// untracked.
pub proof fn lemma_set_then_clear(m: Shape, v: NameModel, s: MemoryState)
    requires
        shape_wf(m),
    ensures
        !set_tainted_shape(set_tainted_shape(m, v, s), v, MemoryState::Untainted).contains_key(v),
{
    let m1 = set_tainted_shape(m, v, s);
    if m.contains_key(v) {
        assert(m[v].0.contains(v));
    }
    if s != MemoryState::Untainted {
        assert(dot_closure(v).contains(v));
        assert(m1[v].0.contains(v));
    }
}

/// Setting a name to a tainted state gives each of its dotted prefixes that
/// state.
pub proof fn lemma_set_taints_prefixes(m: Shape, v: NameModel, s: MemoryState, p: NameModel)
    requires
        s != MemoryState::Untainted,
        is_dot_prefix(p, v),
    ensures
        state_in(set_tainted_shape(m, v, s), p) == s,
        state_le(MemoryState::Tainted, state_in(set_tainted_shape(m, v, s), p)),
{
    assert(dot_closure(v).contains(p));
}

/// After carrying a tainted state from `from` to `to`, `to` has that state and
/// the two share a class.
pub proof fn lemma_propagate_shares(m: Shape, from: NameModel, to: NameModel)
    requires
        shape_wf(m),
        state_in(m, from) != MemoryState::Untainted,
    ensures
        state_in(propagate_shape(m, from, to), to) == state_in(m, from),
        state_in(propagate_shape(m, from, to), from) == state_in(m, from),
        propagate_shape(m, from, to).contains_key(from),
        propagate_shape(m, from, to).contains_key(to),
        propagate_shape(m, from, to)[from].0 == propagate_shape(m, from, to)[to].0,
        propagate_shape(m, from, to)[to].0.contains(from),
{
    assert(m[from].0.contains(from));
}

/// The order on shapes is transitive.
pub proof fn lemma_shape_le_trans(a: Shape, b: Shape, c: Shape)
    requires
        shape_le(a, b),
        shape_le(b, c),
    ensures
        shape_le(a, c),
{
    assert forall|n: NameModel| #[trigger] a.contains_key(n) implies c.contains_key(n) && state_le(a[n].1, c[n].1) by {
        assert(b.contains_key(n));
        crate::lattice::lemma_state_le_partial_order(a[n].1, b[n].1, c[n].1);
    }
}

/// A join of two shapes without untainted classes has none either.
pub proof fn lemma_union_no_untainted(a: Shape, b: Shape, r: Shape)
    requires
        is_union(a, b, r),
    ensures
        no_untainted(a) && no_untainted(b) ==> no_untainted(r),
{
    if no_untainted(a) && no_untainted(b) {
        assert forall|n: NameModel| #[trigger] r.contains_key(n) implies r[n].1 != MemoryState::Untainted by {
            assert(r[n].0.contains(n));
            if a.contains_key(n) {
                assert(a[n].1 != MemoryState::Untainted);
            } else {
                assert(b[n].1 != MemoryState::Untainted);
            }
        }
    }
}

/// The order on shapes is reflexive.
pub proof fn lemma_shape_le_refl(a: Shape)
    ensures
        shape_le(a, a),
{
}

/// The entries of a well-formed block state are the classes of its shape.
pub proof fn lemma_entries_shape(a: &BlockState)
    requires
        a.wf(),
    ensures
        a.entries() == shape_entries(a@),
{
    a.lemma_entries_shape_inner();
}

/// On well-formed block states, `==` is equality of shapes.
pub proof fn lemma_eq_is_same_shape(a: &BlockState, b: &BlockState)
    requires
        a.wf(),
        b.wf(),
    ensures
        (a.entries() == b.entries()) == (a@ == b@),
{
    lemma_entries_shape(a);
    lemma_entries_shape(b);
    a.lemma_wf();
    b.lemma_wf();
    if a.entries() == b.entries() {
        assert forall|n: NameModel| #[trigger] a@.contains_key(n) implies b@.contains_key(n) && b@[n] == a@[n] by {
            assert(shape_entries(b@).contains(a@[n]));
            let x = choose|x: NameModel| #[trigger] b@.contains_key(x) && b@[x] == a@[n];
            assert(a@[n].0.contains(n));
            assert(b@[x].0.contains(n));
        }
        assert forall|n: NameModel| #[trigger] b@.contains_key(n) implies a@.contains_key(n) by {
            assert(shape_entries(a@).contains(b@[n]));
            let x = choose|x: NameModel| #[trigger] a@.contains_key(x) && a@[x] == b@[n];
            assert(b@[n].0.contains(n));
            assert(a@[x].0.contains(n));
        }
        assert(a@ =~= b@);
    }
}

} // verus!
