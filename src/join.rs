use vstd::prelude::*;
use crate::lattice::{MemoryState, state_le};
use crate::name::NameModel;
use crate::block_state::{Shape, shape_wf, shape_le, state_in, class_in, absorb_names};

verus! {

/// `s` holds, with each of its names, that name's whole class in `a` and in `b`.
pub open spec fn closed_under(s: Set<NameModel>, a: Shape, b: Shape) -> bool {
    forall|x: NameModel| #[trigger] s.contains(x) ==> class_in(a, x).subset_of(s) && class_in(b, x).subset_of(s)
}

/// Every name tracked in `r` is tracked in `a` or in `b`, and back.
pub open spec fn union_domain(a: Shape, b: Shape, r: Shape) -> bool {
    forall|n: NameModel| #[trigger] r.contains_key(n) <==> (a.contains_key(n) || b.contains_key(n))
}

/// Each class of `r` is closed under the classes of `a` and `b`.
pub open spec fn union_closed(a: Shape, b: Shape, r: Shape) -> bool {
    forall|n: NameModel| #[trigger] r.contains_key(n) ==> closed_under(r[n].0, a, b)
}

/// Each class of `r` lies inside every set that holds one of its names and is
/// closed under the classes of `a` and `b`.
pub open spec fn union_minimal(a: Shape, b: Shape, r: Shape) -> bool {
    forall|n: NameModel, s: Set<NameModel>|
        #![trigger r[n].0.subset_of(s)]
        r.contains_key(n) && s.contains(n) && closed_under(s, a, b) ==> r[n].0.subset_of(s)
}

/// The state of each class of `r` is at least the state, in `a` and in `b`, of
/// each of its names.
pub open spec fn union_upper(a: Shape, b: Shape, r: Shape) -> bool {
    forall|n: NameModel, x: NameModel|
        #![trigger r[n].0.contains(x)]
        r.contains_key(n) && r[n].0.contains(x) ==> state_le(state_in(a, x), r[n].1) && state_le(
            state_in(b, x),
            r[n].1,
        )
}

/// `t` bounds the states, in `a` and in `b`, of all the names of `k`.
pub open spec fn bounds_class(a: Shape, b: Shape, k: Set<NameModel>, t: MemoryState) -> bool {
    forall|x: NameModel| #[trigger] k.contains(x) ==> state_le(state_in(a, x), t) && state_le(state_in(b, x), t)
}

/// The state of each class of `r` is below every bound of its names' states.
pub open spec fn union_least(a: Shape, b: Shape, r: Shape) -> bool {
    forall|n: NameModel, t: MemoryState|
        #![trigger bounds_class(a, b, r[n].0, t)]
        r.contains_key(n) && bounds_class(a, b, r[n].0, t) ==> state_le(r[n].1, t)
}

/// `r` is the least upper bound of `a` and `b`: it tracks the names of both;
/// its classes are the smallest sets closed under the classes of both; each
/// class's state is the join of the states, in both, of the class's names.
pub open spec fn is_union(a: Shape, b: Shape, r: Shape) -> bool {
    &&& shape_wf(r)
    &&& union_domain(a, b, r)
    &&& union_closed(a, b, r)
    &&& union_minimal(a, b, r)
    &&& union_upper(a, b, r)
    &&& union_least(a, b, r)
}

/// `b1` is `b` with one more class `c`, in state `s`, of names `b` does not track.
pub open spec fn adds_class(b: Shape, b1: Shape, c: Set<NameModel>, s: MemoryState) -> bool {
    &&& forall|x: NameModel| #[trigger] c.contains(x) ==> !b.contains_key(x) && b1.contains_key(x) && b1[x] == (c, s)
    &&& forall|x: NameModel| !c.contains(x) ==> (#[trigger] b1.contains_key(x) == b.contains_key(x)) && (b.contains_key(x) ==> b1[x] == b[x])
}

/// `k` is `c` together with every class of `r` that meets `c`.
pub open spec fn merged_class(r: Shape, c: Set<NameModel>, k: Set<NameModel>) -> bool {
    forall|x: NameModel| #[trigger] k.contains(x) <==> (c.contains(x) || exists|y: NameModel|
        #[trigger] c.contains(y) && r.contains_key(y) && r[y].0.contains(x))
}

/// `st` is the join of `s` and of the states of the classes of `r` that meet `c`.
pub open spec fn merged_state(r: Shape, c: Set<NameModel>, s: MemoryState, st: MemoryState) -> bool {
    &&& state_le(s, st)
    &&& forall|y: NameModel| #[trigger] c.contains(y) && r.contains_key(y) ==> state_le(r[y].1, st)
    &&& forall|t: MemoryState| state_le(s, t) && (forall|y: NameModel| #[trigger] c.contains(y) && r.contains_key(y) ==> state_le(r[y].1, t)) ==> #[trigger] state_le(st, t)
}

/// Any shape joined with the empty one is itself.
pub proof fn lemma_union_base(a: Shape)
    requires
        shape_wf(a),
    ensures
        is_union(a, Shape::empty(), a),
{
    let e = Shape::empty();
    assert forall|n: NameModel| #[trigger] a.contains_key(n) implies closed_under(a[n].0, a, e) by {
        assert forall|x: NameModel| #[trigger] a[n].0.contains(x) implies class_in(a, x).subset_of(a[n].0) && class_in(e, x).subset_of(a[n].0) by {
            assert(a[n].0.contains(x));
        }
    }
    assert forall|n: NameModel, s: Set<NameModel>| #![trigger a[n].0.subset_of(s)]
        a.contains_key(n) && s.contains(n) && closed_under(s, a, e) implies a[n].0.subset_of(s) by {
        assert(class_in(a, n).subset_of(s));
    }
    assert forall|n: NameModel, x: NameModel| #![trigger a[n].0.contains(x)]
        a.contains_key(n) && a[n].0.contains(x) implies state_le(state_in(a, x), a[n].1) && state_le(state_in(e, x), a[n].1) by {
        assert(a[n].0.contains(x));
    }
    assert forall|n: NameModel, t: MemoryState| #![trigger bounds_class(a, e, a[n].0, t)]
        a.contains_key(n) && bounds_class(a, e, a[n].0, t) implies state_le(a[n].1, t) by {
        assert(a[n].0.contains(n));
    }
}

proof fn lemma_outside_merged(r: Shape, c: Set<NameModel>, k: Set<NameModel>, n: NameModel, x: NameModel)
    requires
        shape_wf(r),
        merged_class(r, c, k),
        r.contains_key(n),
        !k.contains(n),
        r[n].0.contains(x),
    ensures
        !k.contains(x),
        !c.contains(x),
        r.contains_key(x),
        r[x] == r[n],
{
    assert(r[n].0.contains(x));
    assert(r[x].0.contains(n));
    if c.contains(x) {
        assert(k.contains(n));
    }
    if k.contains(x) {
        let y = choose|y: NameModel| #[trigger] c.contains(y) && r.contains_key(y) && r[y].0.contains(x);
        assert(r[y].0.contains(x));
        assert(r[y].0.contains(n));
        assert(k.contains(n));
    }
}

proof fn lemma_inside_merged(r: Shape, c: Set<NameModel>, k: Set<NameModel>, x: NameModel)
    requires
        shape_wf(r),
        merged_class(r, c, k),
        k.contains(x),
        r.contains_key(x),
    ensures
        r[x].0.subset_of(k),
        c.contains(x) || exists|y: NameModel| #[trigger] c.contains(y) && r.contains_key(y) && r[y] == r[x],
{
    if c.contains(x) {
        assert forall|z: NameModel| r[x].0.contains(z) implies k.contains(z) by {
            assert(c.contains(x) && r.contains_key(x) && r[x].0.contains(z));
        }
    } else {
        let y = choose|y: NameModel| #[trigger] c.contains(y) && r.contains_key(y) && r[y].0.contains(x);
        assert(r[y].0.contains(x));
        assert(r[x] == r[y]);
        assert forall|z: NameModel| r[x].0.contains(z) implies k.contains(z) by {
            assert(c.contains(y) && r.contains_key(y) && r[y].0.contains(z));
        }
    }
}

/// Joining one more class of the right operand keeps the running result the
/// least upper bound.
pub proof fn lemma_merge_step(
    a: Shape,
    b: Shape,
    b1: Shape,
    r: Shape,
    c: Set<NameModel>,
    s: MemoryState,
    k: Set<NameModel>,
    st: MemoryState,
)
    requires
        is_union(a, b, r),
        adds_class(b, b1, c, s),
        merged_class(r, c, k),
        merged_state(r, c, s, st),
    ensures
        is_union(a, b1, absorb_names(r, k, st)),
{
    let r1 = absorb_names(r, k, st);
    // well-formed
    assert forall|n: NameModel, z: NameModel| #![trigger r1[n].0.contains(z)]
        r1.contains_key(n) implies r1[n].0.contains(n) && (r1[n].0.contains(z) ==> r1.contains_key(z) && r1[z] == r1[n]) by {
        if !k.contains(n) {
            assert(r[n].0.contains(n));
            assert(r[n].0.difference(k) =~= r[n].0) by {
                assert forall|x: NameModel| r[n].0.contains(x) implies !k.contains(x) by {
                    lemma_outside_merged(r, c, k, n, x);
                }
            }
            if r1[n].0.contains(z) {
                assert(r[n].0.contains(z));
                lemma_outside_merged(r, c, k, n, z);
                assert(r[z].0.difference(k) =~= r[z].0);
            }
        }
    }
    // domain
    assert forall|n: NameModel| #[trigger] r1.contains_key(n) <==> (a.contains_key(n) || b1.contains_key(n)) by {
        if k.contains(n) && !r.contains_key(n) && !c.contains(n) {
            let y = choose|y: NameModel| #[trigger] c.contains(y) && r.contains_key(y) && r[y].0.contains(n);
            assert(r[y].0.contains(n));
        }
        if b1.contains_key(n) && !c.contains(n) {
            assert(b.contains_key(n));
        }
    }
    // closed
    assert forall|n: NameModel| #[trigger] r1.contains_key(n) implies closed_under(r1[n].0, a, b1) by {
        assert forall|x: NameModel| #[trigger] r1[n].0.contains(x) implies class_in(a, x).subset_of(r1[n].0) && class_in(b1, x).subset_of(r1[n].0) by {
            if k.contains(n) {
                if r.contains_key(x) {
                    lemma_inside_merged(r, c, k, x);
                    assert(r[x].0.contains(x));
                    assert(closed_under(r[x].0, a, b));
                    assert(class_in(a, x).subset_of(r[x].0));
                    if !c.contains(x) {
                        assert(class_in(b, x).subset_of(r[x].0));
                    }
                } else {
                    if !c.contains(x) {
                        let y = choose|y: NameModel| #[trigger] c.contains(y) && r.contains_key(y) && r[y].0.contains(x);
                        assert(r[y].0.contains(x));
                    }
                    assert(!a.contains_key(x));
                }
            } else {
                assert(r[n].0.contains(x));
                lemma_outside_merged(r, c, k, n, x);
                assert(r[n].0.difference(k) =~= r[n].0) by {
                    assert forall|z: NameModel| r[n].0.contains(z) implies !k.contains(z) by {
                        lemma_outside_merged(r, c, k, n, z);
                    }
                }
                assert(closed_under(r[n].0, a, b));
            }
        }
    }
    // minimal
    assert forall|n: NameModel, ss: Set<NameModel>| #![trigger r1[n].0.subset_of(ss)]
        r1.contains_key(n) && ss.contains(n) && closed_under(ss, a, b1) implies r1[n].0.subset_of(ss) by {
        assert(closed_under(ss, a, b)) by {
            assert forall|x: NameModel| #[trigger] ss.contains(x) implies class_in(a, x).subset_of(ss) && class_in(b, x).subset_of(ss) by {
                if c.contains(x) {
                    assert(!b.contains_key(x));
                }
            }
        }
        if k.contains(n) {
            // some name of c lies in ss
            let y0 = if c.contains(n) {
                n
            } else {
                let y = choose|y: NameModel| #[trigger] c.contains(y) && r.contains_key(y) && r[y].0.contains(n);
                assert(r[y].0.contains(n));
                assert(r[n] == r[y]);
                assert(r[n].0.subset_of(ss));
                assert(r[y].0.contains(y));
                y
            };
            assert(c.contains(y0) && ss.contains(y0));
            assert(class_in(b1, y0) == c);
            assert(c.subset_of(ss));
            assert forall|x: NameModel| k.contains(x) implies ss.contains(x) by {
                if !c.contains(x) {
                    let y = choose|y: NameModel| #[trigger] c.contains(y) && r.contains_key(y) && r[y].0.contains(x);
                    assert(ss.contains(y));
                    assert(r[y].0.subset_of(ss));
                }
            }
        } else {
            assert(r[n].0.subset_of(ss));
        }
    }
    // upper
    assert forall|n: NameModel, x: NameModel| #![trigger r1[n].0.contains(x)]
        r1.contains_key(n) && r1[n].0.contains(x) implies state_le(state_in(a, x), r1[n].1) && state_le(state_in(b1, x), r1[n].1) by {
        if k.contains(n) {
            if c.contains(x) {
                if r.contains_key(x) {
                    assert(r[x].0.contains(x));
                    assert(state_le(r[x].1, st));
                }
            } else {
                let y = choose|y: NameModel| #[trigger] c.contains(y) && r.contains_key(y) && r[y].0.contains(x);
                assert(r[y].0.contains(x));
                assert(state_le(r[y].1, st));
            }
        } else {
            assert(r[n].0.contains(x));
            lemma_outside_merged(r, c, k, n, x);
        }
    }
    // least
    assert forall|n: NameModel, t: MemoryState| #![trigger bounds_class(a, b1, r1[n].0, t)]
        r1.contains_key(n) && bounds_class(a, b1, r1[n].0, t) implies state_le(r1[n].1, t) by {
        if k.contains(n) {
            let y0 = if c.contains(n) {
                n
            } else {
                let y = choose|y: NameModel| #[trigger] c.contains(y) && r.contains_key(y) && r[y].0.contains(n);
                y
            };
            assert(k.contains(y0));
            assert(state_le(s, t));
            assert forall|y: NameModel| #[trigger] c.contains(y) && r.contains_key(y) implies state_le(r[y].1, t) by {
                assert(bounds_class(a, b, r[y].0, t)) by {
                    assert forall|x: NameModel| #[trigger] r[y].0.contains(x) implies state_le(state_in(a, x), t) && state_le(state_in(b, x), t) by {
                        assert(c.contains(y) && r.contains_key(y) && r[y].0.contains(x));
                        assert(k.contains(x));
                        if c.contains(x) {
                            assert(!b.contains_key(x));
                        }
                    }
                }
            }
        } else {
            assert(bounds_class(a, b, r[n].0, t)) by {
                assert forall|x: NameModel| #[trigger] r[n].0.contains(x) implies state_le(state_in(a, x), t) && state_le(state_in(b, x), t) by {
                    lemma_outside_merged(r, c, k, n, x);
                    assert(r[n].0.difference(k).contains(x));
                }
            }
        }
    }
}

/// The join lies above both of its operands.
pub proof fn lemma_union_above(a: Shape, b: Shape, r: Shape)
    requires
        is_union(a, b, r),
    ensures
        shape_le(a, r),
        shape_le(b, r),
{
    assert forall|n: NameModel| #[trigger] a.contains_key(n) implies r.contains_key(n) && state_le(a[n].1, r[n].1) by {
        assert(r[n].0.contains(n));
    }
    assert forall|n: NameModel| #[trigger] b.contains_key(n) implies r.contains_key(n) && state_le(b[n].1, r[n].1) by {
        assert(r[n].0.contains(n));
    }
}

/// There is one least upper bound of two shapes.
pub proof fn lemma_union_unique(a: Shape, b: Shape, r1: Shape, r2: Shape)
    requires
        is_union(a, b, r1),
        is_union(a, b, r2),
    ensures
        r1 == r2,
{
    assert forall|n: NameModel| #[trigger] r1.contains_key(n) implies r2.contains_key(n) && r1[n] == r2[n] by {
        assert(r2.contains_key(n));
        assert(r1[n].0.contains(n));
        assert(r2[n].0.contains(n));
        assert(closed_under(r2[n].0, a, b));
        assert(closed_under(r1[n].0, a, b));
        assert(r1[n].0.subset_of(r2[n].0));
        assert(r2[n].0.subset_of(r1[n].0));
        assert(r1[n].0 =~= r2[n].0);
        assert(bounds_class(a, b, r1[n].0, r2[n].1)) by {
            assert forall|x: NameModel| #[trigger] r1[n].0.contains(x) implies state_le(state_in(a, x), r2[n].1) && state_le(state_in(b, x), r2[n].1) by {
                assert(r2[n].0.contains(x));
            }
        }
        assert(bounds_class(a, b, r2[n].0, r1[n].1)) by {
            assert forall|x: NameModel| #[trigger] r2[n].0.contains(x) implies state_le(state_in(a, x), r1[n].1) && state_le(state_in(b, x), r1[n].1) by {
                assert(r1[n].0.contains(x));
            }
        }
        assert(state_le(r1[n].1, r2[n].1));
        assert(state_le(r2[n].1, r1[n].1));
        crate::lattice::lemma_state_le_partial_order(r1[n].1, r2[n].1, r1[n].1);
    }
    assert forall|n: NameModel| #[trigger] r2.contains_key(n) implies r1.contains_key(n) by {}
    assert(r1 =~= r2);
}

/// The least upper bound of two shapes.
pub open spec fn union_shape(a: Shape, b: Shape) -> Shape {
    choose|r: Shape| is_union(a, b, r)
}

/// A shape that is the least upper bound of `a` and `b` is `union_shape(a, b)`.
pub proof fn lemma_union_shape(a: Shape, b: Shape, r: Shape)
    requires
        is_union(a, b, r),
    ensures
        union_shape(a, b) == r,
{
    lemma_union_unique(a, b, union_shape(a, b), r);
}

} // verus!
