use vstd::prelude::*;

verus! {

/// The mathematical value of a [`Name`].
pub enum NameModel {
    Text(Seq<char>),
    Number(usize),
}

/// An SSA value's identifier: a textual name or a sequence number.
#[derive(Debug, Hash)]
pub enum Name {
    Name(String),
    Number(usize),
}

impl View for Name {
    type V = NameModel;

    open spec fn view(&self) -> NameModel {
        match self {
            Name::Name(s) => NameModel::Text(s@),
            Name::Number(n) => NameModel::Number(*n),
        }
    }
}

impl Clone for Name {
    fn clone(&self) -> (r: Name)
        ensures
            r == *self,
    {
        match self {
            Name::Name(s) => Name::Name(s.clone()),
            Name::Number(n) => Name::Number(*n),
        }
    }
}

impl PartialEq for Name {
    fn eq(&self, other: &Name) -> (r: bool)
        ensures
            r == (self@ == other@),
    {
        match (self, other) {
            (Name::Name(a), Name::Name(b)) => *a == *b,
            (Name::Number(a), Name::Number(b)) => *a == *b,
            _ => false,
        }
    }
}

impl vstd::std_specs::cmp::PartialEqSpecImpl for Name {
    open spec fn obeys_eq_spec() -> bool {
        true
    }

    open spec fn eq_spec(&self, other: &Name) -> bool {
        self@ == other@
    }
}

impl Eq for Name {

}

/// `p` is a dot-delimited prefix of `v`: `a` and `a.b` of `a.b.c`.
pub open spec fn is_dot_prefix(p: NameModel, v: NameModel) -> bool {
    match (p, v) {
        (NameModel::Text(q), NameModel::Text(t)) => q.len() < t.len() && q == t.subrange(
            0,
            q.len() as int,
        ) && t[q.len() as int] == '.',
        _ => false,
    }
}

/// A name together with all of its dot-delimited prefixes; a number stands alone.
pub open spec fn dot_closure(v: NameModel) -> Set<NameModel> {
    Set::new(|p: NameModel| p == v || is_dot_prefix(p, v))
}

/// A name together with all of its dot-delimited prefixes (`a.b.c`, `a.b`, `a`).
pub fn dotted_prefixes(v: &Name) -> (r: Vec<Name>)
    ensures
        forall|p: NameModel| dot_closure(v@).contains(p) <==> exists|i: int|
            0 <= i < r@.len() && #[trigger] r@[i]@ == p,
{
    match v {
        Name::Number(n) => {
            let r = vec![Name::Number(*n)];
            assert(r@[0]@ == v@);
            r
        },
        Name::Name(s) => {
            let t = s.as_str();
            let len = t.unicode_len();
            let mut r: Vec<Name> = Vec::new();
            let mut i: usize = 0;
            while i < len
                invariant
                    len == t@.len(),
                    t@ == s@,
                    v@ == NameModel::Text(s@),
                    i <= len,
                    forall|k: int| 0 <= k < r@.len() ==> is_dot_prefix(#[trigger] r@[k]@, v@),
                    forall|j: int|
                        0 <= j < i && t@[j] == '.' ==> exists|k: int|
                            0 <= k < r@.len() && #[trigger] r@[k]@ == NameModel::Text(
                                t@.subrange(0, j),
                            ),
                decreases len - i,
            {
                let c = t.get_char(i);
                if c == '.' {
                    let p = t.substring_char(0, i).to_owned();
                    assert(is_dot_prefix(NameModel::Text(p@), v@));
                    let ghost old_r = r@;
                    r.push(Name::Name(p));
                    proof {
                        assert(r@[r@.len() - 1]@ == NameModel::Text(t@.subrange(0, i as int)));
                        assert forall|j: int|
                            0 <= j < i + 1 && t@[j] == '.' implies exists|k: int|
                            0 <= k < r@.len() && #[trigger] r@[k]@ == NameModel::Text(
                                t@.subrange(0, j),
                            ) by {
                            if j < i {
                                let k = choose|k: int|
                                    0 <= k < old_r.len() && #[trigger] old_r[k]@
                                        == NameModel::Text(t@.subrange(0, j));
                                assert(r@[k] == old_r[k]);
                            } else {
                                assert(r@[r@.len() - 1]@ == NameModel::Text(t@.subrange(0, j)));
                            }
                        }
                    }
                }
                i = i + 1;
            }
            let ghost before = r@;
            r.push(Name::Name(s.clone()));
            proof {
                assert(r@[r@.len() - 1]@ == v@);
                assert forall|p: NameModel| dot_closure(v@).contains(p) implies exists|i: int|
                    0 <= i < r@.len() && #[trigger] r@[i]@ == p by {
                    if p != v@ {
                        let q = p->Text_0;
                        let j = q.len() as int;
                        assert(t@[j] == '.');
                        assert(q == t@.subrange(0, j));
                        let k = choose|k: int|
                            0 <= k < before.len() && #[trigger] before[k]@ == NameModel::Text(
                                t@.subrange(0, j),
                            );
                        assert(r@[k] == before[k]);
                    }
                }
                assert forall|p: NameModel|
                    (exists|i: int| 0 <= i < r@.len() && #[trigger] r@[i]@ == p) implies dot_closure(
                    v@,
                ).contains(p) by {
                    let k = choose|k: int| 0 <= k < r@.len() && #[trigger] r@[k]@ == p;
                    if k < before.len() {
                        assert(r@[k] == before[k]);
                    }
                }
            }
            r
        },
    }
}

} // verus!
