use vstd::prelude::*;
use crate::value::{Name, Value, RuntimeError};

verus! {

/// The variables of one activation, as a list of bindings with distinct names.
pub struct Locals {
    vars: Vec<(Name, Value)>,
}

/// The map that a list of bindings with distinct names stands for.
pub open spec fn map_of(s: Seq<(Name, Value)>) -> Map<Name, Value> {
    Map::new(
        |k: Name| exists|i: int| 0 <= i < s.len() && s[i].0 == k,
        |k: Name| s[choose|i: int| 0 <= i < s.len() && s[i].0 == k].1,
    )
}

pub open spec fn distinct_names(s: Seq<(Name, Value)>) -> bool {
    forall|i: int, j: int| 0 <= i < s.len() && 0 <= j < s.len() && i != j ==> s[i].0 != s[j].0
}

/// In a list with distinct names, the binding at `i` is what the map holds.
pub proof fn lemma_map_of_at(s: Seq<(Name, Value)>, i: int)
    requires
        distinct_names(s),
        0 <= i < s.len(),
    ensures
        map_of(s).contains_key(s[i].0),
        map_of(s)[s[i].0] == s[i].1,
{
    let k = s[i].0;
    assert(exists|j: int| 0 <= j < s.len() && s[j].0 == k);
    let c = choose|j: int| 0 <= j < s.len() && s[j].0 == k;
    assert(c == i);
}

/// Lists with the same name at each position stand for maps with one domain.
pub proof fn lemma_same_names(e0: Seq<(Name, Value)>, e1: Seq<(Name, Value)>)
    requires
        e0.len() == e1.len(),
        forall|i: int| 0 <= i < e0.len() ==> #[trigger] e1[i].0 == e0[i].0,
    ensures
        map_of(e1).dom() == map_of(e0).dom(),
        distinct_names(e0) ==> distinct_names(e1),
{
    assert forall|k: Name| #[trigger] map_of(e1).contains_key(k) == map_of(e0).contains_key(k) by {
        if map_of(e1).contains_key(k) {
            let i = choose|i: int| 0 <= i < e1.len() && e1[i].0 == k;
            assert(e0[i].0 == k);
        }
        if map_of(e0).contains_key(k) {
            let i = choose|i: int| 0 <= i < e0.len() && e0[i].0 == k;
            assert(e1[i].0 == k);
        }
    }
    assert(map_of(e1).dom() =~= map_of(e0).dom());
}

impl View for Locals {
    type V = Map<Name, Value>;

    closed spec fn view(&self) -> Map<Name, Value> {
        map_of(self.vars@)
    }
}

impl Locals {
    /// The bindings, in the order in which they were made.
    pub closed spec fn entries(&self) -> Seq<(Name, Value)> {
        self.vars@
    }

    pub open spec fn wf(&self) -> bool {
        distinct_names(self.entries())
    }

    pub proof fn lemma_view(&self)
        ensures
            self@ == map_of(self.entries()),
    {
    }

    pub fn new() -> (r: Locals)
        ensures
            r.wf(),
            r.entries().len() == 0,
            r@ == Map::<Name, Value>::empty(),
    {
        let r = Locals { vars: Vec::new() };
        assert(r@ =~= Map::<Name, Value>::empty());
        r
    }

    pub fn len(&self) -> (r: usize)
        ensures
            r == self.entries().len(),
    {
        self.vars.len()
    }

    pub fn entry(&self, j: usize) -> (r: (Name, Value))
        requires
            j < self.entries().len(),
        ensures
            r == self.entries()[j as int],
    {
        self.vars[j]
    }

    /// Gives the binding at position `j` a new value, under the same name.
    pub fn set_value_at(&mut self, j: usize, v: Value)
        requires
            j < old(self).entries().len(),
        ensures
            final(self).entries() == old(self).entries().update(
                j as int,
                (old(self).entries()[j as int].0, v),
            ),
    {
        let nm = self.vars[j].0;
        self.vars.set(j, (nm, v));
    }

    /// Where `x` is bound, if it is.
    fn find(&self, x: Name) -> (r: Option<usize>)
        requires
            self.wf(),
        ensures
            match r {
                Some(j) => j < self.entries().len() && self.entries()[j as int].0 == x,
                None => !self@.contains_key(x),
            },
    {
        let mut j: usize = 0;
        while j < self.vars.len()
            invariant
                j <= self.vars@.len(),
                forall|i: int| 0 <= i < j ==> self.vars@[i].0 != x,
            decreases self.vars@.len() - j,
        {
            if self.vars[j].0 == x {
                return Some(j);
            }
            j = j + 1;
        }
        None
    }
}

/// The value of variable `v`.
pub fn read_var(l: &Locals, v: Name) -> (r: Result<Value, RuntimeError>)
    requires
        l.wf(),
    ensures
        r == (if l@.contains_key(v) {
            Ok(l@[v])
        } else {
            Err(RuntimeError::UninitializedVariable { name: v })
        }),
{
    match l.find(v) {
        Some(j) => {
            proof {
                lemma_map_of_at(l.vars@, j as int);
            }
            Ok(l.vars[j].1)
        },
        None => Err(RuntimeError::UninitializedVariable { name: v }),
    }
}

/// Binds `x` to `val`, replacing an earlier binding of `x`.
pub fn set_var(l: &mut Locals, x: Name, val: Value) -> (r: Result<(), RuntimeError>)
    requires
        old(l).wf(),
    ensures
        r is Ok,
        final(l).wf(),
        final(l)@ == old(l)@.insert(x, val),
{
    let ghost s0 = l.vars@;
    match l.find(x) {
        Some(j) => {
            l.vars.set(j, (x, val));
            proof {
                let s1 = l.vars@;
                assert forall|k: Name| #[trigger] map_of(s1).contains_key(k) == old(l)@.insert(
                    x,
                    val,
                ).contains_key(k) by {
                    if map_of(s1).contains_key(k) {
                        let i = choose|i: int| 0 <= i < s1.len() && s1[i].0 == k;
                        assert(s0[i].0 == k || i == j);
                    } else if k != x && map_of(s0).contains_key(k) {
                        let i = choose|i: int| 0 <= i < s0.len() && s0[i].0 == k;
                        assert(s1[i].0 == k);
                    }
                    if k == x {
                        assert(s1[j as int].0 == k);
                    }
                }
                assert forall|k: Name| #[trigger] map_of(s1).contains_key(k) implies map_of(s1)[k]
                    == old(l)@.insert(x, val)[k] by {
                    let i = choose|i: int| 0 <= i < s1.len() && s1[i].0 == k;
                    assert(distinct_names(s1));
                    lemma_map_of_at(s1, i);
                    if k != x {
                        lemma_map_of_at(s0, i);
                    }
                }
                assert(map_of(s1) =~= old(l)@.insert(x, val));
            }
        },
        None => {
            l.vars.push((x, val));
            proof {
                let s1 = l.vars@;
                assert(s1 == s0.push((x, val)));
                assert(forall|i: int| 0 <= i < s0.len() ==> s1[i] == s0[i]);
                assert(distinct_names(s1)) by {
                    assert forall|i: int| 0 <= i < s0.len() implies s0[i].0 != x by {
                        if s0[i].0 == x {
                            assert(map_of(s0).contains_key(x));
                        }
                    }
                }
                assert forall|k: Name| #[trigger] map_of(s1).contains_key(k) == old(l)@.insert(
                    x,
                    val,
                ).contains_key(k) by {
                    if map_of(s1).contains_key(k) {
                        let i = choose|i: int| 0 <= i < s1.len() && s1[i].0 == k;
                        if i < s0.len() {
                            assert(s0[i].0 == k);
                        }
                    } else if k != x && map_of(s0).contains_key(k) {
                        let i = choose|i: int| 0 <= i < s0.len() && s0[i].0 == k;
                        assert(s1[i].0 == k);
                    }
                    if k == x {
                        assert(s1[s0.len() as int].0 == k);
                        assert(map_of(s1).contains_key(k));
                    }
                }
                assert forall|k: Name| #[trigger] map_of(s1).contains_key(k) implies map_of(s1)[k]
                    == old(l)@.insert(x, val)[k] by {
                    let i = choose|i: int| 0 <= i < s1.len() && s1[i].0 == k;
                    lemma_map_of_at(s1, i);
                    if i < s0.len() {
                        lemma_map_of_at(s0, i);
                    }
                }
                assert(map_of(s1) =~= old(l)@.insert(x, val));
            }
        },
    }
    Ok(())
}

} // verus!
