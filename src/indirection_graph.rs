use vstd::prelude::*;
use crate::graph::{ExtendableGraph, Graph};

verus! {

/// The weight of the last arc to `u` in the arc list `s`, if any.
pub open spec fn last_arc<E>(s: Seq<(E, usize)>, u: int) -> Option<E>
    decreases s.len(),
{
    if s.len() == 0 {
        None
    } else if s.last().1 == u {
        Some(s.last().0)
    } else {
        last_arc(s.drop_last(), u)
    }
}

/// An arc list has an arc to `u` exactly when some entry targets `u`.
pub proof fn lemma_last_arc_some<E>(s: Seq<(E, usize)>, u: int)
    ensures
        last_arc(s, u) is Some <==> exists|k: int| 0 <= k < s.len() && s[k].1 == u,
    decreases s.len(),
{
    if s.len() > 0 {
        lemma_last_arc_some(s.drop_last(), u);
        if exists|k: int| 0 <= k < s.len() && s[k].1 == u {
            let k = choose|k: int| 0 <= k < s.len() && s[k].1 == u;
            if k < s.len() - 1 {
                assert(s.drop_last()[k].1 == u);
            }
        }
        if exists|k: int| 0 <= k < s.drop_last().len() && s.drop_last()[k].1 == u {
            let k = choose|k: int| 0 <= k < s.drop_last().len() && s.drop_last()[k].1 == u;
            assert(s[k].1 == u);
        }
    }
}

/// Appending an arc to `w` makes it the last arc to `w` and leaves the
/// other targets alone.
pub proof fn lemma_last_arc_push<E>(s: Seq<(E, usize)>, e: E, w: usize, u: int)
    ensures
        last_arc(s.push((e, w)), u) == if w == u { Some(e) } else { last_arc(s, u) },
{
    assert(s.push((e, w)).drop_last() =~= s);
}

/// A graph stored as one arc list per vertex; an arc names its target by
/// vertex id, and when several arcs join the same two vertices the last one
/// added is the one that counts.
pub struct IndirectionGraph<V, E> {
    start: Option<usize>,
    labels: Vec<V>,
    nodes: Vec<Vec<(E, usize)>>,
}

impl<V, E> IndirectionGraph<V, E> {
    /// The arc list of vertex `v`.
    pub closed spec fn arcs_of(&self, v: int) -> Seq<(E, usize)> {
        self.nodes@[v]@
    }

    /// A graph with no vertices and no first vertex.
    pub fn new() -> (r: Self)
        ensures
            r.wf(),
            r.labels() == Seq::<V>::empty(),
            r.first() is None,
    {
        IndirectionGraph { start: None, labels: Vec::new(), nodes: Vec::new() }
    }
}

impl<V: PartialEq, E> IndirectionGraph<V, E> {
    /// The id of the vertex labelled `w`, if there is one.
    fn find(&self, w: &V) -> (r: Option<usize>)
        requires
            vstd::laws_eq::obeys_concrete_eq::<V>(),
        ensures
            r is None <==> !self.labels@.contains(*w),
            r matches Some(i) ==> i < self.labels@.len() && self.labels@[i as int] == *w,
    {
        let mut k: usize = 0;
        while k < self.labels.len()
            invariant
                k <= self.labels@.len(),
                vstd::laws_eq::obeys_concrete_eq::<V>(),
                forall|q: int| 0 <= q < k ==> self.labels@[q] != *w,
            decreases self.labels@.len() - k,
        {
            let same = self.labels[k] == *w;
            proof {
                reveal(vstd::laws_eq::obeys_concrete_eq);
                assert(same == (self.labels@[k as int] == *w));
            }
            if same {
                return Some(k);
            }
            k = k + 1;
        }
        None
    }

    /// The id of the vertex labelled `w`, adding such a vertex, with no
    /// arcs, when there is none.
    fn ensure_vertex(&mut self, w: V) -> (r: usize)
        requires
            old(self).wf(),
            vstd::laws_eq::obeys_concrete_eq::<V>(),
        ensures
            final(self).wf(),
            final(self).start == old(self).start,
            final(self).labels@ == if old(self).labels@.contains(w) {
                old(self).labels@
            } else {
                old(self).labels@.push(w)
            },
            r < final(self).labels@.len(),
            final(self).labels@[r as int] == w,
            forall|v: int| 0 <= v < old(self).labels@.len() ==> #[trigger] final(self).arcs_of(v) == old(self).arcs_of(v),
            r >= old(self).labels@.len() ==> final(self).arcs_of(r as int).len() == 0,
    {
        match self.find(&w) {
            Some(i) => i,
            None => {
                let i = self.labels.len();
                self.labels.push(w);
                self.nodes.push(Vec::new());
                proof {
                    assert(self.arcs_of(i as int) =~= Seq::<(E, usize)>::empty());
                    assert forall|a: int, b: int|
                        0 <= a < self.labels@.len() && 0 <= b < self.labels@.len() && a != b
                            implies self.labels@[a] != self.labels@[b] by {
                        if a == i as int {
                            assert(old(self).labels@[b] == self.labels@[b]);
                        } else if b == i as int {
                            assert(old(self).labels@[a] == self.labels@[a]);
                        }
                    }
                    assert forall|v: int, k: int|
                        0 <= v < self.labels@.len() && 0 <= k < self.arcs_of(v).len()
                            implies #[trigger] self.arcs_of(v)[k].1 < self.labels@.len() by {
                        if v < i {
                            assert(self.arcs_of(v) == old(self).arcs_of(v));
                        }
                    }
                }
                i
            },
        }
    }
}

impl<V: Copy + PartialEq, E> IndirectionGraph<V, E> {
    /// Makes the vertex labelled `*v` the first vertex, adding it when it is
    /// not yet there.
    pub fn with_start(self, v: &V) -> (r: Self)
        requires
            self.wf(),
            self.first() is None,
            vstd::laws_eq::obeys_concrete_eq::<V>(),
        ensures
            r.wf(),
            r.labels() == if self.labels().contains(*v) {
                self.labels()
            } else {
                self.labels().push(*v)
            },
            r.first() matches Some(s) && r.labels()[s] == *v,
            forall|a: int, b: int|
                0 <= a < r.labels().len() && 0 <= b < r.labels().len()
                    ==> #[trigger] r.arc(a, b) == if a < self.labels().len() && b < self.labels().len() {
                        self.arc(a, b)
                    } else {
                        None
                    },
    {
        let mut g = self;
        let i = g.ensure_vertex(*v);
        let ghost mid = g;
        g.start = Some(i);
        proof {
            assert forall|a: int| 0 <= a < g.labels@.len() implies #[trigger] g.arcs_of(a) == mid.arcs_of(a) by {
                assert(g.nodes@[a] == mid.nodes@[a]);
            }
            assert(mid.wf());
            assert forall|a: int, b: int|
                0 <= a < g.labels().len() && 0 <= b < g.labels().len()
                    implies #[trigger] g.arc(a, b) == if a < self.labels().len() && b < self.labels().len() {
                        self.arc(a, b)
                    } else {
                        None
                    } by {
                if a < self.labels().len() {
                    assert(mid.arcs_of(a) == self.arcs_of(a));
                    if b >= self.labels().len() {
                        lemma_last_arc_some(self.arcs_of(a), b);
                        if exists|k: int| 0 <= k < self.arcs_of(a).len() && self.arcs_of(a)[k].1 == b {
                            let k = choose|k: int| 0 <= k < self.arcs_of(a).len() && self.arcs_of(a)[k].1 == b;
                            assert(self.arcs_of(a)[k].1 < self.labels@.len());
                        }
                    }
                } else {
                    assert(a == i);
                }
            }
        }
        g
    }

    /// Adds the arc `*v -> *u` with weight `e`, as `push_edge` does.
    pub fn with_edge(self, v: &V, u: &V, e: E) -> (r: Self)
        requires
            self.wf(),
            vstd::laws_eq::obeys_concrete_eq::<V>(),
        ensures
            r.wf(),
            r.first() == self.first(),
            self.labels().is_prefix_of(r.labels()),
            r.labels().contains(*v),
            r.labels().contains(*u),
            forall|w: V| #[trigger] r.labels().contains(w) ==> self.labels().contains(w) || w == *v || w == *u,
            forall|a: int, b: int|
                0 <= a < r.labels().len() && 0 <= b < r.labels().len()
                    ==> #[trigger] r.arc(a, b) == if r.labels()[a] == *v && r.labels()[b] == *u {
                        Some(e)
                    } else if a < self.labels().len() && b < self.labels().len() {
                        self.arc(a, b)
                    } else {
                        None
                    },
    {
        let mut g = self;
        g.push_edge(*v, *u, e);
        g
    }
}

impl<V: PartialEq, E> ExtendableGraph<V, E> for IndirectionGraph<V, E> {
    fn push_edge(&mut self, v: V, u: V, e: E) {
        let ghost pre = *self;
        let iu = self.ensure_vertex(u);
        let iv = self.ensure_vertex(v);
        let ghost mid = *self;
        let ghost before = self.arcs_of(iv as int);
        self.nodes[iv].push((e, iu));
        proof {
            let n = self.labels@.len();
            assert(self.labels@ == mid.labels@);
            assert(self.arcs_of(iv as int) == before.push((e, iu)));
            assert forall|a: int| 0 <= a < n && a != iv implies #[trigger] self.arcs_of(a) == mid.arcs_of(a) by {
                assert(self.nodes@[a] == mid.nodes@[a]);
            }
            assert(pre.labels@.is_prefix_of(self.labels@));
            assert(iv >= pre.labels@.len() ==> before.len() == 0);
            assert forall|a: int, b: int|
                0 <= a < n && 0 <= b < n && a != b implies self.labels@[a] != self.labels@[b] by {
                assert(mid.wf());
            }
            assert forall|w: int, k: int|
                0 <= w < n && 0 <= k < self.arcs_of(w).len() implies #[trigger] self.arcs_of(w)[k].1 < n by {
                if w == iv as int {
                    if k < before.len() {
                        assert(self.arcs_of(w)[k] == before[k]);
                        assert(mid.arcs_of(w)[k].1 < n);
                    }
                } else {
                    assert(mid.arcs_of(w)[k].1 < n);
                }
            }
            assert(self.wf());
            assert(self.labels().contains(v)) by {
                assert(self.labels@[iv as int] == v);
            }
            assert(self.labels().contains(u)) by {
                assert(self.labels@[iu as int] == u);
            }
            assert forall|a: int, b: int|
                0 <= a < n && 0 <= b < n
                    implies #[trigger] self.arc(a, b) == if self.labels()[a] == v && self.labels()[b] == u {
                        Some(e)
                    } else if a < pre.labels().len() && b < pre.labels().len() {
                        pre.arc(a, b)
                    } else {
                        None
                    } by {
                assert(self.labels()[a] == v <==> a == iv);
                assert(self.labels()[b] == u <==> b == iu);
                let old_arcs = if a == iv { before } else { mid.arcs_of(a) };
                if a == iv {
                    lemma_last_arc_push(before, e, iu, b);
                }
                if a < pre.labels@.len() {
                    assert(old_arcs == pre.arcs_of(a));
                    if b >= pre.labels@.len() {
                        lemma_last_arc_some(old_arcs, b);
                        if exists|k: int| 0 <= k < old_arcs.len() && old_arcs[k].1 == b {
                            let k = choose|k: int| 0 <= k < old_arcs.len() && old_arcs[k].1 == b;
                            assert(pre.arcs_of(a)[k].1 < pre.labels@.len());
                        }
                    }
                } else {
                    assert(old_arcs.len() == 0);
                }
            }
        }
    }
}

impl<V, E> Graph<V, E> for IndirectionGraph<V, E> {
    /// Each vertex has an arc list, labels are distinct, the first vertex
    /// and every arc target are vertices.
    closed spec fn wf(&self) -> bool {
        &&& self.nodes@.len() == self.labels@.len()
        &&& forall|a: int, b: int|
            0 <= a < self.labels@.len() && 0 <= b < self.labels@.len() && a != b
                ==> self.labels@[a] != self.labels@[b]
        &&& self.start matches Some(s) ==> s < self.labels@.len()
        &&& forall|v: int, k: int|
            0 <= v < self.labels@.len() && 0 <= k < self.arcs_of(v).len()
                ==> #[trigger] self.arcs_of(v)[k].1 < self.labels@.len()
    }

    closed spec fn labels(&self) -> Seq<V> {
        self.labels@
    }

    closed spec fn arc(&self, v: int, u: int) -> Option<E> {
        last_arc(self.arcs_of(v), u)
    }

    closed spec fn first(&self) -> Option<int> {
        match self.start {
            Some(s) => Some(s as int),
            None => None,
        }
    }

    fn get_neighbours(&self, v: usize) -> (r: Vec<usize>) {
        let arcs = &self.nodes[v];
        let mut n: Vec<usize> = Vec::new();
        let mut k: usize = 0;
        while k < arcs.len()
            invariant
                arcs@ == self.arcs_of(v as int),
                k <= arcs@.len(),
                forall|u: usize| n@.contains(u) <==> exists|q: int| 0 <= q < k && arcs@[q].1 == u,
            decreases arcs@.len() - k,
        {
            let ghost before = n@;
            let w = arcs[k].1;
            n.push(w);
            proof {
                assert forall|u: usize|
                    n@.contains(u) <==> exists|q: int| 0 <= q < k + 1 && arcs@[q].1 == u by {
                    if u == w {
                        assert(n@[before.len() as int] == u);
                    }
                    if before.contains(u) {
                        let q = choose|q: int| 0 <= q < before.len() && before[q] == u;
                        assert(n@[q] == u);
                    }
                    if n@.contains(u) && u != w {
                        let q = choose|q: int| 0 <= q < n@.len() && n@[q] == u;
                        assert(before[q] == u);
                    }
                    if exists|q: int| 0 <= q < k + 1 && arcs@[q].1 == u {
                        let q = choose|q: int| 0 <= q < k + 1 && arcs@[q].1 == u;
                        if q < k {
                            assert(exists|q: int| 0 <= q < k && arcs@[q].1 == u);
                        }
                    }
                }
            }
            k = k + 1;
        }
        proof {
            assert forall|u: usize|
                n@.contains(u) <==> (u < self.labels@.len() && self.arc(v as int, u as int) is Some) by {
                lemma_last_arc_some(arcs@, u as int);
                if exists|q: int| 0 <= q < arcs@.len() && arcs@[q].1 == u {
                    let q = choose|q: int| 0 <= q < arcs@.len() && arcs@[q].1 == u;
                    assert(self.arcs_of(v as int)[q].1 < self.labels@.len());
                }
            }
        }
        n
    }

    fn get_arc(&self, v: usize, u: usize) -> (r: Option<&E>) {
        let arcs = &self.nodes[v];
        let mut ret: Option<&E> = None;
        let mut k: usize = 0;
        while k < arcs.len()
            invariant
                arcs@ == self.arcs_of(v as int),
                k <= arcs@.len(),
                ret is Some <==> last_arc(arcs@.take(k as int), u as int) is Some,
                ret is Some ==> *ret->0 == last_arc(arcs@.take(k as int), u as int)->0,
            decreases arcs@.len() - k,
        {
            proof {
                assert(arcs@.take(k as int + 1) =~= arcs@.take(k as int).push(arcs@[k as int]));
                lemma_last_arc_push(arcs@.take(k as int), arcs@[k as int].0, arcs@[k as int].1, u as int);
            }
            let entry = &arcs[k];
            if entry.1 == u {
                ret = Some(&entry.0);
            }
            k = k + 1;
        }
        proof { assert(arcs@.take(arcs@.len() as int) =~= arcs@); }
        ret
    }

    fn vertices(&self) -> (r: &Vec<V>) {
        &self.labels
    }

    fn get_first(&self) -> (r: usize) {
        self.start.unwrap()
    }
}

} // verus!
