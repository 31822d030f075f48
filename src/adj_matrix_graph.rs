use vstd::prelude::*;
use crate::graph::Graph;
use crate::matrix::Matrix;

verus! {

/// A graph whose arcs live in a square matrix: the weight of the arc from
/// vertex `v` to vertex `u` is the element at `(v, u)`, and `None` there
/// means that there is no such arc.
pub struct MatrixGraph<V, E> {
    vmap: Vec<V>,
    adj: Matrix<Option<E>>,
}

impl<V, E> MatrixGraph<V, E> {
    /// The graph on the vertices `vmap`, in that order, with the arcs of `adj`.
    pub fn new(vmap: Vec<V>, adj: Matrix<Option<E>>) -> (r: Self)
        requires
            adj.wf(),
            adj.rows() == vmap@.len(),
            adj.cols() == vmap@.len(),
        ensures
            r.wf(),
            r.labels() == vmap@,
            forall|v: int, u: int| adj.in_bounds(v, u) ==> #[trigger] r.arc(v, u) == adj.at(v, u),
    {
        MatrixGraph { vmap, adj }
    }
}

impl<V: PartialEq, E> MatrixGraph<V, E> {
    /// The id of the first vertex labelled `v`.
    pub fn get_idx(&self, v: &V) -> (r: usize)
        requires
            vstd::laws_eq::obeys_concrete_eq::<V>(),
            self.labels().contains(*v),
        ensures
            r < self.labels().len(),
            self.labels()[r as int] == *v,
            forall|k: int| 0 <= k < r ==> self.labels()[k] != *v,
    {
        proof { reveal(vstd::laws_eq::obeys_concrete_eq); }
        let mut k: usize = 0;
        while k < self.vmap.len()
            invariant
                k <= self.vmap@.len(),
                self.labels().contains(*v),
                vstd::laws_eq::obeys_concrete_eq::<V>(),
                forall|q: int| 0 <= q < k ==> self.vmap@[q] != *v,
            decreases self.vmap@.len() - k,
        {
            let same = self.vmap[k] == *v;
            proof {
                reveal(vstd::laws_eq::obeys_concrete_eq);
                assert(same == (self.vmap@[k as int] == *v));
            }
            if same {
                return k;
            }
            k = k + 1;
        }
        k
    }
}

impl<V, E> Graph<V, E> for MatrixGraph<V, E> {
    closed spec fn wf(&self) -> bool {
        &&& self.adj.wf()
        &&& self.adj.rows() == self.vmap@.len()
        &&& self.adj.cols() == self.vmap@.len()
    }

    closed spec fn labels(&self) -> Seq<V> {
        self.vmap@
    }

    closed spec fn arc(&self, v: int, u: int) -> Option<E> {
        self.adj.at(v, u)
    }

    closed spec fn first(&self) -> Option<int> {
        if self.vmap@.len() > 0 {
            Some(0)
        } else {
            None
        }
    }

    fn get_neighbours(&self, v: usize) -> (r: Vec<usize>) {
        proof { self.adj.lemma_dims_fit(); }
        let mut n: Vec<usize> = Vec::new();
        let cols: usize = self.adj.get_dims().1;
        let mut j: usize = 0;
        while j < cols
            invariant
                self.wf(),
                v < self.vmap@.len(),
                cols == self.vmap@.len(),
                j <= cols,
                forall|u: usize| n@.contains(u) <==> (u < j && self.arc(v as int, u as int) is Some),
            decreases cols - j,
        {
            proof { self.adj.lemma_dims_fit(); }
            let ghost before = n@;
            let cell = self.adj.index((v as isize, j as isize));
            match cell {
                Some(_) => {
                    n.push(j);
                    proof {
                        assert forall|u: usize| n@.contains(u) <==> (before.contains(u) || u == j) by {
                            if u == j {
                                assert(n@[before.len() as int] == u);
                            }
                            if before.contains(u) {
                                let q = choose|q: int| 0 <= q < before.len() && before[q] == u;
                                assert(n@[q] == u);
                            }
                            if n@.contains(u) && u != j {
                                let q = choose|q: int| 0 <= q < n@.len() && n@[q] == u;
                                assert(before[q] == u);
                            }
                        }
                    }
                },
                None => {},
            }
            proof {
                assert(*cell == self.arc(v as int, j as int));
                assert forall|u: usize|
                    n@.contains(u) <==> (u < j + 1 && self.arc(v as int, u as int) is Some) by {
                    assert(before.contains(u) <==> (u < j && self.arc(v as int, u as int) is Some));
                }
            }
            j = j + 1;
        }
        n
    }

    fn get_arc(&self, v: usize, u: usize) -> (r: Option<&E>) {
        proof { self.adj.lemma_dims_fit(); }
        match self.adj.index((v as isize, u as isize)) {
            Some(e) => Some(e),
            None => None,
        }
    }

    fn vertices(&self) -> (r: &Vec<V>) {
        &self.vmap
    }

    fn get_first(&self) -> (r: usize) {
        0
    }
}

} // verus!
