use vstd::prelude::*;

verus! {

/// A directed graph whose vertices are the ids `0 .. vertex_count()`, each
/// carrying a label, with at most one arc weight of type `E` from one vertex
/// to another.
pub trait Graph<V, E> {
    /// The representation's invariant.
    spec fn wf(&self) -> bool;

    /// The vertex labels, by id.
    spec fn labels(&self) -> Seq<V>;

    /// The weight of the arc from `v` to `u`, if there is one.
    spec fn arc(&self, v: int, u: int) -> Option<E>;

    /// The designated first vertex, if there is one.
    spec fn first(&self) -> Option<int>;

    /// The ids of the vertices that `v` has an arc to.
    fn get_neighbours(&self, v: usize) -> (r: Vec<usize>)
        requires
            self.wf(),
            v < self.labels().len(),
        ensures
            forall|u: usize|
                r@.contains(u) <==> (u < self.labels().len() && self.arc(v as int, u as int) is Some),
    ;

    /// The weight of the arc from `v` to `u`, if there is one.
    fn get_arc(&self, v: usize, u: usize) -> (r: Option<&E>)
        requires
            self.wf(),
            v < self.labels().len(),
            u < self.labels().len(),
        ensures
            r is Some <==> self.arc(v as int, u as int) is Some,
            r is Some ==> *r->0 == self.arc(v as int, u as int)->0,
    ;

    /// The vertex labels, by id.
    fn vertices(&self) -> (r: &Vec<V>)
        requires
            self.wf(),
        ensures
            r@ == self.labels(),
    ;

    /// The id of the designated first vertex.
    fn get_first(&self) -> (r: usize)
        requires
            self.wf(),
            self.first() is Some,
        ensures
            r == self.first()->0,
            r < self.labels().len(),
    ;
}

/// A graph that arcs can be added to, naming their ends by label.
pub trait ExtendableGraph<V: PartialEq, E>: Graph<V, E> {
    /// Adds the arc `v -> u` with weight `e`, first adding a vertex for each
    /// of `v` and `u` that is not yet there.
    fn push_edge(&mut self, v: V, u: V, e: E)
        requires
            old(self).wf(),
            vstd::laws_eq::obeys_concrete_eq::<V>(),
        ensures
            final(self).wf(),
            final(self).first() == old(self).first(),
            old(self).labels().is_prefix_of(final(self).labels()),
            final(self).labels().contains(v),
            final(self).labels().contains(u),
            forall|w: V| #[trigger] final(self).labels().contains(w)
                ==> old(self).labels().contains(w) || w == v || w == u,
            forall|a: int, b: int|
                0 <= a < final(self).labels().len() && 0 <= b < final(self).labels().len()
                    ==> #[trigger] final(self).arc(a, b) == if final(self).labels()[a] == v
                        && final(self).labels()[b] == u {
                        Some(e)
                    } else if a < old(self).labels().len() && b < old(self).labels().len() {
                        old(self).arc(a, b)
                    } else {
                        None
                    },
    ;
}

} // verus!
