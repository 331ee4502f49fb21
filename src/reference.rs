use vstd::prelude::*;

verus! {

/// A possibly-cyclic reference that takes part in cycle collection.
///
/// References point into a shared store, the `Heap`: what a reference holds
/// may change when another reference to the same node breaks it. The spec
/// functions describe each operation over the heap's view; every
/// implementation is held to them.
pub trait CyclicReference: Sized {
    /// The store that references of this kind point into.
    type Heap: View;

    /// The identity of the node this reference points at, if it has one.
    spec fn id_of(&self, heap: <Self::Heap as View>::V) -> Option<usize>;

    /// The references held by the node, or `None` when it cannot be
    /// inspected right now (for instance because it is borrowed elsewhere).
    spec fn references_of(&self, heap: <Self::Heap as View>::V) -> Option<Seq<Self>>;

    /// The reference and the heap after an attempt to sever the node's
    /// references, and whether that attempt made progress.
    spec fn broken_by(&self, heap: <Self::Heap as View>::V) -> (Self, <Self::Heap as View>::V, bool);

    /// Breaks any references this reference holds, to remove it from a cycle.
    ///
    /// Returns `true` if references were severed, `false` if no progress was
    /// made (for instance because exclusive access was not available).
    fn break_references(&mut self, heap: &mut Self::Heap) -> (r: bool)
        ensures
            (*final(self), final(heap)@, r) == old(self).broken_by(old(heap)@),
    ;

    /// Returns the references held by this reference.
    fn get_references(&self, heap: &Self::Heap) -> (r: Option<Vec<Self>>)
        ensures
            match r {
                Some(v) => self.references_of(heap@) == Some(v@),
                None => self.references_of(heap@) is None,
            },
    ;

    /// Returns the identity used to recognise a node seen before.
    fn get_id(&self, heap: &Self::Heap) -> (r: Option<usize>)
        ensures
            r == self.id_of(heap@),
    ;
}

} // verus!
