use std::any::TypeId;
use vstd::prelude::*;

verus! {

/// The pools of a collection: one pool of payloads per attachment type.
///
/// A schema implements this for the aggregate of its pools. The collection
/// reads the aggregate through `holds`, which says for each attachment type
/// which handles its pool holds.
pub trait ComponentsStorage: Sized + Clone {
    /// The pool of the attachment type `id` holds a payload behind `key`.
    spec fn holds(&self, id: TypeId, key: usize) -> bool;

    /// A clone holds payloads behind the same handles.
    proof fn lemma_clone_holds(&self, other: &Self, id: TypeId, key: usize)
        requires
            cloned::<Self>(*self, *other),
        ensures
            self.holds(id, key) == other.holds(id, key),
    ;

    /// An aggregate of empty pools.
    fn new() -> (cs: Self)
        ensures
            forall|id: TypeId, key: usize| !cs.holds(id, key),
    ;
}

} // verus!
