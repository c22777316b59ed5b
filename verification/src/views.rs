//! Ambient facts connecting a vector's deep view (the sequence of its
//! elements' views) to the vector itself; the entity modules lean on these
//! in every loop that builds or copies a collection.

use vstd::prelude::*;

verus! {

pub broadcast proof fn lemma_vec_deep_view_len<T: DeepView>(v: &Vec<T>)
    ensures
        (#[trigger] v.deep_view()).len() == v@.len(),
{
}

pub broadcast proof fn lemma_vec_deep_view_index<T: DeepView>(v: &Vec<T>, i: int)
    requires
        0 <= i < v@.len(),
    ensures
        #[trigger] v.deep_view()[i] == v@[i].deep_view(),
{
}

/// A byte vector's deep view is just its view: bytes are their own views.
pub broadcast proof fn lemma_bytes_deep_view(v: &Vec<u8>)
    ensures
        (#[trigger] v.deep_view()) == v@,
{
    assert(v.deep_view() =~= v@);
}

pub broadcast group group_deep_view_facts {
    lemma_vec_deep_view_len,
    lemma_vec_deep_view_index,
}

} // verus!
