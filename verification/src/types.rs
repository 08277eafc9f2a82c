//! A collection of resource records that mirrors how the host engine
//! hands such collections around: an ordered vector on this side, an
//! engine array of nullable slots on the other.  A trailing empty slot in
//! the engine form (the editor's "add element" placeholder) is not a
//! record; it is remembered apart so the engine form round-trips.

use vstd::prelude::*;

use crate::gdprop::ResourceRecord;

verus! {

/// An ordered collection of records, with the engine form's trailing
/// empty slot remembered apart.
pub struct GdResVec {
    pub vec: Vec<ResourceRecord>,
    pub empty_last: bool,
}

impl GdResVec {
    /// An empty collection.
    pub fn new() -> (r: Self)
        ensures
            r.vec@.len() == 0,
            !r.empty_last,
    {
        GdResVec { vec: Vec::new(), empty_last: false }
    }

    /// Wraps an existing vector of records, with no trailing empty slot.
    pub fn from_vec(vec: Vec<ResourceRecord>) -> (r: Self)
        ensures
            r.vec@ == vec@,
            !r.empty_last,
    {
        GdResVec { vec, empty_last: false }
    }

    /// Collects the engine form: present slots become the records, in
    /// order; the collection remembers whether any empty slot occurred.
    pub fn from_variant_array(arr: &Vec<Option<ResourceRecord>>) -> (r: Self)
        ensures
            r.empty_last == exists|i: int| 0 <= i < arr@.len() && arr@[i] is None,
            r.vec@.len() <= arr@.len(),
            (forall|i: int| 0 <= i < arr@.len() ==> !(#[trigger] arr@[i] is None)) ==> (
            r.vec@.len() == arr@.len() && forall|i: int|
                0 <= i < arr@.len() ==> (#[trigger] r.vec@[i]).class_identity@
                    == arr@[i]->Some_0.class_identity@ && r.vec@[i].payload@
                    == arr@[i]->Some_0.payload@),
    {
        let mut vec: Vec<ResourceRecord> = Vec::new();
        let mut empty_last = false;
        let mut i: usize = 0;
        while i < arr.len()
            invariant
                i <= arr@.len(),
                empty_last == exists|j: int| 0 <= j < i && arr@[j] is None,
                vec@.len() <= i,
                (forall|j: int| 0 <= j < i ==> !(#[trigger] arr@[j] is None)) ==> (
                vec@.len() == i && forall|j: int|
                    0 <= j < i ==> (#[trigger] vec@[j]).class_identity@
                        == arr@[j]->Some_0.class_identity@ && vec@[j].payload@
                        == arr@[j]->Some_0.payload@),
            decreases arr.len() - i,
        {
            match &arr[i] {
                Some(rec) => {
                    vec.push(ResourceRecord {
                        class_identity: rec.class_identity.clone(),
                        payload: rec.payload.clone(),
                    });
                },
                None => {
                    empty_last = true;
                    proof {
                        assert(arr@[i as int] is None);
                    }
                },
            }
            proof {
                if exists|j: int| 0 <= j < i + 1 && arr@[j] is None {
                    let j = choose|j: int| 0 <= j < i + 1 && #[trigger] arr@[j] is None;
                    if j < i {
                        assert(empty_last);
                    }
                }
            }
            i += 1;
        }
        GdResVec { vec, empty_last }
    }

    /// The engine form: every record as a present slot, in order, with a
    /// trailing empty slot exactly when the collection remembers one.
    pub fn as_variant_array(&self) -> (r: Vec<Option<ResourceRecord>>)
        ensures
            r@.len() == self.vec@.len() + if self.empty_last {
                1 as int
            } else {
                0 as int
            },
            forall|i: int|
                0 <= i < self.vec@.len() ==> (#[trigger] r@[i] matches Some(rec)
                    && rec.class_identity@ == self.vec@[i].class_identity@
                    && rec.payload@ == self.vec@[i].payload@),
            self.empty_last ==> r@.last() is None,
    {
        let mut out: Vec<Option<ResourceRecord>> = Vec::new();
        let mut i: usize = 0;
        while i < self.vec.len()
            invariant
                i <= self.vec@.len(),
                out@.len() == i,
                forall|j: int|
                    0 <= j < i ==> (#[trigger] out@[j] matches Some(rec)
                        && rec.class_identity@ == self.vec@[j].class_identity@
                        && rec.payload@ == self.vec@[j].payload@),
            decreases self.vec.len() - i,
        {
            let rec = ResourceRecord {
                class_identity: self.vec[i].class_identity.clone(),
                payload: self.vec[i].payload.clone(),
            };
            out.push(Some(rec));
            i += 1;
        }
        if self.empty_last {
            out.push(None);
        }
        out
    }

    /// The number of records held.
    pub fn len(&self) -> (r: usize)
        ensures
            r == self.vec@.len(),
    {
        self.vec.len()
    }
}

} // verus!
