//! Persistence core for strongly typed resources stored in two container
//! formats: a readable text form (`gdron`) and a compact binary form
//! (`gdbin`).  Every container starts with a small metadata header naming the
//! resource's class identity and its stable UID; the payload that follows is
//! carried as opaque bytes.  The crate owns the header codecs, the UID
//! registry transaction run on every save and load, the external-reference
//! resolution strategies, and the transactional export remapper.
//!
//! The host engine that supplies real file handles and object lifetimes is
//! represented by an explicit in-memory model ([`host::ResourceHost`]): a
//! table of files plus the UID registry.  Callers that sit on a real
//! filesystem translate between the two at the boundary.

use vstd::prelude::*;

pub mod cursor;
pub mod errors;
pub mod export;
pub mod format;
pub mod gd_meta;
pub mod gdprop;
pub mod gdprop_io;
pub mod host;
pub mod laws;
pub mod refs;
pub mod types;
pub mod uid;

verus! {

/// A resource type that can be carried by the serializers of this crate.
/// Implementors report the stable class identity written into every
/// container header for values of the type.
pub trait GdSerdeResource {
    /// The class identity tag recorded in file headers for this resource.
    fn get_ident(&self) -> String;
}

} // verus!
