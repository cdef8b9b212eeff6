//! Per-kind handles on the store.
use vstd::prelude::*;
use crate::codec::{Kind, ObjectError};
use crate::store::{is_lower_identifier, open_stored, open_stored_spec, put_object, ReadOutcome, StoredObject};

verus! {

/// The handle for blobs: objects whose content is opaque bytes.
pub struct Blob {}

impl Kind {
    /// The handle for objects of `kind`.
    pub fn to_object(kind: Kind) -> (r: Blob)
        ensures
            r.kind_spec() == kind,
    {
        match kind {
            Kind::Blob => Blob {},
        }
    }
}

impl Blob {
    /// The kind this handle stores.
    pub open spec fn kind_spec(&self) -> Kind {
        Kind::Blob
    }

    /// The kind this handle stores.
    pub fn kind(&self) -> (r: Kind)
        ensures
            r == self.kind_spec(),
    {
        Kind::Blob
    }

    /// Prepares storing `content` as a blob.
    pub fn serialize(&self, content: &[u8]) -> (r: StoredObject)
        ensures
            r.stores(Kind::Blob, content@),
            is_lower_identifier(r.id@),
    {
        put_object(Kind::Blob, content)
    }

    /// The content of a stored object, given what reading its file gave.
    pub fn deserialize(&self, read: ReadOutcome) -> (r: Result<Vec<u8>, ObjectError>)
        ensures
            match open_stored_spec(read) {
                Ok((_, content)) => r is Ok && r.unwrap()@ == content,
                Err(e) => r == Err::<Vec<u8>, ObjectError>(e),
            },
    {
        match open_stored(read) {
            Ok((_, content)) => Ok(content),
            Err(e) => Err(e),
        }
    }
}

} // verus!
