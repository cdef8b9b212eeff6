//! The object store's decisions: naming objects, placing them under
//! `objects/`, and turning what was read back into an object. The reading and
//! writing of files is left to the caller.
use vstd::prelude::*;
use vstd::string::StrSliceExecFns;
use crate::codec::{
    decode, decode_spec, decoded_view, encode, encode_spec, frame, framed, Kind,
    ObjectError,
};
use crate::hex::{hex_lower, is_hex, is_lower_hex, lemma_hex_lower_injective, to_hex_lower};
use crate::primitives::{inflated, push_char, sha1_digest, sha1_of};

verus! {

/// The identifier of an object: the lowercase hex SHA-1 digest of its frame.
pub open spec fn identifier_spec(kind: Kind, content: Seq<u8>) -> Seq<char> {
    hex_lower(sha1_of(framed(kind, content)))
}

/// A well-formed identifier: 40 hexadecimal characters.
pub open spec fn is_identifier(id: Seq<char>) -> bool {
    &&& id.len() == 40
    &&& forall|i: int| 0 <= i < id.len() ==> is_hex(#[trigger] id[i])
}

/// Where an object lies under `objects/`: a directory named by the first two
/// characters of its identifier, holding a file named by the other 38.
pub struct ObjectLocation {
    pub dir: String,
    pub file: String,
}

impl ObjectLocation {
    /// This location is the one of identifier `id`.
    pub open spec fn is_location_of(&self, id: Seq<char>) -> bool {
        &&& self.dir@ == id.take(2)
        &&& self.file@ == id.skip(2)
    }
}

/// What `put` hands over for writing: the identifier, where the object goes,
/// and the bytes to write there.
pub struct StoredObject {
    pub id: String,
    pub location: ObjectLocation,
    pub bytes: Vec<u8>,
}

impl StoredObject {
    /// This is what storing `content` as `kind` produces.
    pub open spec fn stores(&self, kind: Kind, content: Seq<u8>) -> bool {
        &&& self.id@ == identifier_spec(kind, content)
        &&& self.location.is_location_of(self.id@)
        &&& self.bytes@ == encode_spec(kind, content)
        &&& inflated(self.bytes@) == Some(framed(kind, content))
        &&& decode_spec(self.bytes@) == Ok::<(Kind, Seq<u8>), ObjectError>((kind, content))
    }
}

/// What reading an object's file gave.
pub enum ReadOutcome {
    /// The file's bytes.
    Found(Vec<u8>),
    /// No file is there.
    Missing,
    /// Reading failed otherwise; the text names the path and the cause.
    Failed(String),
}

/// Identifier shape: 40 characters, each a lowercase hex digit.
pub open spec fn is_lower_identifier(id: Seq<char>) -> bool {
    &&& id.len() == 40
    &&& forall|i: int| 0 <= i < id.len() ==> is_lower_hex(#[trigger] id[i])
}

/// The outcome of fetching an object, given what reading its file gave.
pub open spec fn open_stored_spec(read: ReadOutcome) -> Result<(Kind, Seq<u8>), ObjectError> {
    match read {
        ReadOutcome::Found(bytes) => decode_spec(bytes@),
        ReadOutcome::Missing => Err(ObjectError::ObjectNotFound),
        ReadOutcome::Failed(msg) => Err(ObjectError::IoError(msg)),
    }
}

/// Computes the identifier of an object.
pub fn object_id(kind: Kind, content: &[u8]) -> (r: String)
    ensures
        r@ == identifier_spec(kind, content@),
        is_lower_identifier(r@),
{
    let framed_bytes = frame(kind, content);
    let digest = sha1_digest(framed_bytes.as_slice());
    to_hex_lower(digest.as_slice())
}

/// Checks that `id` is 40 hexadecimal characters and gives its location.
pub fn locate(id: &str) -> (r: Result<ObjectLocation, ObjectError>)
    ensures
        r is Ok <==> is_identifier(id@),
        match r {
            Ok(loc) => loc.is_location_of(id@),
            Err(e) => e == ObjectError::InvalidIdentifier,
        },
{
    let n = id.unicode_len();
    if n != 40 {
        return Err(ObjectError::InvalidIdentifier);
    }
    let mut dir = String::new();
    let mut file = String::new();
    let mut i: usize = 0;
    while i < n
        invariant
            n == id@.len() == 40,
            i <= n,
            forall|j: int| 0 <= j < i ==> is_hex(#[trigger] id@[j]),
            i <= 2 ==> dir@ == id@.take(i as int) && file@.len() == 0,
            i > 2 ==> dir@ == id@.take(2) && file@ == id@.subrange(2, i as int),
        decreases n - i,
    {
        let c = id.get_char(i);
        let hex = ('0' <= c && c <= '9') || ('a' <= c && c <= 'f') || ('A' <= c && c <= 'F');
        if !hex {
            return Err(ObjectError::InvalidIdentifier);
        }
        if i < 2 {
            push_char(&mut dir, c);
        } else {
            push_char(&mut file, c);
        }
        i = i + 1;
        assert(i <= 2 ==> dir@ =~= id@.take(i as int));
        assert(i > 2 ==> file@ =~= id@.subrange(2, i as int));
    }
    assert(id@.subrange(2, 40) =~= id@.skip(2));
    Ok(ObjectLocation { dir, file })
}

/// Prepares storing `content` as `kind`: its identifier, its location and
/// the compressed bytes to write there.
pub fn put_object(kind: Kind, content: &[u8]) -> (r: StoredObject)
    ensures
        r.stores(kind, content@),
        is_lower_identifier(r.id@),
        is_identifier(r.id@),
{
    let id = object_id(kind, content);
    let bytes = encode(kind, content);
    // A digest's hex text is always a well-formed identifier.
    let location = match locate(id.as_str()) {
        Ok(loc) => loc,
        Err(_) => {
            assert(false);
            ObjectLocation { dir: String::new(), file: String::new() }
        },
    };
    StoredObject { id, location, bytes }
}

/// Turns what reading an object's file gave into the object, or the error.
pub fn open_stored(read: ReadOutcome) -> (r: Result<(Kind, Vec<u8>), ObjectError>)
    ensures
        decoded_view(r) == open_stored_spec(read),
{
    match read {
        ReadOutcome::Found(bytes) => decode(bytes.as_slice()),
        ReadOutcome::Missing => Err(ObjectError::ObjectNotFound),
        ReadOutcome::Failed(msg) => Err(ObjectError::IoError(msg)),
    }
}

/// Two objects with the same identifier have frames with the same SHA-1
/// digest: identifiers differ for different contents unless SHA-1 collides.
pub proof fn lemma_identifier_names_digest(
    kind_a: Kind,
    content_a: Seq<u8>,
    kind_b: Kind,
    content_b: Seq<u8>,
)
    requires
        identifier_spec(kind_a, content_a) == identifier_spec(kind_b, content_b),
    ensures
        sha1_of(framed(kind_a, content_a)) == sha1_of(framed(kind_b, content_b)),
{
    lemma_hex_lower_injective(sha1_of(framed(kind_a, content_a)), sha1_of(framed(kind_b, content_b)));
}

/// Storing an object twice hands over the same identifier, the same
/// location and the same bytes, so the second write leaves the first object
/// as it was.
pub proof fn lemma_put_deterministic(
    kind: Kind,
    content: Seq<u8>,
    first: StoredObject,
    second: StoredObject,
)
    requires
        first.stores(kind, content),
        second.stores(kind, content),
    ensures
        first.id@ == second.id@,
        first.location.dir@ == second.location.dir@,
        first.location.file@ == second.location.file@,
        first.bytes@ == second.bytes@,
{
}

/// Fetching a stored object gives it back: the location of its identifier
/// is the one it was written to, and the bytes written there open to the
/// object.
pub proof fn lemma_round_trip(
    kind: Kind,
    content: Seq<u8>,
    stored: StoredObject,
    found: ObjectLocation,
    read: Vec<u8>,
)
    requires
        stored.stores(kind, content),
        found.is_location_of(stored.id@),
        read@ == stored.bytes@,
    ensures
        found.dir@ == stored.location.dir@,
        found.file@ == stored.location.file@,
        open_stored_spec(ReadOutcome::Found(read)) == Ok::<(Kind, Seq<u8>), ObjectError>(
            (kind, content),
        ),
{
}

} // verus!
