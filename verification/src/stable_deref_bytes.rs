//! Immutable byte slices that are shared without copies.
use vstd::prelude::*;

verus! {

/// The reference-counted slice of the `bytes` crate.
#[verifier::external_type_specification]
#[verifier::external_body]
pub struct ExBytes(bytes::Bytes);

/// The bytes that a [`bytes::Bytes`] holds.
pub uninterp spec fn bytes_content(bytes: bytes::Bytes) -> Seq<u8>;

/// [`bytes::Bytes::from`] a vector: holds the bytes of the vector.
#[verifier::external_body]
pub(crate) fn bytes_from_vec(data: Vec<u8>) -> (bytes: bytes::Bytes)
    ensures
        bytes_content(bytes) == data@,
{
    bytes::Bytes::from(data)
}

/// [`bytes::Bytes`] dereferences to the slice that it holds.
#[verifier::external_body]
pub(crate) fn bytes_as_slice(bytes: &bytes::Bytes) -> (slice: &[u8])
    ensures
        slice@ == bytes_content(*bytes),
{
    bytes
}

/// [`bytes::Bytes::clone`]: another handle on the same bytes.
#[verifier::external_body]
pub(crate) fn bytes_clone(bytes: &bytes::Bytes) -> (copy: bytes::Bytes)
    ensures
        bytes_content(copy) == bytes_content(*bytes),
{
    bytes.clone()
}

/// Wrapper around [`bytes::Bytes`], whose payload stays where it is when the handle moves.
///
/// A `Bytes` is a handle that points into a separate allocation (or into static memory), never
/// into the handle itself.
pub struct StableDerefBytes(pub bytes::Bytes);

impl StableDerefBytes {
    /// The payload.
    pub fn deref(&self) -> (slice: &[u8])
        ensures
            slice@ == bytes_content(self.0),
    {
        bytes_as_slice(&self.0)
    }
}

/// A shared, immutable slice of bytes.
pub struct OwnedBytes {
    data: StableDerefBytes,
}

impl View for OwnedBytes {
    type V = Seq<u8>;

    closed spec fn view(&self) -> Seq<u8> {
        bytes_content(self.data.0)
    }
}

impl OwnedBytes {
    /// The bytes of a vector, without copying them.
    pub fn new(data: Vec<u8>) -> (bytes: OwnedBytes)
        ensures
            bytes@ == data@,
    {
        OwnedBytes { data: StableDerefBytes(bytes_from_vec(data)) }
    }

    /// The bytes as a slice.
    pub fn as_slice(&self) -> (slice: &[u8])
        ensures
            slice@ == self@,
    {
        self.data.deref()
    }

    /// Number of bytes.
    pub fn len(&self) -> (len: usize)
        ensures
            len == self@.len(),
    {
        self.as_slice().len()
    }
}

impl Clone for OwnedBytes {
    fn clone(&self) -> (copy: OwnedBytes)
        ensures
            copy@ == self@,
    {
        OwnedBytes { data: StableDerefBytes(bytes_clone(&self.data.0)) }
    }
}

/// Wraps a [`bytes::Bytes`] into an [`OwnedBytes`] without copying its contents.
pub fn into_owned_bytes(bytes: bytes::Bytes) -> (owned: OwnedBytes)
    ensures
        owned@ == bytes_content(bytes),
{
    OwnedBytes { data: StableDerefBytes(bytes) }
}

} // verus!
