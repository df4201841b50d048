//! A chunk: one byte payload paired with the identifier that addresses
//! it.  The pair is created transiently just before a store write.

use crate::hash::digest_of;
use vstd::prelude::*;

verus! {

/// The mathematical content of a chunk: its identifier bytes and its
/// payload bytes.
pub ghost struct ChunkView {
    pub hash: Seq<u8>,
    pub data: Seq<u8>,
}

/// An immutable (identifier, payload) pair.
pub struct Chunk {
    hash: crate::hash::Hash,
    data: Vec<u8>,
}

impl View for Chunk {
    type V = ChunkView;

    closed spec fn view(&self) -> ChunkView {
        ChunkView { hash: self.hash@, data: self.data@ }
    }
}

impl Chunk {
    /// The content-address invariant: the identifier is the digest of
    /// the payload.  `new` establishes it; `with_hash` and the store
    /// leave it to the caller, as a contract rather than a runtime
    /// check.
    pub open spec fn well_formed(&self) -> bool {
        self@.hash == digest_of(self@.data)
    }

    /// A chunk addressed by the digest of its own payload.
    pub fn new(data: Vec<u8>) -> (c: Chunk)
        ensures
            c@.data == data@,
            c@.hash == digest_of(data@),
            c.well_formed(),
    {
        let hash = crate::hash::Hash::of(data.as_slice());
        Chunk { hash, data }
    }

    /// A chunk rebuilt from an already-known pair, as when reading one
    /// back from storage.  Nothing checks that the pair is consistent.
    pub fn with_hash(hash: crate::hash::Hash, data: Vec<u8>) -> (c: Chunk)
        ensures
            c@.hash == hash@,
            c@.data == data@,
    {
        Chunk { hash, data }
    }

    /// The identifier of this chunk.
    pub fn hash(&self) -> (h: &crate::hash::Hash)
        ensures
            h@ == self@.hash,
    {
        &self.hash
    }

    /// The payload of this chunk.
    pub fn data(&self) -> (d: &[u8])
        ensures
            d@ == self@.data,
    {
        self.data.as_slice()
    }
}

} // verus!
