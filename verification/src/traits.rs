//! What the users of the library provide.
//!
//! Each trait names, in a specification function, what its methods return for given arguments, so
//! that contracts can speak of it. An implementation that gives the specification function a body
//! is held to it.

use crate::nodes::{NodeIndex, NodeMap};
use crate::units::{SessionId, UnitCoord};
use std::hash::Hash;
use vstd::prelude::*;

verus! {

/// A value that stands for the content that was hashed.
pub trait HashT: Copy + Eq + Hash + Default {

}

impl HashT for u64 {

}

/// `==` on `K` is identity, and `K` can key a hash table. All integers are such types.
pub open spec fn hash_model<K: Eq>() -> bool {
    &&& vstd::std_specs::hash::obeys_key_model::<K>()
    &&& vstd::laws_eq::obeys_concrete_eq::<K>()
}

/// What the committee orders.
pub trait Data: Clone {
    /// The bytes of the value.
    open spec fn encoding(&self) -> Seq<u8> {
        arbitrary()
    }

    /// Writes the value as bytes.
    fn encode(&self) -> (bytes: Vec<u8>)
        ensures
            bytes@ == self.encoding(),
    ;
}

/// The signature of one node.
pub trait Signature: Sized {
    /// The bytes of the signature.
    open spec fn encoding(&self) -> Seq<u8> {
        arbitrary()
    }

    /// Writes the signature as bytes.
    fn encode(&self) -> (bytes: Vec<u8>)
        ensures
            bytes@ == self.encoding(),
    ;
}

/// The hash function of the committee.
pub trait Hasher: Sized {
    type Hash: Copy + Eq + Hash;

    /// The hash of a unit with these contents.
    open spec fn unit_hash(
        coord: UnitCoord,
        parents_mask: Seq<bool>,
        combined_hash: Self::Hash,
        data: Seq<u8>,
        session_id: SessionId,
    ) -> Self::Hash {
        arbitrary()
    }

    /// The hash of an answer to a request for the requester's newest unit. A unit is given by its
    /// hash and its encoded signature.
    open spec fn newest_response_hash(
        requester: NodeIndex,
        responder: NodeIndex,
        unit: Option<(Self::Hash, Seq<u8>)>,
        salt: u64,
    ) -> Self::Hash {
        arbitrary()
    }

    /// The hash that a unit carries of the hashes of its parents.
    open spec fn combined_hash(parents: Seq<Option<Self::Hash>>) -> Self::Hash {
        arbitrary()
    }

    /// Hashes the contents of a unit.
    fn hash_unit(
        coord: UnitCoord,
        parents_mask: &NodeMap<bool>,
        combined_hash: Self::Hash,
        data: &Vec<u8>,
        session_id: SessionId,
    ) -> (hash: Self::Hash)
        ensures
            hash == Self::unit_hash(coord, parents_mask@, combined_hash, data@, session_id),
    ;

    /// Hashes the contents of an answer to a request for the newest unit.
    fn hash_newest_response(
        requester: NodeIndex,
        responder: NodeIndex,
        unit: &Option<(Self::Hash, Vec<u8>)>,
        salt: u64,
    ) -> (hash: Self::Hash)
        ensures
            hash == Self::newest_response_hash(
                requester,
                responder,
                match *unit {
                    Some((unit_hash, signature)) => Some((unit_hash, signature@)),
                    None => None,
                },
                salt,
            ),
    ;

    /// Hashes the hashes of the parents of a unit.
    fn combine_hashes(parents: &NodeMap<Option<Self::Hash>>) -> (hash: Self::Hash)
        ensures
            hash == Self::combined_hash(parents@),
    ;
}

/// The keys of the committee.
pub trait MultiKeychain<H: Hasher> {
    type Signature: Signature;

    /// Whether `signature` is one that node `index` made for `message`.
    open spec fn accepts(
        &self,
        message: H::Hash,
        signature: Self::Signature,
        index: NodeIndex,
    ) -> bool {
        arbitrary()
    }

    /// Tells whether `signature` is one that node `index` made for `message`.
    fn verify(&self, message: &H::Hash, signature: &Self::Signature, index: NodeIndex) -> (good:
        bool)
        ensures
            good == self.accepts(*message, *signature, index),
    ;
}

} // verus!
