//! Units: the vertices that the nodes create, sign and exchange.

use crate::nodes::{count_set, set_indices, NodeCount, NodeIndex, NodeMap};
use crate::traits::{Data, Hasher, MultiKeychain, Signature};
use std::sync::Arc;
use vstd::prelude::*;

verus! {

/// Number of a round.
pub type Round = u16;

/// Identifier of a session.
pub type SessionId = u64;

/// Place of a unit: its round and its creator.
#[derive(Clone, Copy, Debug, PartialEq, Eq, Hash, Structural)]
pub struct UnitCoord {
    pub round: Round,
    pub creator: NodeIndex,
}

impl UnitCoord {
    pub fn new(round: Round, creator: NodeIndex) -> (coord: Self)
        ensures
            coord == (UnitCoord { round, creator }),
    {
        UnitCoord { round, creator }
    }

    pub fn creator(&self) -> (creator: NodeIndex)
        ensures
            creator == self.creator,
    {
        self.creator
    }

    pub fn round(&self) -> (round: Round)
        ensures
            round == self.round,
    {
        self.round
    }

    /// The number that stands for the place in hash tables.
    pub open spec fn spec_key(self) -> u128 {
        (self.creator.0 * 0x1_0000 + self.round) as u128
    }

    /// The number that stands for the place in hash tables.
    pub fn key(&self) -> (key: u128)
        ensures
            key == self.spec_key(),
    {
        self.creator.0 as u128 * 0x1_0000 + self.round as u128
    }
}

/// Different places have different keys.
pub proof fn lemma_coord_key(a: UnitCoord, b: UnitCoord)
    ensures
        a.spec_key() == b.spec_key() <==> a == b,
{
}

/// What a unit says of its parents: which nodes created them, and a hash of their hashes.
pub struct ControlHash<H: Hasher> {
    pub parents_mask: NodeMap<bool>,
    pub combined_hash: H::Hash,
}

impl<H: Hasher> ControlHash<H> {
    /// The hash of the hashes of the parents of a unit.
    pub fn combine_hashes(parents: &NodeMap<Option<H::Hash>>) -> (hash: H::Hash)
        ensures
            hash == H::combined_hash(parents@),
    {
        H::combine_hashes(parents)
    }

    /// The creators of the parents, in increasing order.
    pub fn parents(&self) -> (creators: Vec<NodeIndex>)
        ensures
            creators@ == set_indices(self.parents_mask@),
    {
        self.parents_mask.elements()
    }

    /// The number of parents.
    pub fn n_parents(&self) -> (count: NodeCount)
        ensures
            count.0 == count_set(self.parents_mask@),
    {
        self.parents_mask.n_set()
    }

    /// The number of nodes that the unit reckons with.
    pub fn n_members(&self) -> (count: NodeCount)
        ensures
            count.0 == self.parents_mask@.len(),
    {
        self.parents_mask.size()
    }
}

/// A unit without its data, as the creating side of a node makes it.
pub struct PreUnit<H: Hasher> {
    pub coord: UnitCoord,
    pub control_hash: ControlHash<H>,
}

impl<H: Hasher> PreUnit<H> {
    pub fn new(creator: NodeIndex, round: Round, control_hash: ControlHash<H>) -> (unit: Self)
        ensures
            unit.coord == (UnitCoord { round, creator }),
            unit.control_hash == control_hash,
    {
        PreUnit { coord: UnitCoord::new(round, creator), control_hash }
    }

    pub fn creator(&self) -> (creator: NodeIndex)
        ensures
            creator == self.coord.creator,
    {
        self.coord.creator
    }

    pub fn round(&self) -> (round: Round)
        ensures
            round == self.coord.round,
    {
        self.coord.round
    }

    pub fn n_parents(&self) -> (count: NodeCount)
        ensures
            count.0 == count_set(self.control_hash.parents_mask@),
    {
        self.control_hash.n_parents()
    }

    pub fn n_members(&self) -> (count: NodeCount)
        ensures
            count.0 == self.control_hash.parents_mask@.len(),
    {
        self.control_hash.n_members()
    }
}

/// A unit with the data and the session that it belongs to. Its hash is that of its contents.
pub struct FullUnit<H: Hasher, D: Data> {
    pre_unit: PreUnit<H>,
    data: D,
    session_id: SessionId,
    hash: H::Hash,
}

impl<H: Hasher, D: Data> FullUnit<H, D> {
    pub closed spec fn spec_pre_unit(self) -> PreUnit<H> {
        self.pre_unit
    }

    pub closed spec fn spec_data(self) -> D {
        self.data
    }

    pub closed spec fn spec_session_id(self) -> SessionId {
        self.session_id
    }

    pub closed spec fn spec_hash(self) -> H::Hash {
        self.hash
    }

    pub open spec fn spec_coord(self) -> UnitCoord {
        self.spec_pre_unit().coord
    }

    pub open spec fn spec_round(self) -> Round {
        self.spec_coord().round
    }

    pub open spec fn spec_creator(self) -> NodeIndex {
        self.spec_coord().creator
    }

    pub open spec fn spec_mask(self) -> Seq<bool> {
        self.spec_pre_unit().control_hash.parents_mask@
    }

    pub open spec fn spec_combined_hash(self) -> H::Hash {
        self.spec_pre_unit().control_hash.combined_hash
    }

    /// The hash of the unit's contents.
    pub open spec fn content_hash(self) -> H::Hash {
        H::unit_hash(
            self.spec_coord(),
            self.spec_mask(),
            self.spec_combined_hash(),
            self.spec_data().encoding(),
            self.spec_session_id(),
        )
    }

    /// The hash that the unit carries is that of its contents.
    #[verifier::type_invariant]
    spec fn hash_of_contents(self) -> bool {
        self.hash == self.content_hash()
    }

    pub fn new(pre_unit: PreUnit<H>, data: D, session_id: SessionId) -> (unit: Self)
        ensures
            unit.spec_pre_unit() == pre_unit,
            unit.spec_data() == data,
            unit.spec_session_id() == session_id,
            unit.spec_hash() == unit.content_hash(),
            unit.spec_coord() == pre_unit.coord,
            unit.spec_round() == pre_unit.coord.round,
            unit.spec_creator() == pre_unit.coord.creator,
            unit.spec_mask() == pre_unit.control_hash.parents_mask@,
            unit.spec_combined_hash() == pre_unit.control_hash.combined_hash,
            unit.spec_hash() == H::unit_hash(
                pre_unit.coord,
                pre_unit.control_hash.parents_mask@,
                pre_unit.control_hash.combined_hash,
                data.encoding(),
                session_id,
            ),
    {
        let bytes = data.encode();
        let hash = H::hash_unit(
            pre_unit.coord,
            &pre_unit.control_hash.parents_mask,
            pre_unit.control_hash.combined_hash,
            &bytes,
            session_id,
        );
        FullUnit { pre_unit, data, session_id, hash }
    }

    pub fn as_pre_unit(&self) -> (pre_unit: &PreUnit<H>)
        ensures
            *pre_unit == self.spec_pre_unit(),
    {
        &self.pre_unit
    }

    pub fn creator(&self) -> (creator: NodeIndex)
        ensures
            creator == self.spec_creator(),
    {
        self.pre_unit.coord.creator
    }

    pub fn round(&self) -> (round: Round)
        ensures
            round == self.spec_round(),
    {
        self.pre_unit.coord.round
    }

    pub fn coord(&self) -> (coord: UnitCoord)
        ensures
            coord == self.spec_coord(),
    {
        self.pre_unit.coord
    }

    pub fn control_hash(&self) -> (control_hash: &ControlHash<H>)
        ensures
            *control_hash == self.spec_pre_unit().control_hash,
    {
        &self.pre_unit.control_hash
    }

    pub fn data(&self) -> (data: &D)
        ensures
            *data == self.spec_data(),
    {
        &self.data
    }

    pub fn session_id(&self) -> (session_id: SessionId)
        ensures
            session_id == self.spec_session_id(),
    {
        self.session_id
    }

    /// The hash of the unit's contents.
    pub fn hash(&self) -> (hash: H::Hash)
        ensures
            hash == self.spec_hash(),
            hash == self.content_hash(),
    {
        proof {
            use_type_invariant(self);
        }
        self.hash
    }

    /// What the ordering part of a node is told of the unit.
    pub fn unit(&self) -> (unit: Unit<H>)
        ensures
            unit@ == self.spec_unit(),
            unit.coord == self.spec_pre_unit().coord,
            unit.hash == self.spec_hash(),
            unit.control_hash.parents_mask@ == self.spec_pre_unit().control_hash.parents_mask@,
            unit.control_hash.combined_hash == self.spec_pre_unit().control_hash.combined_hash,
    {
        Unit {
            coord: self.pre_unit.coord,
            hash: self.hash,
            control_hash: ControlHash {
                parents_mask: self.pre_unit.control_hash.parents_mask.clone(),
                combined_hash: self.pre_unit.control_hash.combined_hash,
            },
        }
    }

    pub open spec fn spec_unit(self) -> UnitView<H> {
        UnitView {
            coord: self.spec_coord(),
            hash: self.spec_hash(),
            parents_mask: self.spec_mask(),
            combined_hash: self.spec_combined_hash(),
        }
    }
}

/// A unit as the ordering part of a node sees it: without data and session.
pub struct Unit<H: Hasher> {
    pub coord: UnitCoord,
    pub hash: H::Hash,
    pub control_hash: ControlHash<H>,
}

/// The contents of a `Unit`.
#[verifier::ext_equal]
pub struct UnitView<H: Hasher> {
    pub coord: UnitCoord,
    pub hash: H::Hash,
    pub parents_mask: Seq<bool>,
    pub combined_hash: H::Hash,
}

impl<H: Hasher> View for Unit<H> {
    type V = UnitView<H>;

    open spec fn view(&self) -> UnitView<H> {
        UnitView {
            coord: self.coord,
            hash: self.hash,
            parents_mask: self.control_hash.parents_mask@,
            combined_hash: self.control_hash.combined_hash,
        }
    }
}

/// A value that a node can sign.
pub trait Signable<H: Hasher> {
    /// The node whose signature the value needs.
    spec fn signer(&self) -> NodeIndex;

    /// What that node signs.
    spec fn message(&self) -> H::Hash;

    fn index(&self) -> (index: NodeIndex)
        ensures
            index == self.signer(),
    ;

    fn digest(&self) -> (digest: H::Hash)
        ensures
            digest == self.message(),
    ;
}

impl<H: Hasher, D: Data> Signable<H> for FullUnit<H, D> {
    open spec fn signer(&self) -> NodeIndex {
        self.spec_creator()
    }

    open spec fn message(&self) -> H::Hash {
        self.spec_hash()
    }

    fn index(&self) -> NodeIndex {
        self.creator()
    }

    fn digest(&self) -> H::Hash {
        self.hash()
    }
}

/// A value and the signature that came with it. Copies share the value.
pub struct Signed<T, S> {
    pub content: Arc<(T, S)>,
}

impl<T, S> Clone for Signed<T, S> {
    fn clone(&self) -> (copy: Self)
        ensures
            copy == *self,
    {
        Signed { content: self.content.clone() }
    }
}

impl<T, S> Signed<T, S> {
    pub open spec fn signable(self) -> T {
        self.content.0
    }

    pub open spec fn spec_signature(self) -> S {
        self.content.1
    }

    pub fn new(signable: T, signature: S) -> (signed: Self)
        ensures
            signed.signable() == signable,
            signed.spec_signature() == signature,
    {
        Signed { content: Arc::new((signable, signature)) }
    }

    pub fn as_signable(&self) -> (signable: &T)
        ensures
            *signable == self.signable(),
    {
        &self.content.0
    }

    pub fn signature(&self) -> (signature: &S)
        ensures
            *signature == self.spec_signature(),
    {
        &self.content.1
    }

    /// Whether the signature is the signer's.
    pub open spec fn is_signed<H: Hasher, MK: MultiKeychain<H, Signature = S>>(
        self,
        keychain: MK,
    ) -> bool where T: Signable<H> {
        keychain.accepts(
            self.signable().message(),
            self.spec_signature(),
            self.signable().signer(),
        )
    }

    /// Tells whether the signature is the signer's.
    pub fn check<H: Hasher, MK: MultiKeychain<H, Signature = S>>(&self, keychain: &MK) -> (good:
        bool) where T: Signable<H>
        ensures
            good == self.is_signed::<H, MK>(*keychain),
    {
        let index = self.content.0.index();
        let digest = self.content.0.digest();
        keychain.verify(&digest, &self.content.1, index)
    }
}

/// A unit and its signature.
pub type SignedUnit<H, D, S> = Signed<FullUnit<H, D>, S>;

impl<H: Hasher, D: Data, S> Signed<FullUnit<H, D>, S> {
    pub open spec fn coord(self) -> UnitCoord {
        self.signable().spec_coord()
    }

    pub open spec fn round(self) -> Round {
        self.signable().spec_round()
    }

    pub open spec fn creator(self) -> NodeIndex {
        self.signable().spec_creator()
    }

    pub open spec fn hash(self) -> H::Hash {
        self.signable().spec_hash()
    }
}

/// The answer to a node that asks for the newest unit that it has created.
pub struct NewestUnitResponse<H: Hasher, D: Data, S: Signature> {
    pub requester: NodeIndex,
    pub responder: NodeIndex,
    pub unit: Option<SignedUnit<H, D, S>>,
    pub salt: u64,
}

impl<H: Hasher, D: Data, S: Signature> Signable<H> for NewestUnitResponse<H, D, S> {
    open spec fn signer(&self) -> NodeIndex {
        self.responder
    }

    open spec fn message(&self) -> H::Hash {
        H::newest_response_hash(
            self.requester,
            self.responder,
            match self.unit {
                Some(unit) => Some((unit.hash(), unit.spec_signature().encoding())),
                None => None,
            },
            self.salt,
        )
    }

    fn index(&self) -> NodeIndex {
        self.responder
    }

    fn digest(&self) -> H::Hash {
        let unit: Option<(H::Hash, Vec<u8>)> = match &self.unit {
            Some(unit) => Some((unit.as_signable().hash(), unit.signature().encode())),
            None => None,
        };
        H::hash_newest_response(self.requester, self.responder, &unit, self.salt)
    }
}

/// A unit in its signed form is the unit that was signed: its place is the one that it was made for, and
/// its hash is its own.
pub proof fn law_signed_unit<H: Hasher, D: Data, S>(unit: SignedUnit<H, D, S>)
    ensures
        unit.signable() == unit.content.0,
        unit.spec_signature() == unit.content.1,
        unit.coord() == unit.content.0.spec_pre_unit().coord,
        unit.round() == unit.content.0.spec_pre_unit().coord.round,
        unit.creator() == unit.content.0.spec_pre_unit().coord.creator,
        unit.hash() == unit.content.0.spec_hash(),
{
}

/// A unit is signed where its creator signed its hash.
pub proof fn law_unit_signed_by_creator<H: Hasher, D: Data, MK: MultiKeychain<H>>(
    unit: SignedUnit<H, D, MK::Signature>,
    keychain: MK,
)
    ensures
        unit.is_signed::<H, MK>(keychain) <==> keychain.accepts(
            unit.content.0.spec_hash(),
            unit.content.1,
            unit.content.0.spec_pre_unit().coord.creator,
        ),
{
}

/// An answer to a request for a newest unit is signed where the node that answers signed the hash of all
/// that the answer says: who asked, who answers, the unit with its signature, and the salt.
pub proof fn law_answer_signed_by_responder<H: Hasher, D: Data, MK: MultiKeychain<H>>(
    response: Signed<NewestUnitResponse<H, D, MK::Signature>, MK::Signature>,
    keychain: MK,
)
    ensures
        ({
            let answer = response.content.0;
            let hash = H::newest_response_hash(
                answer.requester,
                answer.responder,
                match answer.unit {
                    Some(unit) => Some(
                        (unit.content.0.spec_hash(), unit.content.1.encoding()),
                    ),
                    None => None,
                },
                answer.salt,
            );
            &&& answer.message() == hash
            &&& response.is_signed::<H, MK>(keychain) <==> keychain.accepts(
                hash,
                response.content.1,
                answer.responder,
            )
        }),
{
}

/// What is seen of a unit without its data is what it holds.
pub proof fn law_unit_seen<H: Hasher>(unit: Unit<H>)
    ensures
        unit@.coord == unit.coord,
        unit@.hash == unit.hash,
        unit@.parents_mask == unit.control_hash.parents_mask@,
        unit@.combined_hash == unit.control_hash.combined_hash,
{
}

} // verus!
