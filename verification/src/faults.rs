//! The reasons for which units and answers are refused.

use crate::actions::lemma_take_in_all_says;
use crate::messages::ActionView;
use crate::model::{hashes_of, placed, RunwayModel};
use crate::nodes::{count_set, law_count_set, set_indices, NodeIndex};
use crate::traits::{Data, Hasher, MultiKeychain};
use crate::units::{FullUnit, NewestUnitResponse, Round, Signed, SignedUnit};
use vstd::prelude::*;

verus! {

/// Why a unit may not be kept.
#[derive(Clone, Copy, Debug, PartialEq, Eq, Structural)]
pub enum UnitFault {
    /// It is not signed by its creator.
    WrongSignature,
    /// It is of another session.
    WrongSession,
    /// It is of too high a round.
    RoundTooHigh,
    /// Its creator is not a member of the committee.
    CreatorTooHigh,
    /// It does not reckon with the whole committee, or with more than it.
    WrongCommittee,
    /// It is of round 0 and has parents.
    ParentsInRoundZero,
    /// It is of another round and has fewer parents than a quorum.
    TooFewParents,
    /// It is of another round and none of its parents is its creator's.
    NoOwnParent,
}

/// Why an answer to the request for the newest unit does not count.
#[derive(Clone, Copy, Debug, PartialEq, Eq, Structural)]
pub enum NewestFault {
    /// The starting round has been told.
    TooLate,
    /// The answer is not signed by the node that it says it is from.
    WrongSignature,
    /// The answer is to another request.
    WrongSalt,
    /// The unit in it may not be kept.
    BadUnit(UnitFault),
    /// The unit in it is another node's.
    NotOwnUnit,
}

/// Why the parents in an answer are not taken for those of the unit.
#[derive(Clone, Copy, Debug, PartialEq, Eq, Structural)]
pub enum ParentsFault {
    /// The parents are known.
    Known,
    /// The unit is not kept.
    UnknownUnit,
    /// There are more or fewer of them than the unit has.
    WrongNumber,
    /// One of them may not be kept.
    BadUnit(UnitFault),
    /// One of them is not one round before the unit.
    WrongRound,
    /// One of them is not by the creator whose turn it is.
    WrongCreator,
    /// They do not give the control hash of the unit.
    WrongControlHash,
}

impl<H: Hasher, D: Data, MK: MultiKeychain<H>> RunwayModel<H, D, MK> {
    /// The first reason for which the parents of a unit are not in order.
    pub open spec fn unit_parents_fault(self, unit: FullUnit<H, D>) -> Option<UnitFault> {
        let mask = unit.spec_mask();
        if mask.len() != self.n_members.0 {
            Some(UnitFault::WrongCommittee)
        } else if unit.spec_round() == 0 && count_set(mask) > 0 {
            Some(UnitFault::ParentsInRoundZero)
        } else if unit.spec_round() > 0 && count_set(mask) < self.threshold.0 {
            Some(UnitFault::TooFewParents)
        } else if unit.spec_round() > 0 && !mask[unit.spec_creator().0 as int] {
            Some(UnitFault::NoOwnParent)
        } else {
            None
        }
    }

    /// The first reason for which a unit may not be kept.
    pub open spec fn unit_fault(self, unit: SignedUnit<H, D, MK::Signature>) -> Option<UnitFault> {
        if !unit.is_signed::<H, MK>(self.keychain) {
            Some(UnitFault::WrongSignature)
        } else if unit.signable().spec_session_id() != self.session_id {
            Some(UnitFault::WrongSession)
        } else if unit.round() > self.store.max_round {
            Some(UnitFault::RoundTooHigh)
        } else if unit.creator().0 >= self.n_members.0 {
            Some(UnitFault::CreatorTooHigh)
        } else {
            self.unit_parents_fault(unit.signable())
        }
    }

    /// The first reason for which an answer to the request for the newest unit does not count.
    pub open spec fn newest_fault(
        self,
        response: Signed<NewestUnitResponse<H, D, MK::Signature>, MK::Signature>,
    ) -> Option<NewestFault> {
        if self.starting_round_sent {
            Some(NewestFault::TooLate)
        } else if !response.is_signed::<H, MK>(self.keychain) {
            Some(NewestFault::WrongSignature)
        } else if response.signable().salt != self.salt {
            Some(NewestFault::WrongSalt)
        } else {
            match response.signable().unit {
                Some(unit) => match self.unit_fault(unit) {
                    Some(fault) => Some(NewestFault::BadUnit(fault)),
                    None => if unit.creator() != self.node_ix {
                        Some(NewestFault::NotOwnUnit)
                    } else {
                        None
                    },
                },
                None => None,
            }
        }
    }

    /// The first reason for which `parent` cannot be the parent that `creator` made of a unit of the
    /// round `round`.
    pub open spec fn parent_fault(
        self,
        round: Round,
        creator: NodeIndex,
        parent: SignedUnit<H, D, MK::Signature>,
    ) -> Option<ParentsFault> {
        match self.unit_fault(parent) {
            Some(fault) => Some(ParentsFault::BadUnit(fault)),
            None => if parent.round() + 1 != round {
                Some(ParentsFault::WrongRound)
            } else if parent.creator() != creator {
                Some(ParentsFault::WrongCreator)
            } else {
                None
            },
        }
    }

    /// The first reason for which units are not taken for the parents of `hash`.
    pub open spec fn parents_fault(
        self,
        hash: H::Hash,
        parents: Seq<SignedUnit<H, D, MK::Signature>>,
    ) -> Option<ParentsFault> {
        let unit = self.store.units[hash].signable();
        let creators = set_indices(unit.spec_mask());
        let good = self.n_good_parents(unit.spec_round(), creators, parents);
        if self.store.parents.contains_key(hash) {
            Some(ParentsFault::Known)
        } else if !self.store.units.contains_key(hash) {
            Some(ParentsFault::UnknownUnit)
        } else if creators.len() != parents.len() {
            Some(ParentsFault::WrongNumber)
        } else if good < parents.len() {
            self.parent_fault(unit.spec_round(), creators[good as int], parents[good as int])
        } else if H::combined_hash(
            placed(self.n_members.0 as nat, creators, hashes_of(parents)),
        ) != unit.spec_combined_hash() {
            Some(ParentsFault::WrongControlHash)
        } else {
            None
        }
    }
}

/// There is a reason to refuse a unit exactly where it is not valid.
pub proof fn law_unit_fault<H: Hasher, D: Data, MK: MultiKeychain<H>>(
    model: RunwayModel<H, D, MK>,
    unit: SignedUnit<H, D, MK::Signature>,
)
    ensures
        model.unit_fault(unit) is None <==> model.valid_unit(unit),
{
}

/// The reason for which a unit is refused is the first that holds, in the order of signature, session,
/// round, creator, committee and parents.
pub proof fn law_unit_reason<H: Hasher, D: Data, MK: MultiKeychain<H>>(
    model: RunwayModel<H, D, MK>,
    unit: SignedUnit<H, D, MK::Signature>,
)
    ensures
        ({
            let fault = model.unit_fault(unit);
            let mask = unit.signable().spec_mask();
            let n_set = Set::new(|i: int| 0 <= i < mask.len() && mask[i]).len();
            let signed = unit.is_signed::<H, MK>(model.keychain);
            let session = signed && unit.signable().spec_session_id() == model.session_id;
            let round = session && unit.round() <= model.store.max_round;
            let member = round && unit.creator().0 < model.n_members.0;
            let committee = member && mask.len() == model.n_members.0;
            &&& fault == Some(UnitFault::WrongSignature) <==> !signed
            &&& fault == Some(UnitFault::WrongSession) <==> signed && !session
            &&& fault == Some(UnitFault::RoundTooHigh) <==> session && !round
            &&& fault == Some(UnitFault::CreatorTooHigh) <==> round && !member
            &&& fault == Some(UnitFault::WrongCommittee) <==> member && !committee
            &&& fault == Some(UnitFault::ParentsInRoundZero) <==> committee && unit.round() == 0
                && n_set > 0
            &&& fault == Some(UnitFault::TooFewParents) <==> committee && unit.round() > 0 && n_set
                < model.threshold.0
            &&& fault == Some(UnitFault::NoOwnParent) <==> committee && unit.round() > 0 && n_set
                >= model.threshold.0 && !mask[unit.creator().0 as int]
        }),
{
    law_count_set(unit.signable().spec_mask());
}

/// The reason for which an answer to the request for the newest unit is refused is the first that holds,
/// in the order of time, signature, salt, and validity and creator of the unit.
pub proof fn law_newest_reason<H: Hasher, D: Data, MK: MultiKeychain<H>>(
    model: RunwayModel<H, D, MK>,
    response: Signed<NewestUnitResponse<H, D, MK::Signature>, MK::Signature>,
)
    ensures
        ({
            let fault = model.newest_fault(response);
            let timely = !model.starting_round_sent;
            let signed = timely && response.is_signed::<H, MK>(model.keychain);
            let salted = signed && response.signable().salt == model.salt;
            &&& fault == Some(NewestFault::TooLate) <==> !timely
            &&& fault == Some(NewestFault::WrongSignature) <==> timely && !signed
            &&& fault == Some(NewestFault::WrongSalt) <==> signed && !salted
            &&& salted && response.signable().unit is None ==> fault is None
            &&& salted ==> match response.signable().unit {
                Some(unit) => match model.unit_fault(unit) {
                    Some(reason) => fault == Some(NewestFault::BadUnit(reason)),
                    None => if unit.creator() == model.node_ix {
                        fault is None
                    } else {
                        fault == Some(NewestFault::NotOwnUnit)
                    },
                },
                None => fault is None,
            }
        }),
{
}

/// There is a reason to refuse an answer to the request for the newest unit exactly where it does not
/// count.
pub proof fn law_newest_fault<H: Hasher, D: Data, MK: MultiKeychain<H>>(
    model: RunwayModel<H, D, MK>,
    response: Signed<NewestUnitResponse<H, D, MK::Signature>, MK::Signature>,
)
    ensures
        model.newest_fault(response) is None <==> model.newest_counts(response),
{
}

proof fn lemma_bad_parent<H: Hasher, D: Data, MK: MultiKeychain<H>>(
    model: RunwayModel<H, D, MK>,
    round: Round,
    creators: Seq<NodeIndex>,
    parents: Seq<SignedUnit<H, D, MK::Signature>>,
)
    ensures
        ({
            let good = model.n_good_parents(round, creators, parents);
            &&& good <= parents.len()
            &&& good < parents.len() ==> !model.good_parent(
                round,
                creators[good as int],
                parents[good as int],
            )
        }),
    decreases parents.len(),
{
    if parents.len() > 0 {
        lemma_bad_parent(model, round, creators, parents.drop_last());
    }
}

/// What comes of parents, told by the reason for which they are refused: nothing where they are not
/// looked at, and otherwise those that are good are taken in.
pub proof fn lemma_parents_fault_taken<H: Hasher, D: Data, MK: MultiKeychain<H>>(
    model: RunwayModel<H, D, MK>,
    hash: H::Hash,
    parents: Seq<SignedUnit<H, D, MK::Signature>>,
)
    ensures
        ({
            let unit = model.store.units[hash].signable();
            let creators = set_indices(unit.spec_mask());
            let good = model.n_good_parents(unit.spec_round(), creators, parents);
            let taken = model.take_in_all(parents.take(good as int));
            let hashes = hashes_of(parents);
            model.on_parents_response(hash, parents) == match model.parents_fault(hash, parents) {
                Some(ParentsFault::Known) => (model, Seq::empty()),
                Some(ParentsFault::UnknownUnit) => (model, Seq::empty()),
                Some(ParentsFault::WrongNumber) => (model, Seq::empty()),
                Some(_) => taken,
                None => (
                    RunwayModel { store: taken.0.store.add_parents(hash, hashes), ..taken.0 },
                    taken.1.push(ActionView::UnitParents(hash, hashes)),
                ),
            }
        }),
{
    let unit = model.store.units[hash].signable();
    let creators = set_indices(unit.spec_mask());
    lemma_bad_parent(model, unit.spec_round(), creators, parents);
}

/// There is a reason to refuse parents exactly where the ordering part is not told that they are the
/// parents of the unit.
pub proof fn law_parents_fault<H: Hasher, D: Data, MK: MultiKeychain<H>>(
    model: RunwayModel<H, D, MK>,
    hash: H::Hash,
    parents: Seq<SignedUnit<H, D, MK::Signature>>,
)
    ensures
        model.parents_fault(hash, parents) is None <==> model.on_parents_response(
            hash,
            parents,
        ).1.contains(ActionView::UnitParents(hash, hashes_of(parents))),
{
    let step = model.on_parents_response(hash, parents);
    let said = ActionView::<H, D, MK::Signature>::UnitParents(hash, hashes_of(parents));
    let unit = model.store.units[hash].signable();
    let creators = set_indices(unit.spec_mask());
    let good = model.n_good_parents(unit.spec_round(), creators, parents);
    lemma_bad_parent(model, unit.spec_round(), creators, parents);
    lemma_take_in_all_says(model, parents.take(good as int));
    if model.parents_fault(hash, parents) is None {
        assert(step.1.last() == said);
    } else if step.1.contains(said) {
        assert(step.1[step.1.index_of(said)] == said);
    }
}

} // verus!
