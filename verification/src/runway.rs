//! The unit handling of a node.
//!
//! A `Runway` is told of events and answers with the actions that follow; what surrounds it waits
//! for the events and performs the actions.

use crate::faults::{lemma_parents_fault_taken, NewestFault, ParentsFault, UnitFault};
use crate::messages::{
    views, Action, ActionView, Alert, Delivery, Event, ForkProof, ForkingNotification, NotificationIn,
    NotificationOut, Recipient, Request, Response, RunwayNotificationIn, RunwayNotificationOut,
};
use crate::model::{
    hashes_of, lemma_good_parents_end, lemma_placed_present, lemma_placed_push, placed, quorum,
    RunwayModel,
};
use crate::nodes::{count_set, lemma_set_indices, set_indices, NodeCount, NodeIndex, NodeMap};
use crate::store::{StoreModel, UnitStore};
use crate::traits::{hash_model, Data, Hasher, MultiKeychain, Signature};
use crate::units::{
    lemma_coord_key, ControlHash, FullUnit, NewestUnitResponse, PreUnit, Round, SessionId, Signed,
    SignedUnit, Unit, UnitCoord,
};
use std::collections::HashSet;
use vstd::prelude::*;

verus! {

/// No actions.
fn none<H: Hasher, D: Data, S: Signature>() -> (actions: Vec<Action<H, D, S>>)
    ensures
        views(actions@) == Seq::<ActionView<H, D, S>>::empty(),
{
    let actions: Vec<Action<H, D, S>> = Vec::new();
    assert(views(actions@) =~= Seq::empty());
    actions
}

/// One action.
fn one<H: Hasher, D: Data, S: Signature>(action: Action<H, D, S>) -> (actions: Vec<
    Action<H, D, S>,
>)
    ensures
        views(actions@) == seq![action@],
{
    let mut actions: Vec<Action<H, D, S>> = Vec::new();
    actions.push(action);
    assert(views(actions@) =~= seq![action@]);
    actions
}

/// The actions of one list and then those of another.
fn join<H: Hasher, D: Data, S: Signature>(
    first: Vec<Action<H, D, S>>,
    second: Vec<Action<H, D, S>>,
) -> (actions: Vec<Action<H, D, S>>)
    ensures
        views(actions@) == views(first@) + views(second@),
{
    let mut first = first;
    let mut second = second;
    let ghost a = first@;
    let ghost b = second@;
    first.append(&mut second);
    assert(views(first@) =~= views(a) + views(b));
    first
}

/// What a `Runway` is made of.
pub struct RunwayConfig<'a, MK> {
    pub node_ix: NodeIndex,
    pub session_id: SessionId,
    pub n_members: NodeCount,
    pub max_round: Round,
    pub keychain: &'a MK,
    pub salt: u64,
}

/// The unit handling of a node.
#[verifier::reject_recursive_types(H)]
#[verifier::reject_recursive_types(D)]
#[verifier::reject_recursive_types(MK)]
pub struct Runway<'a, H: Hasher, D: Data, MK: MultiKeychain<H>> {
    missing_coords: HashSet<u128>,
    missing_parents: HashSet<H::Hash>,
    node_ix: NodeIndex,
    session_id: SessionId,
    n_members: NodeCount,
    threshold: NodeCount,
    store: UnitStore<H, D, MK::Signature>,
    keychain: &'a MK,
    after_catch_up_delay: bool,
    starting_round_sent: bool,
    starting_round_value: Round,
    newest_unit_responders: HashSet<usize>,
    salt: u64,
    exiting: bool,
}

impl<'a, H: Hasher, D: Data, MK: MultiKeychain<H>> View for Runway<'a, H, D, MK> {
    type V = RunwayModel<H, D, MK>;

    closed spec fn view(&self) -> RunwayModel<H, D, MK> {
        RunwayModel {
            node_ix: self.node_ix,
            session_id: self.session_id,
            n_members: self.n_members,
            threshold: self.threshold,
            keychain: *self.keychain,
            salt: self.salt,
            store: self.store@,
            missing_coords: Set::new(|c: UnitCoord| self.missing_coords@.contains(c.spec_key())),
            missing_parents: self.missing_parents@,
            after_catch_up_delay: self.after_catch_up_delay,
            starting_round_sent: self.starting_round_sent,
            starting_round_value: self.starting_round_value,
            newest_unit_responders: self.newest_unit_responders@,
            exiting: self.exiting,
        }
    }
}

impl<'a, H: Hasher, D: Data, MK: MultiKeychain<H>> Runway<'a, H, D, MK> {
    /// The store is in order and the threshold is the quorum of the committee.
    pub closed spec fn wf(&self) -> bool {
        &&& hash_model::<H::Hash>()
        &&& self.store.wf()
        &&& self.threshold.0 == quorum(self.n_members.0 as nat)
    }

    /// Hashes can key tables, the tables of the store agree, and the threshold is the quorum.
    pub proof fn lemma_wf(&self)
        requires
            self.wf(),
        ensures
            hash_model::<H::Hash>(),
            self@.store.consistent(),
            self@.threshold.0 == quorum(self@.n_members.0 as nat),
    {
        self.store.lemma_wf();
    }

    /// The state that `new` gives.
    pub open spec fn initial(config: RunwayConfig<'a, MK>) -> RunwayModel<H, D, MK> {
        RunwayModel {
            node_ix: config.node_ix,
            session_id: config.session_id,
            n_members: config.n_members,
            threshold: NodeCount(quorum(config.n_members.0 as nat) as usize),
            keychain: *config.keychain,
            salt: config.salt,
            store: StoreModel::empty(config.max_round),
            missing_coords: Set::empty(),
            missing_parents: Set::empty(),
            after_catch_up_delay: false,
            starting_round_sent: false,
            starting_round_value: 0,
            newest_unit_responders: Set::empty(),
            exiting: false,
        }
    }

    /// A node that knows of no units.
    pub fn new(config: RunwayConfig<'a, MK>) -> (runway: Self)
        requires
            hash_model::<H::Hash>(),
            config.n_members.0 * 2 <= usize::MAX,
        ensures
            runway.wf(),
            runway@ == Self::initial(config),
    {
        let threshold = NodeCount(config.n_members.0 * 2 / 3 + 1);
        let runway = Runway {
            missing_coords: HashSet::new(),
            missing_parents: HashSet::new(),
            node_ix: config.node_ix,
            session_id: config.session_id,
            n_members: config.n_members,
            threshold,
            store: UnitStore::new(config.max_round),
            keychain: config.keychain,
            after_catch_up_delay: false,
            starting_round_sent: false,
            starting_round_value: 0,
            newest_unit_responders: HashSet::new(),
            salt: config.salt,
            exiting: false,
        };
        assert(runway@ =~= Self::initial(config));
        runway
    }

    /// The position of this node.
    pub fn index(&self) -> (index: NodeIndex)
        ensures
            index == self@.node_ix,
    {
        self.node_ix
    }

    /// The number of parents that a unit needs.
    pub fn threshold(&self) -> (threshold: NodeCount)
        ensures
            threshold == self@.threshold,
    {
        self.threshold
    }

    /// The first reason for which the parents of a unit are not in order. At this point the control
    /// hash cannot be checked.
    pub fn unit_parents_fault(&self, unit: &SignedUnit<H, D, MK::Signature>) -> (fault: Option<
        UnitFault,
    >)
        requires
            ({
                let mask = unit.signable().spec_mask();
                ||| unit.creator().0 < self@.n_members.0
                ||| unit.round() == 0
                ||| mask.len() != self@.n_members.0
                ||| count_set(mask) < self@.threshold.0
            }),
        ensures
            fault == self@.unit_parents_fault(unit.signable()),
    {
        let pre_unit = unit.as_signable().as_pre_unit();
        if pre_unit.n_members().0 != self.n_members.0 {
            return Some(UnitFault::WrongCommittee);
        }
        let round = pre_unit.round();
        let n_parents = pre_unit.n_parents();
        if round == 0 && n_parents.0 > 0 {
            return Some(UnitFault::ParentsInRoundZero);
        }
        if round > 0 && n_parents.0 < self.threshold.0 {
            return Some(UnitFault::TooFewParents);
        }
        if round > 0 && !*pre_unit.control_hash.parents_mask.get(pre_unit.creator()) {
            return Some(UnitFault::NoOwnParent);
        }
        None
    }

    /// Tells whether the parents of a unit are in order.
    pub fn validate_unit_parents(&self, unit: &SignedUnit<H, D, MK::Signature>) -> (valid: bool)
        requires
            ({
                let mask = unit.signable().spec_mask();
                ||| unit.creator().0 < self@.n_members.0
                ||| unit.round() == 0
                ||| mask.len() != self@.n_members.0
                ||| count_set(mask) < self@.threshold.0
            }),
        ensures
            valid == self@.valid_parents(unit.signable()),
    {
        self.unit_parents_fault(unit).is_none()
    }

    /// The first reason for which a unit may not be kept.
    pub fn unit_fault(&self, unit: &SignedUnit<H, D, MK::Signature>) -> (fault: Option<UnitFault>)
        ensures
            fault == self@.unit_fault(*unit),
            fault is None <==> self@.valid_unit(*unit),
    {
        if !unit.check::<H, MK>(self.keychain) {
            return Some(UnitFault::WrongSignature);
        }
        let full_unit = unit.as_signable();
        if full_unit.session_id() != self.session_id {
            return Some(UnitFault::WrongSession);
        }
        if full_unit.round() > self.store.limit_per_node() {
            return Some(UnitFault::RoundTooHigh);
        }
        if full_unit.creator().0 >= self.n_members.0 {
            return Some(UnitFault::CreatorTooHigh);
        }
        self.unit_parents_fault(unit)
    }

    /// The unit, if it may be kept.
    pub fn validate_unit(&self, unit: SignedUnit<H, D, MK::Signature>) -> (valid: Option<
        SignedUnit<H, D, MK::Signature>,
    >)
        ensures
            valid == if self@.valid_unit(unit) {
                Some(unit)
            } else {
                None
            },
    {
        if self.unit_fault(&unit).is_some() {
            return None;
        }
        Some(unit)
    }

    /// A unit at `coord` is not missing any more.
    pub fn resolve_missing_coord(&mut self, coord: &UnitCoord) -> (actions: Vec<
        Action<H, D, MK::Signature>,
    >)
        requires
            old(self).wf(),
        ensures
            final(self).wf(),
            (final(self)@, views(actions@)) == old(self)@.resolve_missing_coord(*coord),
    {
        broadcast use vstd::std_specs::hash::group_hash_axioms;

        let removed = self.missing_coords.remove(&coord.key());
        proof {
            assert forall|c: UnitCoord|
                self@.missing_coords.contains(c) == old(self)@.missing_coords.remove(
                    *coord,
                ).contains(c) by {
                lemma_coord_key(c, *coord);
            }
            assert(self@.missing_coords =~= old(self)@.missing_coords.remove(*coord));
        }
        if removed {
            assert(self@ =~= old(self)@.resolve_missing_coord(*coord).0);
            one(Action::Resolved(Request::Coord(*coord)))
        } else {
            assert(self@.missing_coords =~= old(self)@.missing_coords);
            assert(self@ =~= old(self)@);
            none()
        }
    }

    /// The parents of the unit with the hash `hash` are not missing any more.
    pub fn resolve_missing_parents(&mut self, hash: &H::Hash) -> (actions: Vec<
        Action<H, D, MK::Signature>,
    >)
        requires
            old(self).wf(),
        ensures
            final(self).wf(),
            (final(self)@, views(actions@)) == old(self)@.resolve_missing_parents(*hash),
    {
        broadcast use vstd::std_specs::hash::group_hash_axioms;

        let removed = self.missing_parents.remove(hash);
        if removed {
            assert(self@ =~= old(self)@.resolve_missing_parents(*hash).0);
            one(Action::Resolved(Request::Parents(*hash)))
        } else {
            assert(self@.missing_parents =~= old(self)@.missing_parents);
            assert(self@ =~= old(self)@);
            none()
        }
    }

    /// The alert for a fork, in which this node vouches for `units`.
    pub fn form_alert(
        &self,
        proof_of_fork: ForkProof<H, D, MK::Signature>,
        units: Vec<SignedUnit<H, D, MK::Signature>>,
    ) -> (alert: Alert<H, D, MK::Signature>)
        ensures
            alert.sender == self@.node_ix,
            alert.proof_of_fork == proof_of_fork,
            alert.legit_units@ == units@,
    {
        Alert { sender: self.node_ix, proof_of_fork, legit_units: units }
    }

    /// A forker becomes known.
    pub fn on_new_forker_detected(
        &mut self,
        forker: NodeIndex,
        proof_of_fork: ForkProof<H, D, MK::Signature>,
    ) -> (actions: Vec<Action<H, D, MK::Signature>>)
        requires
            old(self).wf(),
        ensures
            final(self).wf(),
            (final(self)@, views(actions@)) == old(self)@.new_forker(forker, proof_of_fork),
    {
        let units = self.store.mark_forker(forker);
        let alert = self.form_alert(proof_of_fork, units);
        assert(self@ =~= old(self)@.new_forker(forker, proof_of_fork).0);
        one(Action::Alert(alert))
    }

    /// Keeps a valid unit, unless its creator is a forker or the unit shows it to be one.
    pub fn add_unit_to_store_unless_fork(&mut self, unit: SignedUnit<H, D, MK::Signature>) -> (actions:
        Vec<Action<H, D, MK::Signature>>)
        requires
            old(self).wf(),
        ensures
            final(self).wf(),
            (final(self)@, views(actions@)) == old(self)@.add_unless_fork(unit),
    {
        let creator = unit.as_signable().creator();
        if self.store.is_forker(creator) {
            return none();
        }
        match self.store.is_new_fork(unit.as_signable()) {
            // The unit is not kept. If it is legit, it will come in some alert.
            Some(other) => self.on_new_forker_detected(creator, (unit, other)),
            None => {
                self.store.add_unit(unit, false);
                assert(self@ =~= old(self)@.add_unless_fork(unit).0);
                none()
            },
        }
    }

    /// A unit comes in.
    pub fn on_unit_received(&mut self, unit: SignedUnit<H, D, MK::Signature>, alert: bool) -> (actions:
        Vec<Action<H, D, MK::Signature>>)
        requires
            old(self).wf(),
        ensures
            final(self).wf(),
            (final(self)@, views(actions@)) == old(self)@.on_unit_received(unit, alert),
    {
        match self.validate_unit(unit) {
            Some(unit) => {
                let first = self.resolve_missing_coord(&unit.as_signable().coord());
                if alert {
                    // Units from alerts explicitly come from forkers, and we want them anyway.
                    self.store.add_unit(unit, true);
                    assert(self@ =~= old(self)@.on_unit_received(unit, alert).0);
                    first
                } else {
                    let second = self.add_unit_to_store_unless_fork(unit);
                    join(first, second)
                }
            },
            None => none(),
        }
    }

    /// A request for the unit at `coord` comes in.
    pub fn on_request_coord(&self, node_id: NodeIndex, coord: UnitCoord) -> (actions: Vec<
        Action<H, D, MK::Signature>,
    >)
        requires
            self.wf(),
        ensures
            views(actions@) == self@.on_request_coord(node_id, coord),
    {
        match self.store.unit_by_coord(coord) {
            Some(unit) => one(
                Action::Network(
                    RunwayNotificationOut::Response(Response::Coord(unit.clone()), node_id),
                ),
            ),
            None => none(),
        }
    }

    /// A request for the parents of the unit with the hash `hash` comes in.
    pub fn on_request_parents(&self, node_id: NodeIndex, hash: H::Hash) -> (actions: Vec<
        Action<H, D, MK::Signature>,
    >)
        requires
            self.wf(),
        ensures
            views(actions@) == self@.on_request_parents(node_id, hash),
    {
        let p_hashes = match self.store.get_parents(hash) {
            Some(p_hashes) => p_hashes,
            None => {
                return none();
            },
        };
        let mut full_units: Vec<SignedUnit<H, D, MK::Signature>> = Vec::new();
        let mut i: usize = 0;
        while i < p_hashes.len()
            invariant
                self.wf(),
                self@.store.get_parents(hash) == Some(p_hashes@),
                i <= p_hashes@.len(),
                full_units@.len() == i,
                forall|j: int|
                    0 <= j < i ==> self@.store.units.contains_key(#[trigger] p_hashes@[j]),
                forall|j: int|
                    0 <= j < i ==> #[trigger] full_units@[j] == self@.store.units[p_hashes@[j]],
            decreases p_hashes@.len() - i,
        {
            match self.store.unit_by_hash(&p_hashes[i]) {
                Some(unit) => {
                    full_units.push(unit.clone());
                },
                // Parents may have been dropped as forks. Those that are legit come in an alert.
                None => {
                    assert(!self@.keeps_all(p_hashes@));
                    return none();
                },
            }
            i = i + 1;
        }
        assert(self@.keeps_all(p_hashes@));
        assert(full_units@ =~= p_hashes@.map_values(|h: H::Hash| self@.store.units[h]));
        one(
            Action::Network(
                RunwayNotificationOut::Response(Response::Parents(hash, full_units), node_id),
            ),
        )
    }

    /// A request for the newest unit of `requester` comes in: what is to be signed in answer.
    pub fn on_request_newest(&self, requester: NodeIndex, salt: u64) -> (response:
        NewestUnitResponse<H, D, MK::Signature>)
        requires
            self.wf(),
        ensures
            response == self@.on_request_newest(requester, salt),
    {
        NewestUnitResponse {
            requester,
            responder: self.node_ix,
            unit: self.store.newest_unit(requester),
            salt,
        }
    }

    /// The answer to a request for a newest unit has been signed.
    pub fn on_newest_signed(
        &self,
        response: Signed<NewestUnitResponse<H, D, MK::Signature>, MK::Signature>,
    ) -> (actions: Vec<Action<H, D, MK::Signature>>)
        ensures
            views(actions@) == self@.on_newest_signed(response),
    {
        let requester = response.as_signable().requester;
        one(
            Action::Network(
                RunwayNotificationOut::Response(Response::NewestUnit(response), requester),
            ),
        )
    }

    /// How many of the units, from the first on, are good parents of the unit with the hash `u_hash`,
    /// and, where they are its parents, their hashes.
    fn judge_parents(
        &self,
        u_hash: H::Hash,
        parents: &Vec<SignedUnit<H, D, MK::Signature>>,
    ) -> (judged: (usize, Result<Vec<H::Hash>, ParentsFault>))
        requires
            self.wf(),
        ensures
            match judged.1 {
                Ok(hashes) => {
                    &&& self@.parents_fault(u_hash, parents@) is None
                    &&& hashes@ == hashes_of(parents@)
                },
                Err(fault) => self@.parents_fault(u_hash, parents@) == Some(fault),
            },
            judged.0 == match judged.1 {
                Err(ParentsFault::Known) => 0,
                Err(ParentsFault::UnknownUnit) => 0,
                Err(ParentsFault::WrongNumber) => 0,
                _ => {
                    let unit = self@.store.units[u_hash].signable();
                    self@.n_good_parents(
                        unit.spec_round(),
                        set_indices(unit.spec_mask()),
                        parents@,
                    )
                },
            },
            judged.0 <= parents@.len(),
    {
        if self.store.get_parents(u_hash).is_some() {
            return (0, Err(ParentsFault::Known));
        }
        let (u_round, u_control_hash, parent_ids) = match self.store.unit_by_hash(&u_hash) {
            Some(unit) => {
                let full_unit = unit.as_signable();
                (
                    full_unit.round(),
                    full_unit.control_hash().combined_hash,
                    full_unit.control_hash().parents(),
                )
            },
            None => {
                return (0, Err(ParentsFault::UnknownUnit));
            },
        };
        if parent_ids.len() != parents.len() {
            return (0, Err(ParentsFault::WrongNumber));
        }
        let ghost unit = self@.store.units[u_hash].signable();
        let ghost size = self.n_members.0 as nat;
        let mut p_hashes_node_map: NodeMap<Option<H::Hash>> = NodeMap::with_size(self.n_members);
        let mut i: usize = 0;
        proof {
            unit.spec_pre_unit().control_hash.parents_mask.lemma_len();
            lemma_set_indices(unit.spec_mask());
            assert(parents@.take(0) =~= Seq::empty());
            assert(p_hashes_node_map@ =~= placed(
                size,
                parent_ids@.take(0),
                hashes_of(parents@.take(0)),
            ));
        }
        while i < parents.len()
            invariant
                size == self@.n_members.0,
                parent_ids@.len() == parents@.len(),
                forall|k: int, l: int|
                    0 <= k < l < parent_ids@.len() ==> (#[trigger] parent_ids@[k]).0 < (
                    #[trigger] parent_ids@[l]).0,
                i <= parents@.len(),
                self@.n_good_parents(u_round, parent_ids@, parents@.take(i as int)) == i,
                forall|k: int| 0 <= k < i ==> (#[trigger] parent_ids@[k]).0 < size,
                p_hashes_node_map@ == placed(
                    size,
                    parent_ids@.take(i as int),
                    hashes_of(parents@.take(i as int)),
                ),
                !self@.store.parents.contains_key(u_hash),
                self@.store.units.contains_key(u_hash),
                unit == self@.store.units[u_hash].signable(),
                parent_ids@ == set_indices(unit.spec_mask()),
                u_round == unit.spec_round(),
                u_control_hash == unit.spec_combined_hash(),
            decreases parents@.len() - i,
        {
            let ghost fewer = parents@.take(i as int);
            let ghost more = parents@.take(i + 1);
            let parent = &parents[i];
            let full_unit = parent.as_signable();
            let fault: Option<ParentsFault> = match self.unit_fault(parent) {
                Some(fault) => Some(ParentsFault::BadUnit(fault)),
                None => if full_unit.round() as u32 + 1 != u_round as u32 {
                    Some(ParentsFault::WrongRound)
                } else if full_unit.creator().0 != parent_ids[i].0 {
                    Some(ParentsFault::WrongCreator)
                } else {
                    None
                },
            };
            assert(fault == self@.parent_fault(u_round, parent_ids@[i as int], parents@[i as int]));
            if let Some(fault) = fault {
                proof {
                    lemma_good_parents_end(self@, u_round, parent_ids@, parents@, i as int);
                }
                return (i, Err(fault));
            }
            let p_hash = full_unit.hash();
            let ix = full_unit.creator();
            proof {
                let ids = parent_ids@.take(i as int);
                assert(more.drop_last() =~= fewer);
                assert(ids.push(ix) =~= parent_ids@.take(i + 1));
                assert(hashes_of(fewer).push(p_hash) =~= hashes_of(more));
                lemma_placed_push(size, ids, hashes_of(fewer), ix, p_hash);
            }
            p_hashes_node_map.insert(ix, p_hash);
            i = i + 1;
        }
        proof {
            assert(parents@.take(i as int) =~= parents@);
            assert(parent_ids@.take(i as int) =~= parent_ids@);
            lemma_placed_present(size, parent_ids@, hashes_of(parents@));
            reveal(vstd::laws_eq::obeys_concrete_eq);
        }
        let combined = ControlHash::<H>::combine_hashes(&p_hashes_node_map);
        if combined != u_control_hash {
            return (i, Err(ParentsFault::WrongControlHash));
        }
        (i, Ok(p_hashes_node_map.into_values()))
    }

    /// The first reason for which units are not taken for the parents of the unit with the hash
    /// `u_hash`.
    pub fn parents_fault(
        &self,
        u_hash: H::Hash,
        parents: &Vec<SignedUnit<H, D, MK::Signature>>,
    ) -> (fault: Option<ParentsFault>)
        requires
            self.wf(),
        ensures
            fault == self@.parents_fault(u_hash, parents@),
    {
        match self.judge_parents(u_hash, parents).1 {
            Ok(_) => None,
            Err(fault) => Some(fault),
        }
    }

    /// Parents of the unit with the hash `u_hash` come in.
    pub fn on_parents_response(
        &mut self,
        u_hash: H::Hash,
        parents: Vec<SignedUnit<H, D, MK::Signature>>,
    ) -> (actions: Vec<Action<H, D, MK::Signature>>)
        requires
            old(self).wf(),
        ensures
            final(self).wf(),
            (final(self)@, views(actions@)) == old(self)@.on_parents_response(u_hash, parents@),
    {
        let (good, judged) = self.judge_parents(u_hash, &parents);
        let ghost before = self@;
        let mut actions: Vec<Action<H, D, MK::Signature>> = none();
        let mut i: usize = 0;
        assert(parents@.take(0) =~= Seq::empty());
        while i < good
            invariant
                self.wf(),
                i <= good <= parents@.len(),
                (self@, views(actions@)) == before.take_in_all(parents@.take(i as int)),
            decreases good - i,
        {
            assert(parents@.take(i + 1).drop_last() =~= parents@.take(i as int));
            let unit = parents[i].clone();
            let first = self.resolve_missing_coord(&unit.as_signable().coord());
            let second = self.add_unit_to_store_unless_fork(unit);
            actions = join(actions, join(first, second));
            i = i + 1;
        }
        proof {
            lemma_parents_fault_taken(before, u_hash, parents@);
        }
        match judged {
            Ok(p_hashes) => {
                let notified = copy_hashes::<H>(&p_hashes);
                self.store.add_parents(u_hash, p_hashes);
                let last = one(Action::Consensus(NotificationIn::UnitParents(u_hash, notified)));
                let all = join(actions, last);
                assert(views(all@) =~= before.on_parents_response(u_hash, parents@).1);
                assert(self@ =~= before.on_parents_response(u_hash, parents@).0);
                all
            },
            Err(_) => actions,
        }
    }

    /// Tells whether the starting round can be told.
    pub fn is_starting_round_ready(&self) -> (ready: bool)
        requires
            self.wf(),
        ensures
            ready == self@.is_starting_round_ready(),
    {
        broadcast use vstd::std_specs::hash::group_hash_axioms;

        self.after_catch_up_delay && self.newest_unit_responders.len() >= self.threshold.0 - 1
    }

    /// Tells the starting round, unless it was told earlier.
    pub fn resolve_starting_round(&mut self) -> (actions: Vec<Action<H, D, MK::Signature>>)
        requires
            old(self).wf(),
        ensures
            final(self).wf(),
            (final(self)@, views(actions@)) == old(self)@.resolve_starting_round(),
    {
        if self.starting_round_sent {
            return none();
        }
        self.starting_round_sent = true;
        assert(self@ =~= old(self)@.resolve_starting_round().0);
        one(Action::StartingRound(self.starting_round_value))
    }

    /// The forgotten unit that an answer to the request for the newest unit brings, if it counts.
    fn judge_newest(
        &self,
        response: &Signed<NewestUnitResponse<H, D, MK::Signature>, MK::Signature>,
    ) -> (judged: Result<Option<SignedUnit<H, D, MK::Signature>>, NewestFault>)
        requires
            self.wf(),
        ensures
            match judged {
                Ok(forgotten) => {
                    &&& self@.newest_fault(*response) is None
                    &&& forgotten == self@.forgotten_unit(*response)
                },
                Err(fault) => self@.newest_fault(*response) == Some(fault),
            },
    {
        if self.starting_round_sent {
            return Err(NewestFault::TooLate);
        }
        if !response.check::<H, MK>(self.keychain) {
            return Err(NewestFault::WrongSignature);
        }
        let newest = response.as_signable();
        if newest.salt != self.salt {
            return Err(NewestFault::WrongSalt);
        }
        match &newest.unit {
            Some(unit) => match self.unit_fault(unit) {
                Some(fault) => Err(NewestFault::BadUnit(fault)),
                None => {
                    if unit.as_signable().creator().0 != self.node_ix.0 {
                        Err(NewestFault::NotOwnUnit)
                    } else if self.store.contains_hash(&unit.as_signable().hash()) {
                        Ok(None)
                    } else {
                        Ok(Some(unit.clone()))
                    }
                },
            },
            None => Ok(None),
        }
    }

    /// The first reason for which an answer to the request for the newest unit does not count.
    pub fn newest_fault(
        &self,
        response: &Signed<NewestUnitResponse<H, D, MK::Signature>, MK::Signature>,
    ) -> (fault: Option<NewestFault>)
        requires
            self.wf(),
        ensures
            fault == self@.newest_fault(*response),
            fault is None <==> self@.newest_counts(*response),
    {
        match self.judge_newest(response) {
            Ok(_) => None,
            Err(fault) => Some(fault),
        }
    }

    /// An answer to the request for the newest unit comes in.
    pub fn on_newest_response(
        &mut self,
        response: Signed<NewestUnitResponse<H, D, MK::Signature>, MK::Signature>,
    ) -> (actions: Vec<Action<H, D, MK::Signature>>)
        requires
            old(self).wf(),
            old(self)@.starting_round_fits(response),
        ensures
            final(self).wf(),
            (final(self)@, views(actions@)) == old(self)@.on_newest_response(response),
    {
        broadcast use vstd::std_specs::hash::group_hash_axioms;

        let forgotten = match self.judge_newest(&response) {
            Ok(forgotten) => forgotten,
            Err(_) => {
                return none();
            },
        };
        let mut actions: Vec<Action<H, D, MK::Signature>> = none();
        if let Some(unit) = forgotten {
            let starting_round_candidate: Round = unit.as_signable().round() + 1;
            actions = self.on_unit_received(unit, false);
            if starting_round_candidate > self.starting_round_value {
                self.starting_round_value = starting_round_candidate;
            }
        }
        self.newest_unit_responders.insert(response.as_signable().responder.0);
        let ghost (counted, first) = old(self)@.count_newest(response);
        assert(self@ =~= counted);
        assert(views(actions@) =~= first);
        if self.is_starting_round_ready() {
            let last = self.resolve_starting_round();
            join(actions, last)
        } else {
            assert(first + Seq::empty() =~= first);
            actions
        }
    }

    /// A message from the network comes in.
    pub fn on_unit_message(&mut self, message: RunwayNotificationIn<H, D, MK::Signature>) -> (actions:
        Vec<Action<H, D, MK::Signature>>)
        requires
            old(self).wf(),
            old(self)@.can_handle(Event::Network(Some(message))),
        ensures
            final(self).wf(),
            (final(self)@, views(actions@)) == old(self)@.on_unit_message(message),
    {
        match message {
            RunwayNotificationIn::NewUnit(unit) => self.on_unit_received(unit, false),
            RunwayNotificationIn::Request(request, node_id) => match request {
                Request::Coord(coord) => self.on_request_coord(node_id, coord),
                Request::Parents(hash) => self.on_request_parents(node_id, hash),
                Request::NewestUnit(salt) => one(
                    Action::SignNewest(self.on_request_newest(node_id, salt)),
                ),
            },
            RunwayNotificationIn::Response(response) => match response {
                Response::Coord(unit) => self.on_unit_received(unit, false),
                Response::Parents(hash, parents) => self.on_parents_response(hash, parents),
                Response::NewestUnit(newest) => self.on_newest_response(newest),
            },
        }
    }

    /// A notification from the part that handles alerts comes in.
    pub fn on_alert_notification(
        &mut self,
        notification: ForkingNotification<H, D, MK::Signature>,
    ) -> (actions: Vec<Action<H, D, MK::Signature>>)
        requires
            old(self).wf(),
        ensures
            final(self).wf(),
            (final(self)@, views(actions@)) == old(self)@.on_alert_notification(notification),
    {
        match notification {
            ForkingNotification::Forker(proof_of_fork) => {
                let forker = proof_of_fork.0.as_signable().creator();
                if self.store.is_forker(forker) {
                    none()
                } else {
                    self.on_new_forker_detected(forker, proof_of_fork)
                }
            },
            ForkingNotification::Units(units) => {
                let ghost before = self@;
                let mut actions: Vec<Action<H, D, MK::Signature>> = none();
                let mut i: usize = 0;
                assert(units@.take(0) =~= Seq::empty());
                while i < units.len()
                    invariant
                        self.wf(),
                        i <= units@.len(),
                        (self@, views(actions@)) == before.on_alerted_units(units@.take(i as int)),
                    decreases units@.len() - i,
                {
                    assert(units@.take(i + 1).drop_last() =~= units@.take(i as int));
                    let next = self.on_unit_received(units[i].clone(), true);
                    actions = join(actions, next);
                    i = i + 1;
                }
                assert(units@.take(i as int) =~= units@);
                actions
            },
        }
    }

    /// Units at these places are needed.
    pub fn on_missing_coords(&mut self, coords: Vec<UnitCoord>) -> (actions: Vec<
        Action<H, D, MK::Signature>,
    >)
        requires
            old(self).wf(),
        ensures
            final(self).wf(),
            (final(self)@, views(actions@)) == old(self)@.on_missing_coords(coords@),
    {
        broadcast use vstd::std_specs::hash::group_hash_axioms;

        let ghost before = self@;
        let mut actions: Vec<Action<H, D, MK::Signature>> = none();
        let mut i: usize = 0;
        assert(coords@.take(0) =~= Seq::empty());
        while i < coords.len()
            invariant
                self.wf(),
                self@.store == before.store,
                i <= coords@.len(),
                (self@, views(actions@)) == before.on_missing_coords(coords@.take(i as int)),
            decreases coords@.len() - i,
        {
            let coord = coords[i];
            let ghost current = self@;
            let ghost earlier = views(actions@);
            assert(coords@.take(i + 1).drop_last() =~= coords@.take(i as int));
            if !self.store.contains_coord(&coord) {
                if self.missing_coords.insert(coord.key()) {
                    proof {
                        assert forall|c: UnitCoord|
                            self@.missing_coords.contains(c) == current.missing_coords.insert(
                                coord,
                            ).contains(c) by {
                            lemma_coord_key(c, coord);
                        }
                        assert(self@.missing_coords =~= current.missing_coords.insert(coord));
                    }
                    let request = one(
                        Action::Network(
                            RunwayNotificationOut::Request(
                                Request::Coord(coord),
                                Recipient::Node(coord.creator()),
                            ),
                        ),
                    );
                    actions = join(actions, request);
                    assert(views(actions@) =~= earlier.push(
                        ActionView::Request(
                            Request::Coord(coord),
                            Recipient::Node(coord.creator),
                        ),
                    ));
                    assert(self@ =~= before.on_missing_coords(coords@.take(i + 1)).0);
                } else {
                    proof {
                        assert forall|c: UnitCoord|
                            self@.missing_coords.contains(c) == current.missing_coords.contains(
                                c,
                            ) by {
                            lemma_coord_key(c, coord);
                        }
                        assert(self@.missing_coords =~= current.missing_coords);
                        assert(self@ =~= current);
                    }
                }
            }
            i = i + 1;
        }
        assert(coords@.take(i as int) =~= coords@);
        actions
    }

    /// The parents of the unit with the hash `hash` are needed.
    pub fn on_wrong_control_hash(&mut self, hash: H::Hash) -> (actions: Vec<
        Action<H, D, MK::Signature>,
    >)
        requires
            old(self).wf(),
        ensures
            final(self).wf(),
            (final(self)@, views(actions@)) == old(self)@.on_wrong_control_hash(hash),
    {
        broadcast use vstd::std_specs::hash::group_hash_axioms;

        if let Some(p_hashes) = self.store.get_parents(hash) {
            // The parents came without being requested.
            let p_hashes = copy_hashes::<H>(p_hashes);
            return one(Action::Consensus(NotificationIn::UnitParents(hash, p_hashes)));
        }
        let recipient = match self.store.unit_by_hash(&hash) {
            Some(unit) => Recipient::Node(unit.as_signable().creator()),
            None => Recipient::Everyone,
        };
        if self.missing_parents.insert(hash) {
            assert(self@ =~= old(self)@.on_wrong_control_hash(hash).0);
            one(
                Action::Network(
                    RunwayNotificationOut::Request(Request::Parents(hash), recipient),
                ),
            )
        } else {
            assert(self@.missing_parents =~= old(self)@.missing_parents);
            assert(self@ =~= old(self)@);
            none()
        }
    }

    /// The unit with the hash `hash` was added to the DAG with these parents.
    pub fn on_added_to_dag(&mut self, hash: H::Hash, parents: Vec<H::Hash>) -> (actions: Vec<
        Action<H, D, MK::Signature>,
    >)
        requires
            old(self).wf(),
        ensures
            final(self).wf(),
            (final(self)@, views(actions@)) == old(self)@.on_added_to_dag(hash, parents@),
    {
        self.store.add_parents(hash, parents);
        let ghost recorded = RunwayModel {
            store: old(self)@.store.add_parents(hash, parents@),
            ..old(self)@
        };
        assert(self@ =~= recorded);
        let actions = self.resolve_missing_parents(&hash);
        let ghost resolved = views(actions@);
        match self.store.unit_by_hash(&hash) {
            Some(unit) => {
                if unit.as_signable().creator().0 == self.node_ix.0 {
                    let last = one(
                        Action::Network(RunwayNotificationOut::NewUnit(unit.clone())),
                    );
                    let all = join(actions, last);
                    assert(views(all@) =~= resolved.push(ActionView::NewUnit(*unit)));
                    all
                } else {
                    actions
                }
            },
            None => actions,
        }
    }

    /// A notification from the ordering part comes in.
    pub fn on_consensus_notification(&mut self, notification: NotificationOut<H>) -> (actions: Vec<
        Action<H, D, MK::Signature>,
    >)
        requires
            old(self).wf(),
        ensures
            final(self).wf(),
            (final(self)@, views(actions@)) == old(self)@.on_consensus_notification(notification),
    {
        match notification {
            NotificationOut::CreatedPreUnit(pre_unit, _) => one(Action::CreateUnit(pre_unit)),
            NotificationOut::MissingUnits(coords) => self.on_missing_coords(coords),
            NotificationOut::WrongControlHash(hash) => self.on_wrong_control_hash(hash),
            NotificationOut::AddedToDag(hash, parents) => self.on_added_to_dag(hash, parents),
        }
    }

    /// The unit of this node that `pre_unit` and `data` make: what is to be signed.
    pub fn create_unit(&self, pre_unit: PreUnit<H>, data: D) -> (unit: FullUnit<H, D>)
        ensures
            unit.spec_pre_unit() == pre_unit,
            unit.spec_data() == data,
            unit.spec_session_id() == self@.session_id,
            unit.spec_hash() == unit.content_hash(),
            unit.spec_hash() == H::unit_hash(
                pre_unit.coord,
                pre_unit.control_hash.parents_mask@,
                pre_unit.control_hash.combined_hash,
                data.encoding(),
                self@.session_id,
            ),
    {
        FullUnit::new(pre_unit, data, self.session_id)
    }

    /// A unit that this node created has been signed.
    pub fn on_unit_created(&mut self, unit: SignedUnit<H, D, MK::Signature>)
        requires
            old(self).wf(),
        ensures
            final(self).wf(),
            final(self)@ == old(self)@.on_unit_created(unit),
    {
        self.store.add_unit(unit, false);
        assert(self@ =~= old(self)@.on_unit_created(unit));
    }

    /// Units have been ordered: their data.
    pub fn on_ordered_batch(&self, hashes: Vec<H::Hash>) -> (batch: Vec<D>)
        requires
            self.wf(),
            self@.keeps_all(hashes@),
        ensures
            self@.is_ordered_batch(hashes@, batch@),
    {
        let mut batch: Vec<D> = Vec::new();
        let mut i: usize = 0;
        while i < hashes.len()
            invariant
                self.wf(),
                self@.keeps_all(hashes@),
                i <= hashes@.len(),
                batch@.len() == i,
                forall|j: int|
                    0 <= j < i ==> cloned(
                        self@.store.units[hashes@[j]].signable().spec_data(),
                        #[trigger] batch@[j],
                    ),
            decreases hashes@.len() - i,
        {
            if let Some(unit) = self.store.unit_by_hash(&hashes[i]) {
                batch.push(unit.as_signable().data().clone());
            }
            i = i + 1;
        }
        batch
    }

    /// Tells the ordering part of the units that it has not been told of.
    pub fn move_units_to_consensus(&mut self) -> (actions: Vec<Action<H, D, MK::Signature>>)
        requires
            old(self).wf(),
        ensures
            final(self).wf(),
            (final(self)@, views(actions@)) == old(self)@.move_units_to_consensus(),
    {
        let buffered = self.store.yield_buffer_units();
        let mut units: Vec<Unit<H>> = Vec::new();
        let mut i: usize = 0;
        while i < buffered.len()
            invariant
                i <= buffered@.len(),
                units@.len() == i,
                forall|j: int|
                    0 <= j < i ==> (#[trigger] units@[j])@ == buffered@[j].signable().spec_unit(),
            decreases buffered@.len() - i,
        {
            units.push(buffered[i].as_signable().unit());
            i = i + 1;
        }
        assert(units@.map_values(|unit: Unit<H>| unit@) =~= buffered@.map_values(
            |unit: SignedUnit<H, D, MK::Signature>| unit.signable().spec_unit(),
        ));
        assert(self@ =~= old(self)@.move_units_to_consensus().0);
        one(Action::Consensus(NotificationIn::NewUnits(units)))
    }

    /// The time for hearing of this node's own units is over.
    pub fn on_catch_up_delay(&mut self) -> (actions: Vec<Action<H, D, MK::Signature>>)
        requires
            old(self).wf(),
        ensures
            final(self).wf(),
            (final(self)@, views(actions@)) == old(self)@.on_catch_up_delay(),
    {
        self.after_catch_up_delay = true;
        let ghost delayed = RunwayModel { after_catch_up_delay: true, ..old(self)@ };
        assert(self@ =~= delayed);
        if self.is_starting_round_ready() {
            self.resolve_starting_round()
        } else {
            none()
        }
    }

    /// What is to be done before the first event: every node is asked for the newest unit of this
    /// one.
    pub fn on_start(&self) -> (actions: Vec<Action<H, D, MK::Signature>>)
        ensures
            views(actions@) == self@.on_start(),
    {
        one(
            Action::Network(
                RunwayNotificationOut::Request(
                    Request::NewestUnit(self.salt),
                    Recipient::Everyone,
                ),
            ),
        )
    }

    /// It becomes known whether an action was delivered.
    pub fn on_delivery(&mut self, delivery: Delivery, delivered: bool) -> (actions: Vec<
        Action<H, D, MK::Signature>,
    >)
        requires
            old(self).wf(),
        ensures
            final(self).wf(),
            (final(self)@, views(actions@)) == old(self)@.on_delivery(delivery, delivered),
    {
        match delivery {
            Delivery::BestEffort => none(),
            Delivery::Vital => {
                if !delivered {
                    self.exiting = true;
                    assert(self@ =~= old(self)@.on_exit().0);
                }
                none()
            },
            Delivery::StartingRound => {
                if !delivered {
                    self.exiting = true;
                    assert(self@ =~= old(self)@.on_exit().0);
                    none()
                } else {
                    one(Action::Resolved(Request::NewestUnit(self.salt)))
                }
            },
        }
    }

    /// Tells whether the node is to stop.
    pub fn exiting(&self) -> (exiting: bool)
        ensures
            exiting == self@.exiting,
    {
        self.exiting
    }

    /// Tells whether a unit with each of the hashes is kept.
    pub fn keeps_all(&self, hashes: &Vec<H::Hash>) -> (all: bool)
        requires
            self.wf(),
        ensures
            all == self@.keeps_all(hashes@),
    {
        let mut i: usize = 0;
        while i < hashes.len()
            invariant
                self.wf(),
                i <= hashes@.len(),
                forall|j: int|
                    0 <= j < i ==> self@.store.units.contains_key(#[trigger] hashes@[j]),
            decreases hashes@.len() - i,
        {
            if !self.store.contains_hash(&hashes[i]) {
                assert(!self@.store.units.contains_key(hashes@[i as int]));
                return false;
            }
            i = i + 1;
        }
        true
    }

    /// Tells whether an event can be handled.
    pub fn can_handle(&self, event: &Event<H, D, MK::Signature>) -> (can: bool)
        requires
            self.wf(),
        ensures
            can == self@.can_handle(*event),
    {
        match event {
            Event::OrderedBatch(Some(hashes)) => self.keeps_all(hashes),
            Event::Network(
                Some(RunwayNotificationIn::Response(Response::NewestUnit(response))),
            ) => match self.judge_newest(response) {
                Ok(Some(unit)) => unit.as_signable().round() < Round::MAX,
                _ => true,
            },
            _ => true,
        }
    }

    /// Handles an event. There are no actions where a stream was closed, and the node is to stop.
    pub fn on_event(&mut self, event: Event<H, D, MK::Signature>) -> (actions: Option<
        Vec<Action<H, D, MK::Signature>>,
    >)
        requires
            old(self).wf(),
            old(self)@.can_handle(event),
        ensures
            final(self).wf(),
            old(self)@.handles(
                event,
                match actions {
                    Some(actions) => Some((final(self)@, views(actions@))),
                    None => None,
                },
            ),
            actions is None ==> final(self)@ == old(self)@,
    {
        match event {
            Event::Consensus(Some(notification)) => Some(
                self.on_consensus_notification(notification),
            ),
            Event::Alerter(Some(notification)) => Some(self.on_alert_notification(notification)),
            Event::Network(Some(message)) => Some(self.on_unit_message(message)),
            Event::OrderedBatch(Some(hashes)) => {
                let batch = self.on_ordered_batch(hashes);
                Some(one(Action::OrderedBatch(batch)))
            },
            Event::CatchUpDelay => Some(self.on_catch_up_delay()),
            Event::Exit => {
                self.exiting = true;
                assert(self@ =~= old(self)@.on_exit().0);
                Some(none())
            },
            _ => None,
        }
    }
}

/// The same hashes once more.
fn copy_hashes<H: Hasher>(hashes: &Vec<H::Hash>) -> (copy: Vec<H::Hash>)
    ensures
        copy@ == hashes@,
{
    let mut copy: Vec<H::Hash> = Vec::new();
    let mut i: usize = 0;
    while i < hashes.len()
        invariant
            i <= hashes@.len(),
            copy@ == hashes@.take(i as int),
        decreases hashes@.len() - i,
    {
        copy.push(hashes[i]);
        i = i + 1;
        assert(hashes@.take(i as int) =~= hashes@.take(i - 1).push(hashes@[i - 1]));
    }
    assert(hashes@.take(i as int) =~= hashes@);
    copy
}

} // verus!
