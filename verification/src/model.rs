//! What the unit handling of a node does, as functions from a state and an event to the next state
//! and the actions that follow.

use crate::messages::{
    ActionView, Delivery, Event, ForkingNotification, NotificationOut, Recipient, Request, Response,
    RunwayNotificationIn,
};
use crate::nodes::{count_set, present, set_indices, NodeCount, NodeIndex};
use crate::store::StoreModel;
use crate::traits::{Data, Hasher, MultiKeychain};
use crate::units::{
    FullUnit, NewestUnitResponse, Round, SessionId, Signed, SignedUnit, UnitCoord,
};
use vstd::prelude::*;

verus! {

/// The state of a `Runway`.
#[verifier::ext_equal]
#[verifier::reject_recursive_types(H)]
#[verifier::reject_recursive_types(D)]
#[verifier::reject_recursive_types(MK)]
pub struct RunwayModel<H: Hasher, D: Data, MK: MultiKeychain<H>> {
    pub node_ix: NodeIndex,
    pub session_id: SessionId,
    pub n_members: NodeCount,
    pub threshold: NodeCount,
    pub keychain: MK,
    pub salt: u64,
    pub store: StoreModel<H, D, MK::Signature>,
    /// The places that units were requested for and have not come.
    pub missing_coords: Set<UnitCoord>,
    /// The units whose parents were requested and have not been added to the DAG.
    pub missing_parents: Set<H::Hash>,
    pub after_catch_up_delay: bool,
    pub starting_round_sent: bool,
    pub starting_round_value: Round,
    /// The nodes, by number, that have answered the request for the newest unit.
    pub newest_unit_responders: Set<usize>,
    pub exiting: bool,
}

/// The actions that the handling of one event gives rise to.
pub type Actions<H, D, MK> = Seq<ActionView<H, D, <MK as MultiKeychain<H>>::Signature>>;

/// A state and the actions that led to it.
pub type Step<H, D, MK> = (RunwayModel<H, D, MK>, Actions<H, D, MK>);

/// A map of `size` nodes in which node `ids[k]` has the hash `hashes[k]`.
pub open spec fn placed<T>(size: nat, ids: Seq<NodeIndex>, hashes: Seq<T>) -> Seq<Option<T>> {
    Seq::new(
        size,
        |j: int|
            if ids.contains(NodeIndex(j as usize)) {
                Some(hashes[ids.index_of(NodeIndex(j as usize))])
            } else {
                None
            },
    )
}

/// Where the creators of the parents are listed in increasing order and are members, the hashes
/// that the map holds are those of the parents, in the order in which they were placed.
pub proof fn lemma_placed_present<T>(size: nat, ids: Seq<NodeIndex>, hashes: Seq<T>)
    requires
        size <= usize::MAX,
        ids.len() == hashes.len(),
        forall|k: int, l: int| 0 <= k < l < ids.len() ==> (#[trigger] ids[k]).0 < (#[trigger] ids[l]).0,
        forall|k: int| 0 <= k < ids.len() ==> (#[trigger] ids[k]).0 < size,
    ensures
        present(placed(size, ids, hashes)) == hashes,
    decreases size,
{
    let all = placed(size, ids, hashes);
    if size == 0 {
        if ids.len() > 0 {
            assert(ids[0].0 < size);
        }
        assert(hashes =~= Seq::empty());
    } else {
        let top = NodeIndex((size - 1) as usize);
        if ids.len() > 0 && ids.last() == top {
            let fewer = ids.drop_last();
            assert(ids.contains(top)) by {
                assert(ids[ids.len() - 1] == top);
            }
            assert(ids.index_of(top) == ids.len() - 1);
            assert(all.last() == Some(hashes.last()));
            assert forall|k: int| 0 <= k < fewer.len() implies (#[trigger] fewer[k]).0 < size
                - 1 by {
                assert(ids[k].0 < ids[ids.len() - 1].0);
            }
            assert(all.drop_last() =~= placed((size - 1) as nat, fewer, hashes.drop_last())) by {
                assert forall|j: int| 0 <= j < size - 1 implies #[trigger] all.drop_last()[j]
                    == placed((size - 1) as nat, fewer, hashes.drop_last())[j] by {
                    let ix = NodeIndex(j as usize);
                    if ids.contains(ix) {
                        let k = ids.index_of(ix);
                        assert(ids[k] == ix);
                        assert(fewer[k] == ix);
                        assert(fewer.contains(ix));
                        assert(fewer.index_of(ix) == k);
                    } else if fewer.contains(ix) {
                        let k = fewer.index_of(ix);
                        assert(ids[k] == ix);
                    }
                }
            }
            lemma_placed_present((size - 1) as nat, fewer, hashes.drop_last());
            assert(hashes.drop_last().push(hashes.last()) =~= hashes);
        } else {
            assert forall|k: int| 0 <= k < ids.len() implies (#[trigger] ids[k]).0 < size - 1 by {
                if k < ids.len() - 1 {
                    assert(ids[k].0 < ids[ids.len() - 1].0);
                }
            }
            assert(!ids.contains(top));
            assert(all.last() is None);
            assert(all.drop_last() =~= placed((size - 1) as nat, ids, hashes));
            lemma_placed_present((size - 1) as nat, ids, hashes);
        }
    }
}

/// Placing one more hash, for a node that has none, sets the entry of that node.
pub proof fn lemma_placed_push<T>(size: nat, ids: Seq<NodeIndex>, hashes: Seq<T>, id: NodeIndex, hash: T)
    requires
        size <= usize::MAX,
        ids.len() == hashes.len(),
        ids.push(id).no_duplicates(),
        id.0 < size,
    ensures
        placed(size, ids.push(id), hashes.push(hash)) == placed(size, ids, hashes).update(
            id.0 as int,
            Some(hash),
        ),
{
    let more = ids.push(id);
    let after = placed(size, more, hashes.push(hash));
    let expected = placed(size, ids, hashes).update(id.0 as int, Some(hash));
    assert forall|j: int| 0 <= j < size implies #[trigger] after[j] == expected[j] by {
        let ix = NodeIndex(j as usize);
        if ix == id {
            assert(more[ids.len() as int] == ix);
            assert(more.contains(ix));
            assert(more.index_of(ix) == ids.len());
        } else if ids.contains(ix) {
            let k = ids.index_of(ix);
            assert(more[k] == ix);
            assert(more.contains(ix));
            assert(more.index_of(ix) == k);
        } else if more.contains(ix) {
            let k = more.index_of(ix);
            assert(ids[k] == ix);
        }
    }
    assert(after =~= expected);
}

/// The hashes of units.
pub open spec fn hashes_of<H: Hasher, D: Data, S>(units: Seq<SignedUnit<H, D, S>>) -> Seq<
    H::Hash,
> {
    units.map_values(|unit: SignedUnit<H, D, S>| unit.hash())
}

/// The number of parents that a unit needs in a committee of `n_members`: more than two thirds.
pub open spec fn quorum(n_members: nat) -> nat {
    n_members * 2 / 3 + 1
}

impl<H: Hasher, D: Data, MK: MultiKeychain<H>> RunwayModel<H, D, MK> {
    /// What does not change over the life of a `Runway`.
    pub open spec fn same_config(self, other: Self) -> bool {
        &&& self.node_ix == other.node_ix
        &&& self.session_id == other.session_id
        &&& self.n_members == other.n_members
        &&& self.threshold == other.threshold
        &&& self.keychain == other.keychain
        &&& self.salt == other.salt
        &&& self.store.max_round == other.store.max_round
    }

    /// A unit of round 0 has no parents. A unit of another round has at least a quorum of them, and
    /// one of them is its creator's. Either way it reckons with the whole committee.
    pub open spec fn valid_parents(self, unit: FullUnit<H, D>) -> bool {
        let mask = unit.spec_mask();
        &&& mask.len() == self.n_members.0
        &&& unit.spec_round() == 0 ==> count_set(mask) == 0
        &&& unit.spec_round() > 0 ==> count_set(mask) >= self.threshold.0
            && mask[unit.spec_creator().0 as int]
    }

    /// Whether a unit may be kept: it is signed by its creator, is of this session, is not of too
    /// high a round, its creator is a member of the committee, and its parents are in order.
    pub open spec fn valid_unit(self, unit: SignedUnit<H, D, MK::Signature>) -> bool {
        &&& unit.is_signed::<H, MK>(self.keychain)
        &&& unit.signable().spec_session_id() == self.session_id
        &&& unit.round() <= self.store.max_round
        &&& unit.creator().0 < self.n_members.0
        &&& self.valid_parents(unit.signable())
    }

    /// A unit at `coord` is not missing any more.
    pub open spec fn resolve_missing_coord(self, coord: UnitCoord) -> Step<H, D, MK> {
        if self.missing_coords.contains(coord) {
            (
                RunwayModel { missing_coords: self.missing_coords.remove(coord), ..self },
                seq![ActionView::Resolved(Request::Coord(coord))],
            )
        } else {
            (self, Seq::empty())
        }
    }

    /// The parents of `hash` are not missing any more.
    pub open spec fn resolve_missing_parents(self, hash: H::Hash) -> Step<H, D, MK> {
        if self.missing_parents.contains(hash) {
            (
                RunwayModel { missing_parents: self.missing_parents.remove(hash), ..self },
                seq![ActionView::Resolved(Request::Parents(hash))],
            )
        } else {
            (self, Seq::empty())
        }
    }

    /// A forker becomes known: it is marked, and an alert with its units goes out.
    pub open spec fn new_forker(
        self,
        forker: NodeIndex,
        proof_of_fork: (SignedUnit<H, D, MK::Signature>, SignedUnit<H, D, MK::Signature>),
    ) -> Step<H, D, MK> {
        (
            RunwayModel { store: self.store.mark_forker(forker), ..self },
            seq![ActionView::Alert(self.node_ix, proof_of_fork, self.store.units_of(forker))],
        )
    }

    /// A valid unit is kept, unless its creator is a forker. One that shows its creator to be a
    /// forker is not kept: the creator is marked and an alert goes out.
    pub open spec fn add_unless_fork(self, unit: SignedUnit<H, D, MK::Signature>) -> Step<
        H,
        D,
        MK,
    > {
        if self.store.forkers.contains(unit.creator()) {
            (self, Seq::empty())
        } else {
            match self.store.new_fork(unit.signable()) {
                Some(other) => self.new_forker(unit.creator(), (unit, other)),
                None => (
                    RunwayModel { store: self.store.add_unit(unit, false), ..self },
                    Seq::empty(),
                ),
            }
        }
    }

    /// A valid unit comes in without an alert.
    pub open spec fn take_in(self, unit: SignedUnit<H, D, MK::Signature>) -> Step<H, D, MK> {
        let (resolved, first) = self.resolve_missing_coord(unit.coord());
        let (after, second) = resolved.add_unless_fork(unit);
        (after, first + second)
    }

    /// Valid units come in one after the other.
    pub open spec fn take_in_all(self, units: Seq<SignedUnit<H, D, MK::Signature>>) -> Step<
        H,
        D,
        MK,
    >
        decreases units.len(),
    {
        if units.len() == 0 {
            (self, Seq::empty())
        } else {
            let (before, first) = self.take_in_all(units.drop_last());
            let (after, second) = before.take_in(units.last());
            (after, first + second)
        }
    }

    /// A unit comes in. One that is not valid changes nothing. One from an alert is kept whoever
    /// created it.
    pub open spec fn on_unit_received(
        self,
        unit: SignedUnit<H, D, MK::Signature>,
        alert: bool,
    ) -> Step<H, D, MK> {
        if !self.valid_unit(unit) {
            (self, Seq::empty())
        } else if alert {
            let (resolved, actions) = self.resolve_missing_coord(unit.coord());
            (RunwayModel { store: resolved.store.add_unit(unit, true), ..resolved }, actions)
        } else {
            self.take_in(unit)
        }
    }

    /// Units from alerts come in one after the other.
    pub open spec fn on_alerted_units(self, units: Seq<SignedUnit<H, D, MK::Signature>>) -> Step<
        H,
        D,
        MK,
    >
        decreases units.len(),
    {
        if units.len() == 0 {
            (self, Seq::empty())
        } else {
            let (before, first) = self.on_alerted_units(units.drop_last());
            let (after, second) = before.on_unit_received(units.last(), true);
            (after, first + second)
        }
    }

    /// The answer to a request for the unit at `coord`: the unit, where there is one.
    pub open spec fn on_request_coord(self, node_id: NodeIndex, coord: UnitCoord) -> Actions<
        H,
        D,
        MK,
    > {
        if self.store.coords.contains_key(coord) {
            seq![ActionView::CoordResponse(self.store.coords[coord], node_id)]
        } else {
            Seq::empty()
        }
    }

    /// Whether a unit with each of the hashes is kept.
    pub open spec fn keeps_all(self, hashes: Seq<H::Hash>) -> bool {
        forall|i: int| 0 <= i < hashes.len() ==> self.store.units.contains_key(#[trigger] hashes[i])
    }

    /// The answer to a request for the parents of `hash`: the parents, where they are known and all
    /// of them are kept.
    pub open spec fn on_request_parents(self, node_id: NodeIndex, hash: H::Hash) -> Actions<
        H,
        D,
        MK,
    > {
        match self.store.get_parents(hash) {
            Some(hashes) if self.keeps_all(hashes) => {
                let units = hashes.map_values(|h: H::Hash| self.store.units[h]);
                seq![ActionView::ParentsResponse(hash, units, node_id)]
            },
            _ => Seq::empty(),
        }
    }

    /// What is to be signed in answer to a request for the newest unit of `requester`.
    pub open spec fn on_request_newest(self, requester: NodeIndex, salt: u64) -> NewestUnitResponse<
        H,
        D,
        MK::Signature,
    > {
        NewestUnitResponse {
            requester,
            responder: self.node_ix,
            unit: self.store.newest_unit(requester),
            salt,
        }
    }

    /// The signed answer to a request for a newest unit goes to the node that asked.
    pub open spec fn on_newest_signed(
        self,
        response: Signed<NewestUnitResponse<H, D, MK::Signature>, MK::Signature>,
    ) -> Actions<H, D, MK> {
        seq![ActionView::NewestResponse(response, response.signable().requester)]
    }

    /// Whether `parent` can be the parent that `creator` made of a unit of the round `round`.
    pub open spec fn good_parent(
        self,
        round: Round,
        creator: NodeIndex,
        parent: SignedUnit<H, D, MK::Signature>,
    ) -> bool {
        &&& self.valid_unit(parent)
        &&& parent.round() + 1 == round
        &&& parent.creator() == creator
    }

    /// How many of the parents, from the first on, are good.
    pub open spec fn n_good_parents(
        self,
        round: Round,
        creators: Seq<NodeIndex>,
        parents: Seq<SignedUnit<H, D, MK::Signature>>,
    ) -> nat
        decreases parents.len(),
    {
        if parents.len() == 0 {
            0
        } else {
            let earlier = self.n_good_parents(round, creators, parents.drop_last());
            if earlier == parents.len() - 1 && self.good_parent(
                round,
                creators[parents.len() - 1],
                parents.last(),
            ) {
                parents.len()
            } else {
                earlier
            }
        }
    }

    /// Parents of `hash` come in. They count only where the unit is kept, its parents are not known
    /// and there are as many of them as it has. They are taken in up to the first that is not good.
    /// Where all of them are good and give the control hash of the unit, they are its parents.
    pub open spec fn on_parents_response(
        self,
        hash: H::Hash,
        parents: Seq<SignedUnit<H, D, MK::Signature>>,
    ) -> Step<H, D, MK> {
        if self.store.parents.contains_key(hash) || !self.store.units.contains_key(hash) {
            (self, Seq::empty())
        } else {
            let unit = self.store.units[hash].signable();
            let creators = set_indices(unit.spec_mask());
            if creators.len() != parents.len() {
                (self, Seq::empty())
            } else {
                let good = self.n_good_parents(unit.spec_round(), creators, parents);
                let (after, actions) = self.take_in_all(parents.take(good as int));
                let hashes = hashes_of(parents);
                if good == parents.len() && H::combined_hash(
                    placed(self.n_members.0 as nat, creators, hashes),
                ) == unit.spec_combined_hash() {
                    (
                        RunwayModel { store: after.store.add_parents(hash, hashes), ..after },
                        actions.push(ActionView::UnitParents(hash, hashes)),
                    )
                } else {
                    (after, actions)
                }
            }
        }
    }

    /// Whether the starting round can be told: the time for answers is over, and a quorum, this
    /// node being part of it, has answered.
    pub open spec fn is_starting_round_ready(self) -> bool {
        self.after_catch_up_delay && self.newest_unit_responders.len() + 1 >= self.threshold.0
    }

    /// The starting round is told, once.
    pub open spec fn resolve_starting_round(self) -> Step<H, D, MK> {
        if self.starting_round_sent {
            (self, Seq::empty())
        } else {
            (
                RunwayModel { starting_round_sent: true, ..self },
                seq![ActionView::StartingRound(self.starting_round_value)],
            )
        }
    }

    /// The starting round is told if it can be.
    pub open spec fn try_starting_round(self) -> Step<H, D, MK> {
        if self.is_starting_round_ready() {
            self.resolve_starting_round()
        } else {
            (self, Seq::empty())
        }
    }

    /// Whether an answer to the request for the newest unit counts: the starting round has not been
    /// told, the answer is signed and has the salt of the request, and the unit in it, if there is
    /// one, is valid and this node's.
    pub open spec fn newest_counts(
        self,
        response: Signed<NewestUnitResponse<H, D, MK::Signature>, MK::Signature>,
    ) -> bool {
        &&& !self.starting_round_sent
        &&& response.is_signed::<H, MK>(self.keychain)
        &&& response.signable().salt == self.salt
        &&& response.signable().unit matches Some(unit) ==> self.valid_unit(unit) && unit.creator()
            == self.node_ix
    }

    /// A unit of this node's that is not kept and that an answer which counts brings.
    pub open spec fn forgotten_unit(
        self,
        response: Signed<NewestUnitResponse<H, D, MK::Signature>, MK::Signature>,
    ) -> Option<SignedUnit<H, D, MK::Signature>> {
        match response.signable().unit {
            Some(unit) if self.newest_counts(response) && !self.store.units.contains_key(
                unit.hash(),
            ) => Some(unit),
            _ => None,
        }
    }

    /// Whether the round after that of a forgotten unit is a round.
    pub open spec fn starting_round_fits(
        self,
        response: Signed<NewestUnitResponse<H, D, MK::Signature>, MK::Signature>,
    ) -> bool {
        self.forgotten_unit(response) matches Some(unit) ==> unit.round() < Round::MAX
    }

    /// An answer that counts is counted. A forgotten unit is taken in, and the starting round is later
    /// than its round.
    pub open spec fn count_newest(
        self,
        response: Signed<NewestUnitResponse<H, D, MK::Signature>, MK::Signature>,
    ) -> Step<H, D, MK> {
        let (taken, actions) = match self.forgotten_unit(response) {
            Some(unit) => self.take_in(unit),
            None => (self, Seq::empty()),
        };
        (
            RunwayModel {
                starting_round_value: match self.forgotten_unit(response) {
                    Some(unit) if unit.round() + 1 > taken.starting_round_value => (unit.round()
                        + 1) as Round,
                    _ => taken.starting_round_value,
                },
                newest_unit_responders: taken.newest_unit_responders.insert(
                    response.signable().responder.0,
                ),
                ..taken
            },
            actions,
        )
    }

    /// An answer to the request for the newest unit comes in. One that does not count changes
    /// nothing. One that does is counted, and may make the starting round ready.
    pub open spec fn on_newest_response(
        self,
        response: Signed<NewestUnitResponse<H, D, MK::Signature>, MK::Signature>,
    ) -> Step<H, D, MK> {
        if !self.newest_counts(response) {
            (self, Seq::empty())
        } else {
            let (counted, first) = self.count_newest(response);
            let (after, second) = counted.try_starting_round();
            (after, first + second)
        }
    }

    /// A message from the network comes in.
    pub open spec fn on_unit_message(
        self,
        message: RunwayNotificationIn<H, D, MK::Signature>,
    ) -> Step<H, D, MK> {
        match message {
            RunwayNotificationIn::NewUnit(unit) => self.on_unit_received(unit, false),
            RunwayNotificationIn::Request(Request::Coord(coord), node_id) => (
                self,
                self.on_request_coord(node_id, coord),
            ),
            RunwayNotificationIn::Request(Request::Parents(hash), node_id) => (
                self,
                self.on_request_parents(node_id, hash),
            ),
            RunwayNotificationIn::Request(Request::NewestUnit(salt), node_id) => (
                self,
                seq![ActionView::SignNewest(self.on_request_newest(node_id, salt))],
            ),
            RunwayNotificationIn::Response(Response::Coord(unit)) => self.on_unit_received(
                unit,
                false,
            ),
            RunwayNotificationIn::Response(Response::Parents(hash, parents)) => {
                self.on_parents_response(hash, parents@)
            },
            RunwayNotificationIn::Response(Response::NewestUnit(response)) => {
                self.on_newest_response(response)
            },
        }
    }

    /// A notification from the part that handles alerts comes in.
    pub open spec fn on_alert_notification(
        self,
        notification: ForkingNotification<H, D, MK::Signature>,
    ) -> Step<H, D, MK> {
        match notification {
            ForkingNotification::Forker(proof_of_fork) => {
                let forker = proof_of_fork.0.creator();
                if self.store.forkers.contains(forker) {
                    (self, Seq::empty())
                } else {
                    self.new_forker(forker, proof_of_fork)
                }
            },
            ForkingNotification::Units(units) => self.on_alerted_units(units@),
        }
    }

    /// The unit at each place that is neither taken nor requested already is requested from its
    /// creator.
    pub open spec fn on_missing_coords(self, coords: Seq<UnitCoord>) -> Step<H, D, MK>
        decreases coords.len(),
    {
        if coords.len() == 0 {
            (self, Seq::empty())
        } else {
            let (before, actions) = self.on_missing_coords(coords.drop_last());
            let coord = coords.last();
            if self.store.coords.contains_key(coord) || before.missing_coords.contains(coord) {
                (before, actions)
            } else {
                (
                    RunwayModel { missing_coords: before.missing_coords.insert(coord), ..before },
                    actions.push(
                        ActionView::Request(
                            Request::Coord(coord),
                            Recipient::Node(coord.creator),
                        ),
                    ),
                )
            }
        }
    }

    /// Which nodes to ask for the parents of `hash`: its creator, or everyone where the unit is not
    /// kept.
    pub open spec fn parents_recipient(self, hash: H::Hash) -> Recipient {
        match self.store.unit_by_hash(hash) {
            Some(unit) => Recipient::Node(unit.creator()),
            None => Recipient::Everyone,
        }
    }

    /// The parents of `hash` are needed: they are told if they are known, and requested otherwise,
    /// unless they have been requested already.
    pub open spec fn on_wrong_control_hash(self, hash: H::Hash) -> Step<H, D, MK> {
        match self.store.get_parents(hash) {
            Some(hashes) => (self, seq![ActionView::UnitParents(hash, hashes)]),
            None => if self.missing_parents.contains(hash) {
                (self, Seq::empty())
            } else {
                (
                    RunwayModel { missing_parents: self.missing_parents.insert(hash), ..self },
                    seq![
                        ActionView::Request(Request::Parents(hash), self.parents_recipient(hash)),
                    ],
                )
            },
        }
    }

    /// The unit with the hash `hash` was added to the DAG with these parents: they are its parents,
    /// and the unit is sent to everyone if it is this node's.
    pub open spec fn on_added_to_dag(self, hash: H::Hash, parents: Seq<H::Hash>) -> Step<
        H,
        D,
        MK,
    > {
        let recorded = RunwayModel { store: self.store.add_parents(hash, parents), ..self };
        let (after, actions) = recorded.resolve_missing_parents(hash);
        match self.store.unit_by_hash(hash) {
            Some(unit) if unit.creator() == self.node_ix => (
                after,
                actions.push(ActionView::NewUnit(unit)),
            ),
            _ => (after, actions),
        }
    }

    /// A notification from the ordering part comes in.
    pub open spec fn on_consensus_notification(self, notification: NotificationOut<H>) -> Step<
        H,
        D,
        MK,
    > {
        match notification {
            NotificationOut::CreatedPreUnit(pre_unit, _) => (
                self,
                seq![ActionView::CreateUnit(pre_unit)],
            ),
            NotificationOut::MissingUnits(coords) => self.on_missing_coords(coords@),
            NotificationOut::WrongControlHash(hash) => self.on_wrong_control_hash(hash),
            NotificationOut::AddedToDag(hash, parents) => self.on_added_to_dag(hash, parents@),
        }
    }

    /// The data of the units with these hashes, which are kept, is handed to the user.
    pub open spec fn is_ordered_batch(self, hashes: Seq<H::Hash>, batch: Seq<D>) -> bool {
        &&& batch.len() == hashes.len()
        &&& forall|i: int|
            0 <= i < hashes.len() ==> cloned(
                self.store.units[hashes[i]].signable().spec_data(),
                #[trigger] batch[i],
            )
    }

    /// A unit that this node created comes in.
    pub open spec fn on_unit_created(self, unit: SignedUnit<H, D, MK::Signature>) -> Self {
        RunwayModel { store: self.store.add_unit(unit, false), ..self }
    }

    /// The time for hearing of this node's own units is over.
    pub open spec fn on_catch_up_delay(self) -> Step<H, D, MK> {
        RunwayModel { after_catch_up_delay: true, ..self }.try_starting_round()
    }

    /// Before the first event, every node is asked for the newest unit of this one.
    pub open spec fn on_start(self) -> Actions<H, D, MK> {
        seq![ActionView::Request(Request::NewestUnit(self.salt), Recipient::Everyone)]
    }

    /// The node is told to stop.
    pub open spec fn on_exit(self) -> Step<H, D, MK> {
        (RunwayModel { exiting: true, ..self }, Seq::empty())
    }

    /// It becomes known whether an action was delivered. Where a vital one was not, the node stops.
    /// Once the starting round was delivered, the request for the newest unit needs no repeating.
    pub open spec fn on_delivery(self, delivery: Delivery, delivered: bool) -> Step<H, D, MK> {
        match delivery {
            Delivery::BestEffort => (self, Seq::empty()),
            _ if !delivered => self.on_exit(),
            Delivery::Vital => (self, Seq::empty()),
            Delivery::StartingRound => (
                self,
                seq![ActionView::Resolved(Request::NewestUnit(self.salt))],
            ),
        }
    }

    /// Whether an event can be handled: ordered units are kept, and the round after that of a
    /// forgotten unit is a round.
    pub open spec fn can_handle(self, event: Event<H, D, MK::Signature>) -> bool {
        match event {
            Event::OrderedBatch(Some(hashes)) => self.keeps_all(hashes@),
            Event::Network(
                Some(RunwayNotificationIn::Response(Response::NewestUnit(response))),
            ) => self.starting_round_fits(response),
            _ => true,
        }
    }

    /// Whether a state and actions are what an event leads to. A closed stream leads to none.
    pub open spec fn handles(
        self,
        event: Event<H, D, MK::Signature>,
        outcome: Option<Step<H, D, MK>>,
    ) -> bool {
        match event {
            Event::Consensus(Some(notification)) => outcome == Some(
                self.on_consensus_notification(notification),
            ),
            Event::Alerter(Some(notification)) => outcome == Some(
                self.on_alert_notification(notification),
            ),
            Event::Network(Some(message)) => outcome == Some(self.on_unit_message(message)),
            Event::OrderedBatch(Some(hashes)) => {
                &&& outcome matches Some((after, actions))
                &&& after == self
                &&& actions.len() == 1
                &&& actions[0] matches ActionView::OrderedBatch(batch)
                &&& self.is_ordered_batch(hashes@, batch)
            },
            Event::CatchUpDelay => outcome == Some(self.on_catch_up_delay()),
            Event::Exit => outcome == Some(self.on_exit()),
            _ => outcome is None,
        }
    }

    /// The ordering part is told of the buffered units.
    pub open spec fn move_units_to_consensus(self) -> Step<H, D, MK> {
        (
            RunwayModel { store: StoreModel { buffer: Seq::empty(), ..self.store }, ..self },
            seq![
                ActionView::NewUnits(
                    self.store.buffer.map_values(
                        |unit: SignedUnit<H, D, MK::Signature>| unit.signable().spec_unit(),
                    ),
                ),
            ],
        )
    }
}

/// The good parents end at the first that is not good.
pub proof fn lemma_good_parents_end<H: Hasher, D: Data, MK: MultiKeychain<H>>(
    model: RunwayModel<H, D, MK>,
    round: Round,
    creators: Seq<NodeIndex>,
    parents: Seq<SignedUnit<H, D, MK::Signature>>,
    end: int,
)
    requires
        0 <= end < parents.len(),
        model.n_good_parents(round, creators, parents.take(end)) == end,
        !model.good_parent(round, creators[end], parents[end]),
    ensures
        model.n_good_parents(round, creators, parents) == end,
    decreases parents.len(),
{
    let fewer = parents.drop_last();
    if end == parents.len() - 1 {
        assert(fewer =~= parents.take(end));
    } else {
        assert(fewer.take(end) =~= parents.take(end));
        lemma_good_parents_end(model, round, creators, fewer, end);
    }
}

} // verus!
