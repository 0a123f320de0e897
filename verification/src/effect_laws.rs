//! Laws on what each kind of event, and each other cause of a step, does to a node.

use crate::actions::{lemma_take_in_all_says, requested};
use crate::faults::{lemma_parents_fault_taken, ParentsFault};
use crate::life::{transition, Cause, Moment};
use crate::messages::{
    ActionView, Delivery, Event, ForkProof, ForkingNotification, NotificationOut, Recipient, Request,
    Response, RunwayNotificationIn,
};
use crate::model::{placed, RunwayModel, Step};
use crate::nodes::{lemma_set_indices, set_indices, NodeIndex};
use crate::request_laws::{first_before, law_missing_units_requested};
use crate::runway::{Runway, RunwayConfig};
use crate::store::{law_newest_unit, StoreModel};
use crate::traits::{Data, Hasher, MultiKeychain};
use crate::units::{
    NewestUnitResponse, PreUnit, Round, Signable, Signed, SignedUnit, UnitCoord, UnitView,
};
use vstd::prelude::*;

verus! {

/// Only a closed stream leads to no step, and it leads to none.
pub proof fn law_closed_stream_ends<H: Hasher, D: Data, MK: MultiKeychain<H>>(
    before: RunwayModel<H, D, MK>,
    event: Event<H, D, MK::Signature>,
    outcome: Option<Step<H, D, MK>>,
)
    requires
        before.handles(event, outcome),
    ensures
        outcome is None <==> match event {
            Event::Consensus(notification) => notification is None,
            Event::Alerter(notification) => notification is None,
            Event::Network(message) => message is None,
            Event::OrderedBatch(hashes) => hashes is None,
            Event::CatchUpDelay => false,
            Event::Exit => false,
        },
{
}

/// Every event can be handled but two: ordered units that are not all kept, and an answer to the
/// request for the newest unit that counts and brings a unit that is not kept and after whose round
/// there is none.
pub proof fn law_can_handle<H: Hasher, D: Data, MK: MultiKeychain<H>>(
    before: RunwayModel<H, D, MK>,
    event: Event<H, D, MK::Signature>,
)
    ensures
        !before.can_handle(event) <==> match event {
            Event::OrderedBatch(Some(hashes)) => exists|i: int|
                0 <= i < hashes@.len() && !before.store.units.contains_key(#[trigger] hashes@[i]),
            Event::Network(
                Some(RunwayNotificationIn::Response(Response::NewestUnit(response))),
            ) => {
                &&& !before.starting_round_sent
                &&& response.is_signed::<H, MK>(before.keychain)
                &&& response.signable().salt == before.salt
                &&& response.signable().unit matches Some(unit)
                &&& before.valid_unit(unit)
                &&& unit.creator() == before.node_ix
                &&& !before.store.units.contains_key(unit.hash())
                &&& unit.round() == Round::MAX
            },
            _ => false,
        },
{
}

/// What comes from the ordering part, from the part that handles alerts and from the network has the
/// effect that the part of the node for it has when it is asked directly.
pub proof fn law_events_reach_their_handlers<H: Hasher, D: Data, MK: MultiKeychain<H>>(
    before: RunwayModel<H, D, MK>,
    event: Event<H, D, MK::Signature>,
    step: Step<H, D, MK>,
)
    requires
        before.handles(event, Some(step)),
    ensures
        match event {
            Event::Consensus(Some(notification)) => {
                &&& step == before.on_consensus_notification(notification)
                &&& match notification {
                    NotificationOut::CreatedPreUnit(pre_unit, _) => true,
                    NotificationOut::MissingUnits(coords) => step == before.on_missing_coords(
                        coords@,
                    ),
                    NotificationOut::WrongControlHash(hash) => step == before.on_wrong_control_hash(
                        hash,
                    ),
                    NotificationOut::AddedToDag(hash, parents) => step == before.on_added_to_dag(
                        hash,
                        parents@,
                    ),
                }
            },
            Event::Alerter(Some(notification)) => {
                &&& step == before.on_alert_notification(notification)
                &&& notification matches ForkingNotification::Units(units) ==> units@.len() == 1
                    ==> step == before.on_unit_received(units@[0], true)
            },
            Event::Network(Some(message)) => {
                &&& step == before.on_unit_message(message)
                &&& match message {
                    RunwayNotificationIn::NewUnit(unit) => step == before.on_unit_received(
                        unit,
                        false,
                    ),
                    RunwayNotificationIn::Request(Request::Coord(coord), node_id) => step == (
                        before,
                        before.on_request_coord(node_id, coord),
                    ),
                    RunwayNotificationIn::Request(Request::Parents(hash), node_id) => step == (
                        before,
                        before.on_request_parents(node_id, hash),
                    ),
                    RunwayNotificationIn::Request(Request::NewestUnit(salt), node_id) => step == (
                        before,
                        seq![ActionView::SignNewest(before.on_request_newest(node_id, salt))],
                    ),
                    RunwayNotificationIn::Response(Response::Coord(unit)) => step
                        == before.on_unit_received(unit, false),
                    RunwayNotificationIn::Response(Response::Parents(hash, parents)) => step
                        == before.on_parents_response(hash, parents@),
                    RunwayNotificationIn::Response(Response::NewestUnit(response)) => step
                        == before.on_newest_response(response),
                }
            },
            Event::CatchUpDelay => step == before.on_catch_up_delay(),
            _ => true,
        },
{
    if let Event::Alerter(Some(ForkingNotification::Units(units))) = event {
        if units@.len() == 1 {
            reveal_with_fuel(RunwayModel::on_alerted_units, 2);
            assert(units@.drop_last() =~= Seq::empty());
            assert(step.1 =~= before.on_unit_received(units@[0], true).1);
        }
    }
}

/// A place where a unit came in is not asked for any more, which is said where it was.
pub proof fn law_place_settled<H: Hasher, D: Data, MK: MultiKeychain<H>>(
    before: RunwayModel<H, D, MK>,
    coord: UnitCoord,
)
    ensures
        before.resolve_missing_coord(coord).0 == (RunwayModel {
            missing_coords: before.missing_coords.remove(coord),
            ..before
        }),
        before.resolve_missing_coord(coord).1 == place_settled(before, coord),
{
    if !before.missing_coords.contains(coord) {
        assert(before.missing_coords.remove(coord) =~= before.missing_coords);
    }
}

/// Parents that became known are not asked for any more, which is said where they were.
pub proof fn law_parents_settled<H: Hasher, D: Data, MK: MultiKeychain<H>>(
    before: RunwayModel<H, D, MK>,
    hash: H::Hash,
)
    ensures
        before.resolve_missing_parents(hash).0 == (RunwayModel {
            missing_parents: before.missing_parents.remove(hash),
            ..before
        }),
        before.resolve_missing_parents(hash).1 == if before.missing_parents.contains(hash) {
            seq![ActionView::<H, D, MK::Signature>::Resolved(Request::Parents(hash))]
        } else {
            Seq::empty()
        },
{
    if !before.missing_parents.contains(hash) {
        assert(before.missing_parents.remove(hash) =~= before.missing_parents);
    }
}

/// A node that becomes known as a forker is one from then on, and one alert goes out, with the proof and
/// the units that are kept of the forker.
pub proof fn law_forker_found<H: Hasher, D: Data, MK: MultiKeychain<H>>(
    before: RunwayModel<H, D, MK>,
    forker: NodeIndex,
    proof_of_fork: ForkProof<H, D, MK::Signature>,
)
    ensures
        before.new_forker(forker, proof_of_fork).0 == (RunwayModel {
            store: StoreModel { forkers: before.store.forkers.insert(forker), ..before.store },
            ..before
        }),
        before.new_forker(forker, proof_of_fork).1 == seq![
            ActionView::Alert(before.node_ix, proof_of_fork, before.store.units_of(forker)),
        ],
{
}

/// A valid unit that comes in without an alert has the effect, but for the settling of its place, that it
/// has when it comes from the network.
pub proof fn law_added_unless_fork<H: Hasher, D: Data, MK: MultiKeychain<H>>(
    before: RunwayModel<H, D, MK>,
    unit: SignedUnit<H, D, MK::Signature>,
)
    ensures
        ({
            let store = before.store;
            let step = before.add_unless_fork(unit);
            &&& step.0 == RunwayModel { store: step.0.store, ..before }
            &&& if store.forkers.contains(unit.creator()) || store.units.contains_key(unit.hash()) {
                &&& step.0.store == store
                &&& step.1.len() == 0
            } else if store.coords.contains_key(unit.coord()) {
                &&& step.0.store == StoreModel {
                    forkers: store.forkers.insert(unit.creator()),
                    ..store
                }
                &&& step.1 == seq![
                    ActionView::Alert(
                        before.node_ix,
                        (unit, store.coords[unit.coord()]),
                        store.units_of(unit.creator()),
                    ),
                ]
            } else {
                &&& step.0.store == StoreModel {
                    units: store.units.insert(unit.hash(), unit),
                    coords: store.coords.insert(unit.coord(), unit),
                    buffer: store.buffer.push(unit),
                    ..store
                }
                &&& step.1.len() == 0
            }
        }),
{
}

/// The starting round can be told when the time for answers is over and the nodes that answered, with
/// this one, are as many as the threshold. Telling it once is telling the value that the answers led to;
/// telling it again does nothing.
pub proof fn law_starting_round<H: Hasher, D: Data, MK: MultiKeychain<H>>(
    before: RunwayModel<H, D, MK>,
)
    ensures
        before.is_starting_round_ready() <==> before.after_catch_up_delay
            && before.newest_unit_responders.len() >= before.threshold.0 - 1,
        before.resolve_starting_round().0 == (RunwayModel { starting_round_sent: true, ..before }),
        before.resolve_starting_round().1 == if before.starting_round_sent {
            Seq::empty()
        } else {
            seq![ActionView::<H, D, MK::Signature>::StartingRound(before.starting_round_value)]
        },
{
}

/// A node that is told to stop decides to, and does nothing else.
pub proof fn law_exit_handled<H: Hasher, D: Data, MK: MultiKeychain<H>>(
    before: RunwayModel<H, D, MK>,
    step: Step<H, D, MK>,
)
    requires
        before.handles(Event::Exit, Some(step)),
    ensures
        step.0 == (RunwayModel { exiting: true, ..before }),
        step.1.len() == 0,
{
}

/// When the time for answers is over, the starting round is told if enough nodes have answered and it
/// has not been told.
pub proof fn law_delay_handled<H: Hasher, D: Data, MK: MultiKeychain<H>>(
    before: RunwayModel<H, D, MK>,
    step: Step<H, D, MK>,
)
    requires
        before.handles(Event::CatchUpDelay, Some(step)),
    ensures
        ({
            let enough = before.newest_unit_responders.len() + 1 >= before.threshold.0;
            &&& step.0 == RunwayModel {
                after_catch_up_delay: true,
                starting_round_sent: before.starting_round_sent || enough,
                ..before
            }
            &&& step.1 == if enough && !before.starting_round_sent {
                seq![ActionView::<H, D, MK::Signature>::StartingRound(before.starting_round_value)]
            } else {
                Seq::empty()
            }
        }),
{
}

/// The data of ordered units is handed out, that of each unit once and in the order of the units.
pub proof fn law_batch_handled<H: Hasher, D: Data, MK: MultiKeychain<H>>(
    before: RunwayModel<H, D, MK>,
    hashes: Vec<H::Hash>,
    step: Step<H, D, MK>,
)
    requires
        before.handles(Event::OrderedBatch(Some(hashes)), Some(step)),
    ensures
        step.0 == before,
        step.1.len() == 1,
        step.1[0] matches ActionView::OrderedBatch(batch) && batch.len() == hashes@.len()
            && forall|i: int|
            0 <= i < batch.len() ==> cloned(
                before.store.units[hashes@[i]].signable().spec_data(),
                #[trigger] batch[i],
            ),
{
}

/// A unit that this node is to create is created, whatever its parents are said to be.
pub proof fn law_created_pre_unit_handled<H: Hasher, D: Data, MK: MultiKeychain<H>>(
    before: RunwayModel<H, D, MK>,
    pre_unit: PreUnit<H>,
    parents: Vec<H::Hash>,
    step: Step<H, D, MK>,
)
    requires
        before.handles(
            Event::Consensus(Some(NotificationOut::CreatedPreUnit(pre_unit, parents))),
            Some(step),
        ),
    ensures
        step.0 == before,
        step.1 == seq![ActionView::<H, D, MK::Signature>::CreateUnit(pre_unit)],
{
}

/// Of the places where units are missing, those that are free and not asked for already are asked for:
/// each once, from its creator, in the order in which they first occur. They are outstanding from then
/// on.
pub proof fn law_missing_units_handled<H: Hasher, D: Data, MK: MultiKeychain<H>>(
    before: RunwayModel<H, D, MK>,
    coords: Vec<UnitCoord>,
    step: Step<H, D, MK>,
)
    requires
        before.handles(
            Event::Consensus(Some(NotificationOut::MissingUnits(coords))),
            Some(step),
        ),
    ensures
        ({
            let asked = requested(step.1);
            &&& step.0 == RunwayModel {
                missing_coords: before.missing_coords.union(asked.to_set()),
                ..before
            }
            &&& step.1.len() == asked.len()
            &&& forall|i: int|
                0 <= i < asked.len() ==> #[trigger] step.1[i] == ActionView::<
                    H,
                    D,
                    MK::Signature,
                >::Request(Request::Coord(asked[i]), Recipient::Node(asked[i].creator))
            &&& forall|i: int, j: int|
                0 <= i < j < asked.len() ==> #[trigger] asked[i] != #[trigger] asked[j]
                    && first_before(coords@, asked[i], asked[j])
            &&& forall|c: UnitCoord| #[trigger]
                asked.contains(c) <==> coords@.contains(c) && !before.store.coords.contains_key(c)
                    && !before.missing_coords.contains(c)
        }),
{
    law_missing_units_requested(before, coords@);
    lemma_missing_units_frame(before, coords@);
}

proof fn lemma_missing_units_frame<H: Hasher, D: Data, MK: MultiKeychain<H>>(
    before: RunwayModel<H, D, MK>,
    coords: Seq<UnitCoord>,
)
    ensures
        before.on_missing_coords(coords).0 == (RunwayModel {
            missing_coords: before.on_missing_coords(coords).0.missing_coords,
            ..before
        }),
    decreases coords.len(),
{
    if coords.len() > 0 {
        lemma_missing_units_frame(before, coords.drop_last());
    }
}

/// Parents that are needed are told where they are known. Where they are not, they are asked for,
/// once: from the creator of the unit, or from everyone where the unit is not kept.
pub proof fn law_wrong_control_hash_handled<H: Hasher, D: Data, MK: MultiKeychain<H>>(
    before: RunwayModel<H, D, MK>,
    hash: H::Hash,
    step: Step<H, D, MK>,
)
    requires
        before.handles(
            Event::Consensus(Some(NotificationOut::WrongControlHash(hash))),
            Some(step),
        ),
    ensures
        before.store.parents.contains_key(hash) ==> {
            &&& step.0 == before
            &&& step.1 == seq![ActionView::<H, D, MK::Signature>::UnitParents(hash, before.store.parents[hash])]
        },
        !before.store.parents.contains_key(hash) ==> step.0 == (RunwayModel {
            missing_parents: before.missing_parents.insert(hash),
            ..before
        }),
        !before.store.parents.contains_key(hash) && before.missing_parents.contains(hash)
            ==> step.1.len() == 0,
        !before.store.parents.contains_key(hash) && !before.missing_parents.contains(hash)
            ==> step.1 == seq![
            ActionView::<H, D, MK::Signature>::Request(
                Request::Parents(hash),
                if before.store.units.contains_key(hash) {
                    Recipient::Node(before.store.units[hash].creator())
                } else {
                    Recipient::Everyone
                },
            ),
        ],
{
    if before.missing_parents.contains(hash) {
        assert(before.missing_parents.insert(hash) =~= before.missing_parents);
    }
}

/// The parents of a unit that was added to the DAG are known from then on, and are outstanding no
/// more, which is said where they were. The unit is sent to everyone where it is kept and this node's.
pub proof fn law_added_to_dag_handled<H: Hasher, D: Data, MK: MultiKeychain<H>>(
    before: RunwayModel<H, D, MK>,
    hash: H::Hash,
    parents: Vec<H::Hash>,
    step: Step<H, D, MK>,
)
    requires
        before.handles(
            Event::Consensus(Some(NotificationOut::AddedToDag(hash, parents))),
            Some(step),
        ),
    ensures
        step.0 == (RunwayModel {
            store: StoreModel {
                parents: before.store.parents.insert(hash, parents@),
                ..before.store
            },
            missing_parents: before.missing_parents.remove(hash),
            ..before
        }),
        ({
            let settled: Seq<ActionView<H, D, MK::Signature>> = if before.missing_parents.contains(
                hash,
            ) {
                seq![ActionView::Resolved(Request::Parents(hash))]
            } else {
                Seq::empty()
            };
            let sent: Seq<ActionView<H, D, MK::Signature>> = if before.store.units.contains_key(hash)
                && before.store.units[hash].creator() == before.node_ix {
                seq![ActionView::NewUnit(before.store.units[hash])]
            } else {
                Seq::empty()
            };
            step.1 == settled + sent
        }),
{
    if !before.missing_parents.contains(hash) {
        assert(before.missing_parents.remove(hash) =~= before.missing_parents);
    }
}

/// A proof that a node forked makes that node a known forker. If it was not one, this node raises an
/// alert, and one only, with the proof and the units that it keeps of the forker.
pub proof fn law_forker_handled<H: Hasher, D: Data, MK: MultiKeychain<H>>(
    before: RunwayModel<H, D, MK>,
    proof_of_fork: ForkProof<H, D, MK::Signature>,
    step: Step<H, D, MK>,
)
    requires
        before.handles(
            Event::Alerter(Some(ForkingNotification::Forker(proof_of_fork))),
            Some(step),
        ),
    ensures
        step.0 == (RunwayModel {
            store: StoreModel {
                forkers: before.store.forkers.insert(proof_of_fork.0.creator()),
                ..before.store
            },
            ..before
        }),
        step.1 == if before.store.forkers.contains(proof_of_fork.0.creator()) {
            Seq::empty()
        } else {
            seq![
                ActionView::Alert(
                    before.node_ix,
                    proof_of_fork,
                    before.store.units_of(proof_of_fork.0.creator()),
                ),
            ]
        },
{
    if before.store.forkers.contains(proof_of_fork.0.creator()) {
        assert(before.store.forkers.insert(proof_of_fork.0.creator()) =~= before.store.forkers);
    }
}

/// What is said of a place where a unit came in: that it is not asked for any more, where it was.
pub open spec fn place_settled<H: Hasher, D: Data, MK: MultiKeychain<H>>(
    before: RunwayModel<H, D, MK>,
    coord: UnitCoord,
) -> Seq<ActionView<H, D, MK::Signature>> {
    if before.missing_coords.contains(coord) {
        seq![ActionView::Resolved(Request::Coord(coord))]
    } else {
        Seq::empty()
    }
}

/// One unit from an alert that is not valid does nothing. One that is valid settles its place, and is
/// kept and buffered whoever created it, unless it is kept already. No alert goes out for it.
pub proof fn law_alerted_unit_handled<H: Hasher, D: Data, MK: MultiKeychain<H>>(
    before: RunwayModel<H, D, MK>,
    units: Vec<SignedUnit<H, D, MK::Signature>>,
    step: Step<H, D, MK>,
)
    requires
        before.handles(Event::Alerter(Some(ForkingNotification::Units(units))), Some(step)),
        units@.len() == 1,
    ensures
        !before.valid_unit(units@[0]) ==> step.0 == before && step.1.len() == 0,
        before.valid_unit(units@[0]) ==> {
            let unit = units@[0];
            &&& step.1 == place_settled(before, unit.coord())
            &&& step.0 == RunwayModel {
                missing_coords: before.missing_coords.remove(unit.coord()),
                store: if before.store.units.contains_key(unit.hash()) {
                    before.store
                } else {
                    StoreModel {
                        units: before.store.units.insert(unit.hash(), unit),
                        coords: before.store.coords.insert(unit.coord(), unit),
                        buffer: before.store.buffer.push(unit),
                        ..before.store
                    }
                },
                ..before
            }
        },
{
    reveal_with_fuel(RunwayModel::on_alerted_units, 2);
    let unit = units@[0];
    assert(units@.drop_last() =~= Seq::empty());
    if !before.missing_coords.contains(unit.coord()) {
        assert(before.missing_coords.remove(unit.coord()) =~= before.missing_coords);
    }
    assert(step.1 =~= before.on_unit_received(unit, true).1);
}

/// Units from alerts that come together are handled one after the other: a list of them is handled as
/// its first part is, and after that the rest.
pub proof fn law_alerted_units_in_turn<H: Hasher, D: Data, MK: MultiKeychain<H>>(
    before: RunwayModel<H, D, MK>,
    first: Vec<SignedUnit<H, D, MK::Signature>>,
    second: Vec<SignedUnit<H, D, MK::Signature>>,
    both: Vec<SignedUnit<H, D, MK::Signature>>,
    middle: Step<H, D, MK>,
    last: Step<H, D, MK>,
    step: Step<H, D, MK>,
)
    requires
        both@ == first@ + second@,
        before.handles(Event::Alerter(Some(ForkingNotification::Units(first))), Some(middle)),
        middle.0.handles(Event::Alerter(Some(ForkingNotification::Units(second))), Some(last)),
        before.handles(Event::Alerter(Some(ForkingNotification::Units(both))), Some(step)),
    ensures
        step.0 == last.0,
        step.1 == middle.1 + last.1,
        first@.len() == 0 ==> middle.0 == before && middle.1.len() == 0,
{
    lemma_alerted_units_in_turn(before, first@, second@);
}

proof fn lemma_alerted_units_in_turn<H: Hasher, D: Data, MK: MultiKeychain<H>>(
    before: RunwayModel<H, D, MK>,
    first: Seq<SignedUnit<H, D, MK::Signature>>,
    second: Seq<SignedUnit<H, D, MK::Signature>>,
)
    ensures
        ({
            let middle = before.on_alerted_units(first);
            let last = middle.0.on_alerted_units(second);
            before.on_alerted_units(first + second) == (last.0, middle.1 + last.1)
        }),
    decreases second.len(),
{
    let middle = before.on_alerted_units(first);
    let last = middle.0.on_alerted_units(second);
    if second.len() == 0 {
        assert(first + second =~= first);
        assert(middle.1 + last.1 =~= middle.1);
    } else {
        let fewer = second.drop_last();
        lemma_alerted_units_in_turn(before, first, fewer);
        assert((first + second).drop_last() =~= first + fewer);
        assert(before.on_alerted_units(first + second).1 =~= middle.1 + last.1);
    }
}

/// A unit from the network, whether it was spread or asked for, does nothing where it is not valid.
/// Where it is, it settles its place. A unit of a known forker, or one that is kept, does no more. A new
/// unit at a free place is kept and buffered. A new unit at a taken place makes its creator a known
/// forker, and is not kept; one alert goes out, with the two units as proof.
pub proof fn law_unit_handled<H: Hasher, D: Data, MK: MultiKeychain<H>>(
    before: RunwayModel<H, D, MK>,
    unit: SignedUnit<H, D, MK::Signature>,
    event: Event<H, D, MK::Signature>,
    step: Step<H, D, MK>,
)
    requires
        event == Event::<H, D, MK::Signature>::Network(Some(RunwayNotificationIn::NewUnit(unit)))
            || event == Event::<H, D, MK::Signature>::Network(
            Some(RunwayNotificationIn::Response(Response::Coord(unit))),
        ),
        before.handles(event, Some(step)),
    ensures
        !before.valid_unit(unit) ==> step.0 == before && step.1.len() == 0,
        before.valid_unit(unit) ==> {
            let settled = place_settled(before, unit.coord());
            let store = before.store;
            &&& step.0 == RunwayModel {
                missing_coords: before.missing_coords.remove(unit.coord()),
                store: step.0.store,
                ..before
            }
            &&& if store.forkers.contains(unit.creator()) || store.units.contains_key(unit.hash()) {
                &&& step.0.store == store
                &&& step.1 == settled
            } else if store.coords.contains_key(unit.coord()) {
                &&& step.0.store == StoreModel {
                    forkers: store.forkers.insert(unit.creator()),
                    ..store
                }
                &&& step.1 == settled.push(
                    ActionView::Alert(
                        before.node_ix,
                        (unit, store.coords[unit.coord()]),
                        store.units_of(unit.creator()),
                    ),
                )
            } else {
                &&& step.0.store == StoreModel {
                    units: store.units.insert(unit.hash(), unit),
                    coords: store.coords.insert(unit.coord(), unit),
                    buffer: store.buffer.push(unit),
                    ..store
                }
                &&& step.1 == settled
            }
        },
{
    if !before.missing_coords.contains(unit.coord()) {
        assert(before.missing_coords.remove(unit.coord()) =~= before.missing_coords);
    }
    if before.valid_unit(unit) {
        let settled = place_settled(before, unit.coord());
        assert(settled + Seq::empty() =~= settled);
        let alert = ActionView::<H, D, MK::Signature>::Alert(
            before.node_ix,
            (unit, before.store.coords[unit.coord()]),
            before.store.units_of(unit.creator()),
        );
        assert(settled + seq![alert] =~= settled.push(alert));
    }
}

/// A request for the unit at a place is answered with that unit, to the node that asks, where the place
/// is taken, and is not answered otherwise.
pub proof fn law_coord_request_handled<H: Hasher, D: Data, MK: MultiKeychain<H>>(
    before: RunwayModel<H, D, MK>,
    coord: UnitCoord,
    node_id: NodeIndex,
    step: Step<H, D, MK>,
)
    requires
        before.handles(
            Event::Network(Some(RunwayNotificationIn::Request(Request::Coord(coord), node_id))),
            Some(step),
        ),
    ensures
        step.0 == before,
        step.1 == if before.store.coords.contains_key(coord) {
            seq![ActionView::CoordResponse(before.store.coords[coord], node_id)]
        } else {
            Seq::empty()
        },
{
}

/// A request for the parents of a unit is answered, to the node that asks, with the kept units that
/// have the hashes of the parents, in their order, where the parents are known and all of them are
/// kept. It is not answered otherwise.
pub proof fn law_parents_request_handled<H: Hasher, D: Data, MK: MultiKeychain<H>>(
    before: RunwayModel<H, D, MK>,
    hash: H::Hash,
    node_id: NodeIndex,
    step: Step<H, D, MK>,
)
    requires
        before.handles(
            Event::Network(Some(RunwayNotificationIn::Request(Request::Parents(hash), node_id))),
            Some(step),
        ),
    ensures
        step.0 == before,
        ({
            let hashes = before.store.parents[hash];
            let answerable = before.store.parents.contains_key(hash) && forall|i: int|
                0 <= i < hashes.len() ==> before.store.units.contains_key(#[trigger] hashes[i]);
            if answerable {
                &&& step.1.len() == 1
                &&& step.1[0] matches ActionView::ParentsResponse(h, units, n)
                &&& h == hash
                &&& n == node_id
                &&& units.len() == hashes.len()
                &&& forall|i: int|
                    0 <= i < units.len() ==> #[trigger] units[i] == before.store.units[hashes[i]]
            } else {
                step.1.len() == 0
            }
        }),
{
}

/// A request for the newest unit of the node that asks is answered, once the answer is signed, with the
/// unit that this node keeps of it at the greatest round, or with none where it keeps none. The answer
/// has the salt of the request.
pub proof fn law_newest_request_handled<H: Hasher, D: Data, MK: MultiKeychain<H>>(
    before: RunwayModel<H, D, MK>,
    salt: u64,
    node_id: NodeIndex,
    step: Step<H, D, MK>,
)
    requires
        before.handles(
            Event::Network(Some(RunwayNotificationIn::Request(Request::NewestUnit(salt), node_id))),
            Some(step),
        ),
    ensures
        step.0 == before,
        step.1.len() == 1,
        ({
            &&& step.1[0] matches ActionView::SignNewest(response)
            &&& response.requester == node_id
            &&& response.responder == before.node_ix
            &&& response.salt == salt
            &&& match response.unit {
                Some(unit) => exists|round: Round| #[trigger]
                    before.store.coords.contains_key(UnitCoord { round, creator: node_id })
                        && before.store.coords[UnitCoord { round, creator: node_id }] == unit
                        && forall|later: Round|
                        round < later ==> !#[trigger] before.store.coords.contains_key(
                            UnitCoord { round: later, creator: node_id },
                        ),
                None => forall|round: Round|
                    !#[trigger] before.store.coords.contains_key(
                        UnitCoord { round, creator: node_id },
                    ),
            }
        }),
{
    law_newest_unit(before.store, node_id);
}

/// What comes of units that come from the network one after the other.
pub open spec fn come_in<H: Hasher, D: Data, MK: MultiKeychain<H>>(
    before: RunwayModel<H, D, MK>,
    units: Seq<SignedUnit<H, D, MK::Signature>>,
) -> Step<H, D, MK>
    decreases units.len(),
{
    if units.len() == 0 {
        (before, Seq::empty())
    } else {
        let first = come_in(before, units.drop_last());
        let last = first.0.on_unit_message(RunwayNotificationIn::NewUnit(units.last()));
        (last.0, first.1 + last.1)
    }
}

proof fn lemma_come_in<H: Hasher, D: Data, MK: MultiKeychain<H>>(
    before: RunwayModel<H, D, MK>,
    units: Seq<SignedUnit<H, D, MK::Signature>>,
)
    requires
        forall|i: int| 0 <= i < units.len() ==> before.valid_unit(#[trigger] units[i]),
    ensures
        before.take_in_all(units) == come_in(before, units),
        before.take_in_all(units).0.same_config(before),
    decreases units.len(),
{
    if units.len() > 0 {
        let fewer = units.drop_last();
        assert forall|i: int| 0 <= i < fewer.len() implies before.valid_unit(
            #[trigger] fewer[i],
        ) by {
            assert(fewer[i] == units[i]);
        }
        lemma_come_in(before, fewer);
        assert(before.valid_unit(units[units.len() - 1]));
    }
}

/// Whether the unit in the place `i` of an answer can be the parent that the creator whose turn it is
/// made of `unit`: it is valid, one round before it, and by that creator.
pub open spec fn can_be_parent<H: Hasher, D: Data, MK: MultiKeychain<H>>(
    before: RunwayModel<H, D, MK>,
    unit: SignedUnit<H, D, MK::Signature>,
    parents: Seq<SignedUnit<H, D, MK::Signature>>,
    i: int,
) -> bool {
    &&& before.valid_unit(parents[i])
    &&& parents[i].round() + 1 == unit.round()
    &&& parents[i].creator() == set_indices(unit.signable().spec_mask())[i]
}

/// Whether a map has the hash of each unit for its creator, and nothing for any other member.
pub open spec fn maps_hashes<H: Hasher, D: Data, S>(
    map: Seq<Option<H::Hash>>,
    units: Seq<SignedUnit<H, D, S>>,
) -> bool {
    &&& forall|i: int|
        0 <= i < units.len() ==> (#[trigger] units[i]).creator().0 < map.len()
            && map[units[i].creator().0 as int] == Some(units[i].hash())
    &&& forall|j: int|
        0 <= j < map.len() && (#[trigger] map[j]) is Some ==> exists|i: int|
            0 <= i < units.len() && (#[trigger] units[i]).creator().0 == j
}

proof fn lemma_maps_hashes<H: Hasher, D: Data, S>(
    map: Seq<Option<H::Hash>>,
    units: Seq<SignedUnit<H, D, S>>,
    creators: Seq<NodeIndex>,
)
    requires
        map.len() <= usize::MAX,
        maps_hashes(map, units),
        units.len() == creators.len(),
        forall|i: int| 0 <= i < units.len() ==> (#[trigger] units[i]).creator() == creators[i],
        forall|k: int, l: int|
            0 <= k < l < creators.len() ==> (#[trigger] creators[k]).0 < (#[trigger] creators[l]).0,
    ensures
        map == placed(
            map.len(),
            creators,
            units.map_values(|unit: SignedUnit<H, D, S>| unit.hash()),
        ),
{
    let hashes = units.map_values(|unit: SignedUnit<H, D, S>| unit.hash());
    let other = placed(map.len(), creators, hashes);
    assert forall|j: int| 0 <= j < map.len() implies #[trigger] map[j] == other[j] by {
        let ix = NodeIndex(j as usize);
        if creators.contains(ix) {
            let k = creators.index_of(ix);
            assert(units[k].creator() == ix);
        } else if map[j] is Some {
            let i = choose|i: int| 0 <= i < units.len() && (#[trigger] units[i]).creator().0 == j;
            assert(creators[i] == ix);
        }
    }
    assert(map =~= other);
}

proof fn lemma_parents_answer<H: Hasher, D: Data, MK: MultiKeychain<H>>(
    before: RunwayModel<H, D, MK>,
    hash: H::Hash,
    parents: Seq<SignedUnit<H, D, MK::Signature>>,
    good: int,
)
    requires
        0 <= good <= parents.len(),
        before.store.units.contains_key(hash),
        forall|i: int|
            0 <= i < good ==> #[trigger] can_be_parent(
                before,
                before.store.units[hash],
                parents,
                i,
            ),
        good < parents.len() ==> !can_be_parent(
            before,
            before.store.units[hash],
            parents,
            good,
        ),
    ensures
        ({
            let unit = before.store.units[hash].signable();
            before.n_good_parents(unit.spec_round(), set_indices(unit.spec_mask()), parents) == good
        }),
        before.take_in_all(parents.take(good)) == come_in(before, parents.take(good)),
    decreases parents.len(),
{
    let unit = before.store.units[hash];
    let creators = set_indices(unit.signable().spec_mask());
    if parents.len() > 0 {
        let fewer = parents.drop_last();
        let less = if good < parents.len() {
            good
        } else {
            parents.len() - 1
        };
        assert forall|i: int| 0 <= i < less implies #[trigger] can_be_parent(
            before,
            unit,
            fewer,
            i,
        ) by {
            assert(can_be_parent(before, unit, parents, i));
            assert(fewer[i] == parents[i]);
        }
        if less < fewer.len() {
            assert(fewer[less] == parents[less]);
        }
        lemma_parents_answer(before, hash, fewer, less);
        if good == parents.len() {
            assert(can_be_parent(before, unit, parents, parents.len() - 1));
        }
    }
    let taken = parents.take(good);
    assert forall|i: int| 0 <= i < taken.len() implies before.valid_unit(#[trigger] taken[i]) by {
        assert(can_be_parent(before, unit, parents, i));
    }
    lemma_come_in(before, taken);
}

/// An answer with parents does nothing where the unit is not kept, where its parents are known, or where
/// there are more or fewer of them than the unit names.
pub proof fn law_parents_answer_ignored<H: Hasher, D: Data, MK: MultiKeychain<H>>(
    before: RunwayModel<H, D, MK>,
    hash: H::Hash,
    parents: Vec<SignedUnit<H, D, MK::Signature>>,
    step: Step<H, D, MK>,
)
    requires
        before.handles(
            Event::Network(
                Some(RunwayNotificationIn::Response(Response::Parents(hash, parents))),
            ),
            Some(step),
        ),
        !before.store.units.contains_key(hash) || before.store.parents.contains_key(hash)
            || parents@.len() != set_indices(
            before.store.units[hash].signable().spec_mask(),
        ).len(),
    ensures
        step.0 == before,
        step.1.len() == 0,
{
}

/// Where a unit in an answer with parents cannot be the parent whose turn it is, those before it come in
/// as units from the network do, and nothing else happens.
pub proof fn law_parents_answer_cut_short<H: Hasher, D: Data, MK: MultiKeychain<H>>(
    before: RunwayModel<H, D, MK>,
    hash: H::Hash,
    parents: Vec<SignedUnit<H, D, MK::Signature>>,
    good: int,
    step: Step<H, D, MK>,
)
    requires
        before.handles(
            Event::Network(
                Some(RunwayNotificationIn::Response(Response::Parents(hash, parents))),
            ),
            Some(step),
        ),
        before.store.units.contains_key(hash),
        !before.store.parents.contains_key(hash),
        parents@.len() == set_indices(before.store.units[hash].signable().spec_mask()).len(),
        0 <= good < parents@.len(),
        forall|i: int|
            0 <= i < good ==> #[trigger] can_be_parent(
                before,
                before.store.units[hash],
                parents@,
                i,
            ),
        !can_be_parent(before, before.store.units[hash], parents@, good),
    ensures
        step == come_in(before, parents@.take(good)),
{
    lemma_parents_answer(before, hash, parents@, good);
}

/// Where the units in an answer are one for each creator that the unit names, in that order, valid and
/// one round before the unit, they come in as units from the network do. Where, besides, their hashes
/// give the control hash of the unit, they are its parents from then on, and the ordering part is told
/// so last, with their hashes in their order.
pub proof fn law_parents_answer_taken_over<H: Hasher, D: Data, MK: MultiKeychain<H>>(
    before: RunwayModel<H, D, MK>,
    hash: H::Hash,
    parents: Vec<SignedUnit<H, D, MK::Signature>>,
    map: Seq<Option<H::Hash>>,
    step: Step<H, D, MK>,
)
    requires
        before.handles(
            Event::Network(
                Some(RunwayNotificationIn::Response(Response::Parents(hash, parents))),
            ),
            Some(step),
        ),
        before.store.units.contains_key(hash),
        !before.store.parents.contains_key(hash),
        ({
            let unit = before.store.units[hash];
            let creators = set_indices(unit.signable().spec_mask());
            &&& parents@.len() == creators.len()
            &&& forall|i: int|
                0 <= i < parents@.len() ==> {
                    &&& before.valid_unit(#[trigger] parents@[i])
                    &&& parents@[i].round() == unit.round() - 1
                    &&& parents@[i].creator() == creators[i]
                }
        }),
        map.len() == before.n_members.0,
        maps_hashes(map, parents@),
    ensures
        ({
            let unit = before.store.units[hash].signable();
            let hashes = parents@.map_values(
                |parent: SignedUnit<H, D, MK::Signature>| parent.hash(),
            );
            let (taken, said) = come_in(before, parents@);
            if H::combined_hash(map) == unit.spec_combined_hash() {
                &&& step.1 == said.push(ActionView::UnitParents(hash, hashes))
                &&& step.0 == RunwayModel {
                    store: StoreModel {
                        parents: taken.store.parents.insert(hash, hashes),
                        ..taken.store
                    },
                    ..taken
                }
            } else {
                step == (taken, said)
            }
        }),
{
    let unit = before.store.units[hash];
    let creators = set_indices(unit.signable().spec_mask());
    assert forall|i: int| 0 <= i < parents@.len() implies #[trigger] can_be_parent(
        before,
        unit,
        parents@,
        i,
    ) by {
        assert(before.valid_unit(parents@[i]));
    }
    lemma_parents_answer(before, hash, parents@, parents@.len() as int);
    assert(parents@.take(parents@.len() as int) =~= parents@);
    unit.signable().spec_pre_unit().control_hash.parents_mask.lemma_len();
    lemma_set_indices(unit.signable().spec_mask());
    lemma_maps_hashes(map, parents@, creators);
}

/// Whenever the ordering part is told of parents after an answer, the answer was about a kept unit whose
/// parents were not known, and brought one valid unit, one round before it, for each creator that it
/// names; their hashes give its control hash, and these are the hashes that are told.
pub proof fn law_parents_told_fit<H: Hasher, D: Data, MK: MultiKeychain<H>>(
    before: RunwayModel<H, D, MK>,
    hash: H::Hash,
    parents: Vec<SignedUnit<H, D, MK::Signature>>,
    map: Seq<Option<H::Hash>>,
    told_of: H::Hash,
    told: Seq<H::Hash>,
    step: Step<H, D, MK>,
)
    requires
        before.handles(
            Event::Network(
                Some(RunwayNotificationIn::Response(Response::Parents(hash, parents))),
            ),
            Some(step),
        ),
        step.1.contains(ActionView::UnitParents(told_of, told)),
    ensures
        told_of == hash,
        before.store.units.contains_key(hash),
        !before.store.parents.contains_key(hash),
        ({
            let unit = before.store.units[hash];
            let creators = set_indices(unit.signable().spec_mask());
            &&& parents@.len() == creators.len()
            &&& forall|i: int|
                0 <= i < parents@.len() ==> {
                    &&& before.valid_unit(#[trigger] parents@[i])
                    &&& parents@[i].round() == unit.round() - 1
                    &&& parents@[i].creator() == creators[i]
                }
            &&& told == parents@.map_values(
                |parent: SignedUnit<H, D, MK::Signature>| parent.hash(),
            )
            &&& map.len() == before.n_members.0 && maps_hashes(map, parents@) ==> H::combined_hash(
                map,
            ) == unit.signable().spec_combined_hash()
        }),
        step.0.store.parents == before.store.parents.insert(hash, told),
{
    let unit = before.store.units[hash];
    let creators = set_indices(unit.signable().spec_mask());
    let said = ActionView::<H, D, MK::Signature>::UnitParents(told_of, told);
    let good = before.n_good_parents(unit.round(), creators, parents@);
    let taken = before.take_in_all(parents@.take(good as int));
    assert(step.1[step.1.index_of(said)] == said);
    lemma_take_in_all_says(before, parents@.take(good as int));
    lemma_take_in_all_parents(before, parents@.take(good as int));
    lemma_parents_fault_taken(before, hash, parents@);
    lemma_all_good(before, unit.round(), creators, parents@);
    unit.signable().spec_pre_unit().control_hash.parents_mask.lemma_len();
    lemma_set_indices(unit.signable().spec_mask());
    if map.len() == before.n_members.0 && maps_hashes(map, parents@) {
        lemma_maps_hashes(map, parents@, creators);
    }
}

proof fn lemma_take_in_all_parents<H: Hasher, D: Data, MK: MultiKeychain<H>>(
    before: RunwayModel<H, D, MK>,
    units: Seq<SignedUnit<H, D, MK::Signature>>,
)
    ensures
        before.take_in_all(units).0.store.parents == before.store.parents,
    decreases units.len(),
{
    if units.len() > 0 {
        lemma_take_in_all_parents(before, units.drop_last());
    }
}

proof fn lemma_all_good<H: Hasher, D: Data, MK: MultiKeychain<H>>(
    model: RunwayModel<H, D, MK>,
    round: Round,
    creators: Seq<NodeIndex>,
    parents: Seq<SignedUnit<H, D, MK::Signature>>,
)
    ensures
        model.n_good_parents(round, creators, parents) == parents.len() ==> forall|i: int|
            0 <= i < parents.len() ==> model.good_parent(
                round,
                creators[i],
                #[trigger] parents[i],
            ),
        model.n_good_parents(round, creators, parents) <= parents.len(),
    decreases parents.len(),
{
    if parents.len() > 0 {
        let fewer = parents.drop_last();
        lemma_all_good(model, round, creators, fewer);
        assert forall|i: int|
            0 <= i < parents.len() && model.n_good_parents(round, creators, parents)
                == parents.len() implies model.good_parent(
            round,
            creators[i],
            #[trigger] parents[i],
        ) by {
            if i < fewer.len() {
                assert(fewer[i] == parents[i]);
            }
        }
    }
}

/// The reason for which parents are refused is the first that holds: that they are known, that the unit
/// is not kept, that their number is wrong, what is wrong with the first unit that cannot be the parent
/// whose turn it is, and, where each can, that they do not give the control hash.
pub proof fn law_parents_reason<H: Hasher, D: Data, MK: MultiKeychain<H>>(
    before: RunwayModel<H, D, MK>,
    hash: H::Hash,
    parents: Seq<SignedUnit<H, D, MK::Signature>>,
    good: int,
    map: Seq<Option<H::Hash>>,
)
    requires
        0 <= good <= parents.len(),
        forall|i: int|
            0 <= i < good ==> #[trigger] can_be_parent(
                before,
                before.store.units[hash],
                parents,
                i,
            ),
        good < parents.len() ==> !can_be_parent(
            before,
            before.store.units[hash],
            parents,
            good,
        ),
        map.len() == before.n_members.0,
        good == parents.len() ==> maps_hashes(map, parents),
    ensures
        ({
            let fault = before.parents_fault(hash, parents);
            let unit = before.store.units[hash];
            let unknown = !before.store.parents.contains_key(hash);
            let kept = unknown && before.store.units.contains_key(hash);
            let creators = set_indices(unit.signable().spec_mask());
            let counted = kept && parents.len() == creators.len();
            let bad = parents[good];
            &&& fault == Some(ParentsFault::Known) <==> !unknown
            &&& fault == Some(ParentsFault::UnknownUnit) <==> unknown && !kept
            &&& fault == Some(ParentsFault::WrongNumber) <==> kept && !counted
            &&& counted && good < parents.len() ==> {
                &&& !before.valid_unit(bad) ==> fault == Some(
                    ParentsFault::BadUnit(before.unit_fault(bad)->0),
                )
                &&& before.valid_unit(bad) && bad.round() + 1 != unit.round() ==> fault == Some(
                    ParentsFault::WrongRound,
                )
                &&& before.valid_unit(bad) && bad.round() + 1 == unit.round() ==> fault == Some(
                    ParentsFault::WrongCreator,
                )
            }
            &&& counted && good == parents.len() ==> fault == if H::combined_hash(map)
                == unit.signable().spec_combined_hash() {
                None
            } else {
                Some(ParentsFault::WrongControlHash)
            }
        }),
{
    let unit = before.store.units[hash];
    let creators = set_indices(unit.signable().spec_mask());
    if before.store.units.contains_key(hash) {
        lemma_parents_answer(before, hash, parents, good);
        unit.signable().spec_pre_unit().control_hash.parents_mask.lemma_len();
        lemma_set_indices(unit.signable().spec_mask());
        if good == parents.len() && parents.len() == creators.len() {
            assert forall|i: int| 0 <= i < parents.len() implies (#[trigger] parents[i]).creator()
                == creators[i] by {
                assert(can_be_parent(before, unit, parents, i));
            }
            lemma_maps_hashes(map, parents, creators);
        }
    }
}

/// An answer to the request for the newest unit does nothing where the starting round has been told,
/// where the answer is not signed or is to another request, or where the unit in it is not valid or not
/// this node's.
pub proof fn law_newest_answer_ignored<H: Hasher, D: Data, MK: MultiKeychain<H>>(
    before: RunwayModel<H, D, MK>,
    response: Signed<NewestUnitResponse<H, D, MK::Signature>, MK::Signature>,
    step: Step<H, D, MK>,
)
    requires
        before.handles(
            Event::Network(
                Some(RunwayNotificationIn::Response(Response::NewestUnit(response))),
            ),
            Some(step),
        ),
        ({
            ||| before.starting_round_sent
            ||| !before.keychain.accepts(
                response.signable().message(),
                response.spec_signature(),
                response.signable().responder,
            )
            ||| response.signable().salt != before.salt
            ||| response.signable().unit matches Some(unit) && !before.valid_unit(unit)
            ||| response.signable().unit matches Some(unit) && unit.creator() != before.node_ix
        }),
    ensures
        step.0 == before,
        step.1.len() == 0,
{
}

/// An answer to the request for the newest unit counts where it comes before the starting round was
/// told, is signed by its sender and is to this request, and where the unit in it, if there is one, is
/// valid and this node's: its sender is counted. A unit that is not kept comes in as units from the
/// network do, so that it is kept and buffered where this node is no known forker and the place is free;
/// and the starting round is at least the round after it. After that the starting round is told if the
/// time for answers is over and enough nodes have answered.
pub proof fn law_newest_answer_counted<H: Hasher, D: Data, MK: MultiKeychain<H>>(
    before: RunwayModel<H, D, MK>,
    response: Signed<NewestUnitResponse<H, D, MK::Signature>, MK::Signature>,
    step: Step<H, D, MK>,
)
    requires
        before.handles(
            Event::Network(
                Some(RunwayNotificationIn::Response(Response::NewestUnit(response))),
            ),
            Some(step),
        ),
        !before.starting_round_sent,
        before.keychain.accepts(
            response.signable().message(),
            response.spec_signature(),
            response.signable().responder,
        ),
        response.signable().salt == before.salt,
        response.signable().unit matches Some(unit) ==> {
            &&& before.valid_unit(unit)
            &&& unit.creator() == before.node_ix
            &&& unit.round() < Round::MAX
        },
    ensures
        ({
            let (taken, said) = match response.signable().unit {
                Some(unit) if !before.store.units.contains_key(
                    unit.hash(),
                ) => before.on_unit_message(RunwayNotificationIn::NewUnit(unit)),
                _ => (before, Seq::empty()),
            };
            let responders = before.newest_unit_responders.insert(
                response.signable().responder.0,
            );
            let tells = before.after_catch_up_delay && responders.len() + 1 >= before.threshold.0;
            let value = step.0.starting_round_value;
            &&& step.0 == RunwayModel {
                newest_unit_responders: responders,
                starting_round_value: value,
                starting_round_sent: tells,
                ..taken
            }
            &&& step.1 == said + if tells {
                seq![ActionView::StartingRound(value)]
            } else {
                Seq::empty()
            }
            &&& value >= before.starting_round_value
            &&& response.signable().unit is None ==> value == before.starting_round_value
            &&& response.signable().unit matches Some(unit)
                ==> if before.store.units.contains_key(unit.hash()) {
                value == before.starting_round_value
            } else {
                &&& value > unit.round()
                &&& value == before.starting_round_value || value == unit.round() + 1
            }
            &&& response.signable().unit matches Some(unit)
                ==> !before.store.units.contains_key(unit.hash())
                && !before.store.forkers.contains(before.node_ix)
                && !before.store.coords.contains_key(unit.coord())
                ==> step.0.store.units.contains_key(unit.hash())
                && step.0.store.units[unit.hash()] == unit && step.0.store.buffer
                == before.store.buffer.push(unit)
        }),
{
    assert(response.is_signed::<H, MK>(before.keychain));
}

/// The newest of two units that answers bring decides, in whichever order they come: after both
/// answers, the starting round is after the rounds of both units.
pub proof fn law_newest_of_answers_decides<H: Hasher, D: Data, MK: MultiKeychain<H>>(
    before: RunwayModel<H, D, MK>,
    first: Signed<NewestUnitResponse<H, D, MK::Signature>, MK::Signature>,
    second: Signed<NewestUnitResponse<H, D, MK::Signature>, MK::Signature>,
    middle: Step<H, D, MK>,
    last: Step<H, D, MK>,
)
    requires
        before.handles(
            Event::Network(Some(RunwayNotificationIn::Response(Response::NewestUnit(first)))),
            Some(middle),
        ),
        middle.0.handles(
            Event::Network(Some(RunwayNotificationIn::Response(Response::NewestUnit(second)))),
            Some(last),
        ),
        !before.starting_round_sent,
        !middle.0.starting_round_sent,
        first.signable().salt == before.salt,
        second.signable().salt == before.salt,
        first.is_signed::<H, MK>(before.keychain),
        second.is_signed::<H, MK>(before.keychain),
        first.signable().unit is Some,
        second.signable().unit is Some,
        before.valid_unit(first.signable().unit->0),
        before.valid_unit(second.signable().unit->0),
        first.signable().unit->0.creator() == before.node_ix,
        second.signable().unit->0.creator() == before.node_ix,
        first.signable().unit->0.round() < Round::MAX,
        second.signable().unit->0.round() < Round::MAX,
        !before.store.units.contains_key(first.signable().unit->0.hash()),
        !middle.0.store.units.contains_key(second.signable().unit->0.hash()),
    ensures
        last.0.starting_round_value > first.signable().unit->0.round(),
        last.0.starting_round_value > second.signable().unit->0.round(),
{
    law_newest_answer_counted(before, first, middle);
    assert(middle.0.valid_unit(second.signable().unit->0));
    law_newest_answer_counted(middle.0, second, last);
}

/// A node that starts asks everyone for its newest unit, and does nothing else.
pub proof fn law_started<H: Hasher, D: Data, MK: MultiKeychain<H>>(
    before: RunwayModel<H, D, MK>,
    moment: Moment<H, D, MK>,
)
    requires
        transition(before, moment),
        moment.0 is Started,
    ensures
        moment.1.0 == before,
        moment.1.1 == seq![
            ActionView::<H, D, MK::Signature>::Request(Request::NewestUnit(before.salt), Recipient::Everyone),
        ],
{
}

/// A unit that this node created is kept, unless it is already, and is buffered unless this node is a
/// known forker. Nothing is said of it.
pub proof fn law_created<H: Hasher, D: Data, MK: MultiKeychain<H>>(
    before: RunwayModel<H, D, MK>,
    unit: SignedUnit<H, D, MK::Signature>,
    moment: Moment<H, D, MK>,
)
    requires
        transition(before, moment),
        moment.0 == Cause::<H, D, MK::Signature>::Created(unit),
    ensures
        moment.1.1.len() == 0,
        moment.1.0 == (RunwayModel {
            store: if before.store.units.contains_key(unit.hash()) {
                before.store
            } else {
                StoreModel {
                    units: before.store.units.insert(unit.hash(), unit),
                    coords: before.store.coords.insert(unit.coord(), unit),
                    buffer: if before.store.forkers.contains(unit.creator()) {
                        before.store.buffer
                    } else {
                        before.store.buffer.push(unit)
                    },
                    ..before.store
                }
            },
            ..before
        }),
{
}

/// A signed answer to a request for a newest unit goes to the node that asked, and nowhere else.
pub proof fn law_newest_signed<H: Hasher, D: Data, MK: MultiKeychain<H>>(
    before: RunwayModel<H, D, MK>,
    response: Signed<NewestUnitResponse<H, D, MK::Signature>, MK::Signature>,
    moment: Moment<H, D, MK>,
)
    requires
        transition(before, moment),
        moment.0 == Cause::<H, D, MK::Signature>::Signed(response),
    ensures
        moment.1.0 == before,
        moment.1.1 == seq![
            ActionView::NewestResponse(response, response.signable().requester),
        ],
{
}

/// An action that could not be delivered stops the node, unless it was one of best effort. Once the
/// starting round was delivered, the request for the newest unit needs no repeating. Otherwise nothing
/// follows.
pub proof fn law_delivery<H: Hasher, D: Data, MK: MultiKeychain<H>>(
    before: RunwayModel<H, D, MK>,
    delivery: Delivery,
    delivered: bool,
    moment: Moment<H, D, MK>,
)
    requires
        transition(before, moment),
        moment.0 == Cause::<H, D, MK::Signature>::Performed(delivery, delivered),
    ensures
        moment.1.0 == (RunwayModel {
            exiting: before.exiting || (!delivered && !(delivery is BestEffort)),
            ..before
        }),
        moment.1.1 == if delivered && delivery is StartingRound {
            seq![ActionView::<H, D, MK::Signature>::Resolved(Request::NewestUnit(before.salt))]
        } else {
            Seq::empty()
        },
{
}

/// The ordering part is told of the buffered units, of each by its place, its hash, the creators of its
/// parents and its control hash, in the order in which they were buffered. Afterwards none is buffered,
/// and nothing else has changed.
pub proof fn law_told<H: Hasher, D: Data, MK: MultiKeychain<H>>(
    before: RunwayModel<H, D, MK>,
    moment: Moment<H, D, MK>,
)
    requires
        transition(before, moment),
        moment.0 is Told,
    ensures
        moment.1.0 == (RunwayModel {
            store: StoreModel { buffer: Seq::empty(), ..before.store },
            ..before
        }),
        moment.1.1.len() == 1,
        moment.1.1[0] matches ActionView::NewUnits(units) && units.len()
            == before.store.buffer.len() && forall|i: int|
            0 <= i < units.len() ==> #[trigger] units[i] == (UnitView::<H> {
                coord: before.store.buffer[i].coord(),
                hash: before.store.buffer[i].hash(),
                parents_mask: before.store.buffer[i].signable().spec_mask(),
                combined_hash: before.store.buffer[i].signable().spec_combined_hash(),
            }),
{
}

/// A new node knows of no units, parents or forkers, asks for nothing, has heard of nobody and starts
/// from round 0. Its threshold is the smallest number of members that is more than two thirds of them.
pub proof fn law_new_node<'a, H: Hasher, D: Data, MK: MultiKeychain<H>>(
    config: RunwayConfig<'a, MK>,
)
    requires
        config.n_members.0 * 2 <= usize::MAX,
    ensures
        ({
            let start = Runway::<'a, H, D, MK>::initial(config);
            &&& start.node_ix == config.node_ix
            &&& start.session_id == config.session_id
            &&& start.n_members == config.n_members
            &&& start.keychain == *config.keychain
            &&& start.salt == config.salt
            &&& start.store.max_round == config.max_round
            &&& 3 * start.threshold.0 > 2 * config.n_members.0
            &&& 3 * (start.threshold.0 - 1) <= 2 * config.n_members.0
            &&& forall|h: H::Hash| !#[trigger] start.store.units.contains_key(h)
            &&& forall|c: UnitCoord| !#[trigger] start.store.coords.contains_key(c)
            &&& forall|h: H::Hash| !#[trigger] start.store.parents.contains_key(h)
            &&& forall|ix: NodeIndex| !#[trigger] start.store.forkers.contains(ix)
            &&& start.store.buffer.len() == 0
            &&& forall|c: UnitCoord| !#[trigger] start.missing_coords.contains(c)
            &&& forall|h: H::Hash| !#[trigger] start.missing_parents.contains(h)
            &&& forall|ix: usize| !#[trigger] start.newest_unit_responders.contains(ix)
            &&& start.starting_round_value == 0
            &&& !start.starting_round_sent
            &&& !start.after_catch_up_delay
            &&& !start.exiting
        }),
{
}

} // verus!
