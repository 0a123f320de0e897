//! What a list of actions says.

use crate::messages::{
    ActionView, Event, ForkingNotification, NotificationOut, Recipient, Request, Response,
    RunwayNotificationIn,
};
use crate::model::{RunwayModel, Step};
use crate::nodes::{set_indices, NodeIndex};
use crate::traits::{Data, Hasher, MultiKeychain, Signature};
use crate::units::{NewestUnitResponse, Round, Signed, SignedUnit, UnitCoord, UnitView};
use vstd::prelude::*;

verus! {

/// The nodes that the alerts among the actions prove to have forked.
pub open spec fn alerted<H: Hasher, D: Data, S: Signature>(actions: Seq<ActionView<H, D, S>>) -> Seq<
    NodeIndex,
>
    decreases actions.len(),
{
    if actions.len() == 0 {
        Seq::empty()
    } else {
        let earlier = alerted(actions.drop_last());
        match actions.last() {
            ActionView::Alert(_, proof_of_fork, _) => earlier.push(proof_of_fork.0.creator()),
            _ => earlier,
        }
    }
}

/// The starting rounds that the actions tell.
pub open spec fn starts<H: Hasher, D: Data, S: Signature>(actions: Seq<ActionView<H, D, S>>) -> Seq<
    Round,
>
    decreases actions.len(),
{
    if actions.len() == 0 {
        Seq::empty()
    } else {
        let earlier = starts(actions.drop_last());
        match actions.last() {
            ActionView::StartingRound(round) => earlier.push(round),
            _ => earlier,
        }
    }
}

/// The hashes of the units that the actions tell the ordering part of.
pub open spec fn told<H: Hasher, D: Data, S: Signature>(actions: Seq<ActionView<H, D, S>>) -> Seq<
    H::Hash,
>
    decreases actions.len(),
{
    if actions.len() == 0 {
        Seq::empty()
    } else {
        let earlier = told(actions.drop_last());
        match actions.last() {
            ActionView::NewUnits(units) => earlier + units.map_values(
                |unit: UnitView<H>| unit.hash,
            ),
            _ => earlier,
        }
    }
}

/// The places that the actions say no unit is missing at any more.
pub open spec fn resolved<H: Hasher, D: Data, S: Signature>(actions: Seq<ActionView<H, D, S>>) -> Seq<
    UnitCoord,
>
    decreases actions.len(),
{
    if actions.len() == 0 {
        Seq::empty()
    } else {
        let earlier = resolved(actions.drop_last());
        match actions.last() {
            ActionView::Resolved(Request::Coord(coord)) => earlier.push(coord),
            _ => earlier,
        }
    }
}

/// The places that the actions request units for.
pub open spec fn requested<H: Hasher, D: Data, S: Signature>(
    actions: Seq<ActionView<H, D, S>>,
) -> Seq<UnitCoord>
    decreases actions.len(),
{
    if actions.len() == 0 {
        Seq::empty()
    } else {
        let earlier = requested(actions.drop_last());
        match actions.last() {
            ActionView::Request(Request::Coord(coord), _) => earlier.push(coord),
            _ => earlier,
        }
    }
}

/// The units that the actions say no parents are missing of any more.
pub open spec fn resolved_parents<H: Hasher, D: Data, S: Signature>(
    actions: Seq<ActionView<H, D, S>>,
) -> Seq<H::Hash>
    decreases actions.len(),
{
    if actions.len() == 0 {
        Seq::empty()
    } else {
        let earlier = resolved_parents(actions.drop_last());
        match actions.last() {
            ActionView::Resolved(Request::Parents(hash)) => earlier.push(hash),
            _ => earlier,
        }
    }
}

/// The units that the actions request the parents of.
pub open spec fn requested_parents<H: Hasher, D: Data, S: Signature>(
    actions: Seq<ActionView<H, D, S>>,
) -> Seq<H::Hash>
    decreases actions.len(),
{
    if actions.len() == 0 {
        Seq::empty()
    } else {
        let earlier = requested_parents(actions.drop_last());
        match actions.last() {
            ActionView::Request(Request::Parents(hash), _) => earlier.push(hash),
            _ => earlier,
        }
    }
}

/// The salts of the requests for the newest unit that the actions make, and whom they go to.
pub open spec fn requested_newest<H: Hasher, D: Data, S: Signature>(
    actions: Seq<ActionView<H, D, S>>,
) -> Seq<(u64, Recipient)>
    decreases actions.len(),
{
    if actions.len() == 0 {
        Seq::empty()
    } else {
        let earlier = requested_newest(actions.drop_last());
        match actions.last() {
            ActionView::Request(Request::NewestUnit(salt), recipient) => earlier.push(
                (salt, recipient),
            ),
            _ => earlier,
        }
    }
}

/// The salts of the requests for the newest unit that the actions say need no repeating.
pub open spec fn resolved_newest<H: Hasher, D: Data, S: Signature>(
    actions: Seq<ActionView<H, D, S>>,
) -> Seq<u64>
    decreases actions.len(),
{
    if actions.len() == 0 {
        Seq::empty()
    } else {
        let earlier = resolved_newest(actions.drop_last());
        match actions.last() {
            ActionView::Resolved(Request::NewestUnit(salt)) => earlier.push(salt),
            _ => earlier,
        }
    }
}

/// The notifications of new units among the actions.
pub open spec fn new_units<H: Hasher, D: Data, S: Signature>(
    actions: Seq<ActionView<H, D, S>>,
) -> Seq<Seq<UnitView<H>>>
    decreases actions.len(),
{
    if actions.len() == 0 {
        Seq::empty()
    } else {
        let earlier = new_units(actions.drop_last());
        match actions.last() {
            ActionView::NewUnits(units) => earlier.push(units),
            _ => earlier,
        }
    }
}

/// The units that the actions send to everyone.
pub open spec fn spread<H: Hasher, D: Data, S: Signature>(actions: Seq<ActionView<H, D, S>>) -> Seq<
    SignedUnit<H, D, S>,
>
    decreases actions.len(),
{
    if actions.len() == 0 {
        Seq::empty()
    } else {
        let earlier = spread(actions.drop_last());
        match actions.last() {
            ActionView::NewUnit(unit) => earlier.push(unit),
            _ => earlier,
        }
    }
}

pub proof fn lemma_append<H: Hasher, D: Data, S: Signature>(
    a: Seq<ActionView<H, D, S>>,
    b: Seq<ActionView<H, D, S>>,
)
    ensures
        alerted(a + b) == alerted(a) + alerted(b),
        starts(a + b) == starts(a) + starts(b),
        resolved(a + b) == resolved(a) + resolved(b),
        requested(a + b) == requested(a) + requested(b),
        told(a + b) == told(a) + told(b),
        resolved_parents(a + b) == resolved_parents(a) + resolved_parents(b),
        requested_parents(a + b) == requested_parents(a) + requested_parents(b),
        requested_newest(a + b) == requested_newest(a) + requested_newest(b),
        resolved_newest(a + b) == resolved_newest(a) + resolved_newest(b),
        new_units(a + b) == new_units(a) + new_units(b),
        spread(a + b) == spread(a) + spread(b),
    decreases b.len(),
{
    if b.len() == 0 {
        assert(a + b =~= a);
    } else {
        lemma_append(a, b.drop_last());
        assert((a + b).drop_last() =~= a + b.drop_last());
    }
}

pub proof fn lemma_one<H: Hasher, D: Data, S: Signature>(action: ActionView<H, D, S>)
    ensures
        alerted(seq![action]) == match action {
            ActionView::Alert(_, proof_of_fork, _) => seq![proof_of_fork.0.creator()],
            _ => Seq::empty(),
        },
        starts(seq![action]) == match action {
            ActionView::StartingRound(round) => seq![round],
            _ => Seq::empty(),
        },
        resolved(seq![action]) == match action {
            ActionView::Resolved(Request::Coord(coord)) => seq![coord],
            _ => Seq::empty(),
        },
        requested(seq![action]) == match action {
            ActionView::Request(Request::Coord(coord), _) => seq![coord],
            _ => Seq::empty(),
        },
        told(seq![action]) == match action {
            ActionView::NewUnits(units) => units.map_values(|unit: UnitView<H>| unit.hash),
            _ => Seq::empty(),
        },
        resolved_parents(seq![action]) == match action {
            ActionView::Resolved(Request::Parents(hash)) => seq![hash],
            _ => Seq::empty(),
        },
        requested_parents(seq![action]) == match action {
            ActionView::Request(Request::Parents(hash), _) => seq![hash],
            _ => Seq::empty(),
        },
        requested_newest(seq![action]) == match action {
            ActionView::Request(Request::NewestUnit(salt), recipient) => seq![(salt, recipient)],
            _ => Seq::empty(),
        },
        resolved_newest(seq![action]) == match action {
            ActionView::Resolved(Request::NewestUnit(salt)) => seq![salt],
            _ => Seq::empty(),
        },
        new_units(seq![action]) == match action {
            ActionView::NewUnits(units) => seq![units],
            _ => Seq::empty(),
        },
        spread(seq![action]) == match action {
            ActionView::NewUnit(unit) => seq![unit],
            _ => Seq::empty(),
        },
{
    let none: Seq<ActionView<H, D, S>> = Seq::empty();
    assert(seq![action].drop_last() =~= none);
    assert(alerted(none) =~= Seq::empty());
    assert(starts(none) =~= Seq::empty());
    assert(resolved(none) =~= Seq::empty());
    assert(requested(none) =~= Seq::empty());
    assert(told(none) =~= Seq::empty());
    assert(resolved_parents(none) =~= Seq::empty());
    assert(requested_parents(none) =~= Seq::empty());
    assert(requested_newest(none) =~= Seq::empty());
    assert(resolved_newest(none) =~= Seq::empty());
    assert(new_units(none) =~= Seq::empty());
    assert(spread(none) =~= Seq::empty());
    if let ActionView::NewUnits(units) = action {
        let hashes = units.map_values(|unit: UnitView<H>| unit.hash);
        assert(told(none) + hashes =~= hashes);
    }
}

/// An alert, or a request for a unit that needs no repeating: what taking in units can lead to.
pub open spec fn says_taken_in<H: Hasher, D: Data, S: Signature>(
    action: ActionView<H, D, S>,
) -> bool {
    action is Alert || action matches ActionView::Resolved(Request::Coord(_))
}

/// A request for parents, or one that needs no repeating.
pub open spec fn says_parents<H: Hasher, D: Data, S: Signature>(
    action: ActionView<H, D, S>,
) -> bool {
    ||| action matches ActionView::Request(Request::Parents(_), _)
    ||| action matches ActionView::Resolved(Request::Parents(_))
}

/// A request for the newest unit, one that needs no repeating, or a notification of new units.
pub open spec fn says_apart_from_events<H: Hasher, D: Data, S: Signature>(
    action: ActionView<H, D, S>,
) -> bool {
    ||| action matches ActionView::Request(Request::NewestUnit(_), _)
    ||| action matches ActionView::Resolved(Request::NewestUnit(_))
    ||| action is NewUnits
}

/// Where no action is about parents, none are requested, and no request for parents is settled.
pub proof fn lemma_no_parents<H: Hasher, D: Data, S: Signature>(actions: Seq<ActionView<H, D, S>>)
    requires
        forall|i: int| 0 <= i < actions.len() ==> !says_parents(#[trigger] actions[i]),
    ensures
        requested_parents(actions) == Seq::<H::Hash>::empty(),
        resolved_parents(actions) == Seq::<H::Hash>::empty(),
    decreases actions.len(),
{
    if actions.len() > 0 {
        let earlier = actions.drop_last();
        assert forall|i: int| 0 <= i < earlier.len() implies !says_parents(
            #[trigger] earlier[i],
        ) by {
            assert(earlier[i] == actions[i]);
        }
        lemma_no_parents(earlier);
        assert(!says_parents(actions[actions.len() - 1]));
    }
}

/// Where no action is one that events do not lead to, the lists of these are empty.
pub proof fn lemma_none_apart<H: Hasher, D: Data, S: Signature>(actions: Seq<ActionView<H, D, S>>)
    requires
        forall|i: int| 0 <= i < actions.len() ==> !says_apart_from_events(#[trigger] actions[i]),
    ensures
        requested_newest(actions) == Seq::<(u64, Recipient)>::empty(),
        resolved_newest(actions) == Seq::<u64>::empty(),
        new_units(actions) == Seq::<Seq<UnitView<H>>>::empty(),
    decreases actions.len(),
{
    if actions.len() > 0 {
        let earlier = actions.drop_last();
        assert forall|i: int| 0 <= i < earlier.len() implies !says_apart_from_events(
            #[trigger] earlier[i],
        ) by {
            assert(earlier[i] == actions[i]);
        }
        lemma_none_apart(earlier);
        assert(!says_apart_from_events(actions[actions.len() - 1]));
    }
}

/// Where no action sends a unit to everyone, none is sent.
pub proof fn lemma_no_spread<H: Hasher, D: Data, S: Signature>(actions: Seq<ActionView<H, D, S>>)
    requires
        forall|i: int| 0 <= i < actions.len() ==> !(#[trigger] actions[i] is NewUnit),
    ensures
        spread(actions) == Seq::<SignedUnit<H, D, S>>::empty(),
    decreases actions.len(),
{
    if actions.len() > 0 {
        let earlier = actions.drop_last();
        assert forall|i: int| 0 <= i < earlier.len() implies !(#[trigger] earlier[i] is NewUnit) by {
            assert(earlier[i] == actions[i]);
        }
        lemma_no_spread(earlier);
        assert(!(actions[actions.len() - 1] is NewUnit));
    }
}

/// Taking units in, a node alerts of forkers and settles requests for units, and no more.
pub proof fn lemma_take_in_all_says<H: Hasher, D: Data, MK: MultiKeychain<H>>(
    before: RunwayModel<H, D, MK>,
    units: Seq<SignedUnit<H, D, MK::Signature>>,
)
    ensures
        forall|i: int|
            0 <= i < before.take_in_all(units).1.len() ==> says_taken_in(
                #[trigger] before.take_in_all(units).1[i],
            ),
        before.take_in_all(units).0.missing_parents == before.missing_parents,
        before.take_in_all(units).0.newest_unit_responders == before.newest_unit_responders,
        before.take_in_all(units).0.after_catch_up_delay == before.after_catch_up_delay,
    decreases units.len(),
{
    if units.len() > 0 {
        let first = before.take_in_all(units.drop_last());
        let step = before.take_in_all(units);
        lemma_take_in_all_says(before, units.drop_last());
        assert forall|i: int| 0 <= i < step.1.len() implies says_taken_in(#[trigger] step.1[i]) by {
            if i < first.1.len() {
                assert(step.1[i] == first.1[i]);
            }
        }
    }
}

proof fn lemma_alerted_units_says<H: Hasher, D: Data, MK: MultiKeychain<H>>(
    before: RunwayModel<H, D, MK>,
    units: Seq<SignedUnit<H, D, MK::Signature>>,
)
    ensures
        forall|i: int|
            0 <= i < before.on_alerted_units(units).1.len() ==> says_taken_in(
                #[trigger] before.on_alerted_units(units).1[i],
            ),
        before.on_alerted_units(units).0.missing_parents == before.missing_parents,
        before.on_alerted_units(units).0.newest_unit_responders == before.newest_unit_responders,
        before.on_alerted_units(units).0.after_catch_up_delay == before.after_catch_up_delay,
    decreases units.len(),
{
    if units.len() > 0 {
        let first = before.on_alerted_units(units.drop_last());
        let step = before.on_alerted_units(units);
        lemma_alerted_units_says(before, units.drop_last());
        assert forall|i: int| 0 <= i < step.1.len() implies says_taken_in(#[trigger] step.1[i]) by {
            if i < first.1.len() {
                assert(step.1[i] == first.1[i]);
            }
        }
    }
}

proof fn lemma_missing_coords_says<H: Hasher, D: Data, MK: MultiKeychain<H>>(
    before: RunwayModel<H, D, MK>,
    coords: Seq<UnitCoord>,
)
    ensures
        forall|i: int|
            0 <= i < before.on_missing_coords(coords).1.len() ==> (
            #[trigger] before.on_missing_coords(coords).1[i] matches ActionView::Request(
                Request::Coord(_),
                _,
            )),
        before.on_missing_coords(coords).0.missing_parents == before.missing_parents,
        before.on_missing_coords(coords).0.newest_unit_responders == before.newest_unit_responders,
        before.on_missing_coords(coords).0.after_catch_up_delay == before.after_catch_up_delay,
    decreases coords.len(),
{
    if coords.len() > 0 {
        let first = before.on_missing_coords(coords.drop_last());
        let step = before.on_missing_coords(coords);
        lemma_missing_coords_says(before, coords.drop_last());
        assert forall|i: int| 0 <= i < step.1.len() implies (
        #[trigger] step.1[i] matches ActionView::Request(Request::Coord(_), _)) by {
            if i < first.1.len() {
                assert(step.1[i] == first.1[i]);
            }
        }
    }
}

proof fn lemma_newest_response_says<H: Hasher, D: Data, MK: MultiKeychain<H>>(
    before: RunwayModel<H, D, MK>,
    response: Signed<NewestUnitResponse<H, D, MK::Signature>, MK::Signature>,
)
    ensures
        forall|i: int|
            0 <= i < before.on_newest_response(response).1.len() ==> {
                ||| says_taken_in(#[trigger] before.on_newest_response(response).1[i])
                ||| before.on_newest_response(response).1[i] is StartingRound
            },
        before.on_newest_response(response).0.missing_parents == before.missing_parents,
{
    let (counted, first) = before.count_newest(response);
    let step = before.on_newest_response(response);
    assert forall|i: int| 0 <= i < step.1.len() implies says_taken_in(#[trigger] step.1[i])
        || step.1[i] is StartingRound by {
        if i < first.len() {
            assert(step.1[i] == first[i]);
        } else {
            assert(step.1[i] == counted.try_starting_round().1[i - first.len()]);
        }
    }
}

/// No event leads to a request for the newest unit, to the end of one, or to a notification of new
/// units. Only an event that says that parents are missing, or that a unit was added to the DAG,
/// leads to a request for parents or to the end of one. Only the latter sends a unit to everyone.
pub proof fn law_event_says<H: Hasher, D: Data, MK: MultiKeychain<H>>(
    before: RunwayModel<H, D, MK>,
    event: Event<H, D, MK::Signature>,
    step: Step<H, D, MK>,
)
    requires
        before.handles(event, Some(step)),
    ensures
        forall|i: int| 0 <= i < step.1.len() ==> !says_apart_from_events(#[trigger] step.1[i]),
        match event {
            Event::Consensus(Some(NotificationOut::WrongControlHash(_))) => true,
            Event::Consensus(Some(NotificationOut::AddedToDag(_, _))) => true,
            _ => {
                &&& step.0.missing_parents == before.missing_parents
                &&& forall|i: int| 0 <= i < step.1.len() ==> !says_parents(#[trigger] step.1[i])
            },
        },
        !(event matches Event::Consensus(Some(NotificationOut::AddedToDag(_, _))))
            ==> forall|i: int| 0 <= i < step.1.len() ==> !(#[trigger] step.1[i] is NewUnit),
{
    match event {
        Event::Consensus(Some(NotificationOut::MissingUnits(coords))) => {
            lemma_missing_coords_says(before, coords@);
        },
        Event::Alerter(Some(ForkingNotification::Units(units))) => {
            lemma_alerted_units_says(before, units@);
        },
        Event::Network(Some(RunwayNotificationIn::Response(response))) => match response {
            Response::Parents(hash, parents) => {
                let unit = before.store.units[hash].signable();
                let creators = set_indices(unit.spec_mask());
                let good = before.n_good_parents(unit.spec_round(), creators, parents@);
                lemma_take_in_all_says(before, parents@.take(good as int));
                let taken = before.take_in_all(parents@.take(good as int));
                assert forall|i: int| 0 <= i < step.1.len() implies says_taken_in(
                    #[trigger] step.1[i],
                ) || step.1[i] is UnitParents by {
                    if i < taken.1.len() {
                        assert(step.1[i] == taken.1[i]);
                    }
                }
            },
            Response::NewestUnit(newest) => {
                lemma_newest_response_says(before, newest);
            },
            Response::Coord(_) => {},
        },
        _ => {},
    }
}

/// Only an answer to the request for the newest unit that counts adds to those who have answered,
/// and it adds the node that sent it. Only the end of the time for answers ends it.
pub proof fn law_event_counts<H: Hasher, D: Data, MK: MultiKeychain<H>>(
    before: RunwayModel<H, D, MK>,
    event: Event<H, D, MK::Signature>,
    step: Step<H, D, MK>,
)
    requires
        before.handles(event, Some(step)),
    ensures
        step.0.newest_unit_responders == match event {
            Event::Network(
                Some(RunwayNotificationIn::Response(Response::NewestUnit(response))),
            ) if before.newest_counts(response) => before.newest_unit_responders.insert(
                response.signable().responder.0,
            ),
            _ => before.newest_unit_responders,
        },
        step.0.after_catch_up_delay == (before.after_catch_up_delay || event is CatchUpDelay),
{
    match event {
        Event::Consensus(Some(NotificationOut::MissingUnits(coords))) => {
            lemma_missing_coords_says(before, coords@);
        },
        Event::Alerter(Some(ForkingNotification::Units(units))) => {
            lemma_alerted_units_says(before, units@);
        },
        Event::Network(
            Some(RunwayNotificationIn::Response(Response::Parents(hash, parents))),
        ) => {
            let unit = before.store.units[hash].signable();
            let creators = set_indices(unit.spec_mask());
            let good = before.n_good_parents(unit.spec_round(), creators, parents@);
            lemma_take_in_all_says(before, parents@.take(good as int));
        },
        _ => {},
    }
}

} // verus!
