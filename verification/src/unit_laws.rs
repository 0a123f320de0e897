//! Laws on which units a node keeps, and on what it says of them.

use crate::actions::{
    law_event_says, lemma_append, lemma_no_spread, lemma_one, lemma_take_in_all_says, spread,
};
use crate::life::{is_life, state_after, transition, Cause, Moment};
use crate::messages::{
    ActionView, Event, ForkingNotification, NotificationOut, Response, RunwayNotificationIn,
    UnitMessage,
};
use crate::model::{
    hashes_of, lemma_placed_present, placed, quorum, RunwayModel, Step,
};
use crate::nodes::{law_count_set, lemma_set_indices, present, set_indices, NodeCount, NodeIndex};
use crate::request_laws::law_missing_units_requested;
use crate::runway::{Runway, RunwayConfig};
use crate::step_laws::{law_every_event, law_whole_life};
use crate::store::{
    lemma_add_unit_consistent, lemma_newest_below, units_below, StoreModel,
};
use crate::traits::{Data, Hasher, MultiKeychain, Signature};
use crate::units::{NewestUnitResponse, Round, Signed, SignedUnit, UnitCoord};
use vstd::prelude::*;
use vstd::std_specs::convert::TryFromSpec;

verus! {

/// A quorum is the smallest number that is more than two thirds of the committee, and a committee that
/// has members has a quorum of them.
pub proof fn law_quorum(n_members: nat)
    ensures
        3 * quorum(n_members) > 2 * n_members,
        3 * (quorum(n_members) - 1) <= 2 * n_members,
        n_members > 0 ==> quorum(n_members) <= n_members,
{
}

/// The members of a committee.
pub open spec fn members(n_members: NodeCount) -> Set<NodeIndex> {
    Set::new(|ix: NodeIndex| ix.0 < n_members.0)
}

proof fn lemma_members(n_members: NodeCount)
    ensures
        members(n_members).finite(),
        members(n_members).len() == n_members.0,
    decreases n_members.0,
{
    if n_members.0 == 0 {
        assert(members(n_members) =~= Set::empty());
    } else {
        let fewer = NodeCount((n_members.0 - 1) as usize);
        lemma_members(fewer);
        assert(members(n_members) =~= members(fewer).insert(NodeIndex(fewer.0)));
    }
}

/// Two quorums of members have more than a third of the committee in common.
pub proof fn law_quorums_meet(n_members: NodeCount, a: Set<NodeIndex>, b: Set<NodeIndex>)
    requires
        a.subset_of(members(n_members)),
        b.subset_of(members(n_members)),
        a.len() >= quorum(n_members.0 as nat),
        b.len() >= quorum(n_members.0 as nat),
    ensures
        3 * a.intersect(b).len() > n_members.0,
{
    lemma_members(n_members);
    vstd::set_lib::lemma_len_subset(a, members(n_members));
    vstd::set_lib::lemma_len_subset(b, members(n_members));
    vstd::set_lib::lemma_len_subset(a + b, members(n_members));
    vstd::set_lib::lemma_set_intersect_union_lens(a, b);
}

/// A valid unit of a round after the first has parents by more than two thirds of the committee, one
/// of them by its creator; a valid unit of the first round has none.
pub proof fn law_valid_unit_parents<H: Hasher, D: Data, MK: MultiKeychain<H>>(
    model: RunwayModel<H, D, MK>,
    unit: SignedUnit<H, D, MK::Signature>,
)
    requires
        model.threshold.0 == quorum(model.n_members.0 as nat),
        model.valid_unit(unit),
    ensures
        ({
            let creators = set_indices(unit.signable().spec_mask());
            &&& unit.round() == 0 ==> creators.len() == 0
            &&& unit.round() > 0 ==> 3 * creators.len() > 2 * model.n_members.0 && creators.contains(
                unit.creator(),
            )
            &&& forall|k: int|
                0 <= k < creators.len() ==> (#[trigger] creators[k]).0 < model.n_members.0
        }),
{
    let mask = unit.signable().spec_mask();
    lemma_set_indices(mask);
    if unit.round() > 0 {
        assert(mask[unit.creator().0 as int]);
        let k = choose|k: int|
            0 <= k < set_indices(mask).len() && #[trigger] set_indices(mask)[k] == NodeIndex(
                unit.creator().0 as usize,
            );
        assert(set_indices(mask)[k] == unit.creator());
    }
}

/// A unit is valid exactly where its creator, who is a member, signed its hash, it is of this session
/// and of a round that is allowed, its mask is as long as the committee, and it is of round 0 and no
/// entry of the mask is set, or of a later round and more than two thirds of the entries are set, its
/// creator's among them.
pub proof fn law_valid_unit<H: Hasher, D: Data, MK: MultiKeychain<H>>(
    model: RunwayModel<H, D, MK>,
    unit: SignedUnit<H, D, MK::Signature>,
)
    requires
        3 * model.threshold.0 > 2 * model.n_members.0,
        3 * (model.threshold.0 - 1) <= 2 * model.n_members.0,
    ensures
        ({
            let pre_unit = unit.signable().spec_pre_unit();
            let mask = pre_unit.control_hash.parents_mask@;
            let creator = pre_unit.coord.creator;
            let n_set = Set::new(|i: int| 0 <= i < mask.len() && mask[i]).len();
            model.valid_unit(unit) <==> {
                &&& model.keychain.accepts(
                    unit.signable().spec_hash(),
                    unit.spec_signature(),
                    creator,
                )
                &&& unit.signable().spec_session_id() == model.session_id
                &&& pre_unit.coord.round <= model.store.max_round
                &&& creator.0 < model.n_members.0
                &&& mask.len() == model.n_members.0
                &&& if pre_unit.coord.round == 0 {
                    forall|i: int| 0 <= i < mask.len() ==> !#[trigger] mask[i]
                } else {
                    &&& 3 * n_set > 2 * model.n_members.0
                    &&& mask[creator.0 as int]
                }
            }
        }),
{
    let mask = unit.signable().spec_pre_unit().control_hash.parents_mask@;
    law_count_set(mask);
    let set = Set::new(|i: int| 0 <= i < mask.len() && mask[i]);
    if set.len() == 0 {
        assert forall|i: int| 0 <= i < mask.len() implies !#[trigger] mask[i] by {
            if mask[i] {
                assert(set.contains(i));
                assert(set.remove(i).len() == set.len() - 1);
            }
        }
    } else {
        let i = set.choose();
        assert(set.contains(i)) by {
            if set =~= Set::empty() {
                assert(set.len() == 0);
            }
        }
        assert(mask[i]);
    }
}

/// A unit that is not valid changes nothing and is answered by nothing.
pub proof fn law_invalid_unit_ignored<H: Hasher, D: Data, MK: MultiKeychain<H>>(
    before: RunwayModel<H, D, MK>,
    unit: SignedUnit<H, D, MK::Signature>,
    alert: bool,
)
    requires
        !before.valid_unit(unit),
    ensures
        before.on_unit_received(unit, alert) == (
            before,
            Seq::<ActionView<H, D, MK::Signature>>::empty(),
        ),
{
}

/// A new valid unit of a node that is not a forker, at a place that is free, is kept: requests for its
/// place and for its hash find it, and the ordering part will be told of it.
pub proof fn law_received_unit_kept<H: Hasher, D: Data, MK: MultiKeychain<H>>(
    before: RunwayModel<H, D, MK>,
    unit: SignedUnit<H, D, MK::Signature>,
    node_id: NodeIndex,
)
    requires
        before.valid_unit(unit),
        !before.store.forkers.contains(unit.creator()),
        !before.store.coords.contains_key(unit.coord()),
        !before.store.units.contains_key(unit.hash()),
    ensures
        ({
            let after = before.on_unit_received(unit, false).0;
            &&& after.on_request_coord(node_id, unit.coord()) == seq![
                ActionView::CoordResponse(unit, node_id),
            ]
            &&& after.store.unit_by_hash(unit.hash()) == Some(unit)
            &&& after.store.buffer == before.store.buffer.push(unit)
        }),
{
}

/// A valid unit from an alert is kept, whoever created it: requests for it find it if it is new, and
/// the ordering part will be told of it.
pub proof fn law_alerted_unit_kept<H: Hasher, D: Data, MK: MultiKeychain<H>>(
    before: RunwayModel<H, D, MK>,
    unit: SignedUnit<H, D, MK::Signature>,
    node_id: NodeIndex,
)
    requires
        before.valid_unit(unit),
        !before.store.units.contains_key(unit.hash()),
    ensures
        ({
            let after = before.on_unit_received(unit, true).0;
            &&& after.on_request_coord(node_id, unit.coord()) == seq![
                ActionView::CoordResponse(unit, node_id),
            ]
            &&& after.store.unit_by_hash(unit.hash()) == Some(unit)
            &&& after.store.buffer == before.store.buffer.push(unit)
        }),
{
}

/// A unit that is kept already is not kept once more: whether it comes with an alert or not, the
/// store stays as it is.
pub proof fn law_kept_unit_not_added<H: Hasher, D: Data, MK: MultiKeychain<H>>(
    before: RunwayModel<H, D, MK>,
    unit: SignedUnit<H, D, MK::Signature>,
    alert: bool,
)
    requires
        before.store.units.contains_key(unit.hash()),
    ensures
        before.on_unit_received(unit, alert).0.store == before.store,
{
}

/// A unit of a known forker that comes without an alert does not change the store, and no alert goes
/// out.
pub proof fn law_forkers_unit_ignored<H: Hasher, D: Data, MK: MultiKeychain<H>>(
    before: RunwayModel<H, D, MK>,
    unit: SignedUnit<H, D, MK::Signature>,
)
    requires
        before.store.forkers.contains(unit.creator()),
    ensures
        before.on_unit_received(unit, false).0.store == before.store,
        forall|i: int|
            0 <= i < before.on_unit_received(unit, false).1.len() ==> !((
            #[trigger] before.on_unit_received(unit, false).1[i]) is Alert),
{
}

/// A valid unit that is new at a taken place shows that its creator forked. The unit is not kept; its
/// creator is marked, and one alert goes out, with a proof that consists of two different units that
/// the creator put in one place.
pub proof fn law_fork_alerted<H: Hasher, D: Data, MK: MultiKeychain<H>>(
    before: RunwayModel<H, D, MK>,
    unit: SignedUnit<H, D, MK::Signature>,
)
    requires
        before.store.consistent(),
        before.valid_unit(unit),
        !before.store.forkers.contains(unit.creator()),
        !before.store.units.contains_key(unit.hash()),
        before.store.coords.contains_key(unit.coord()),
    ensures
        ({
            let step = before.on_unit_received(unit, false);
            let other = before.store.coords[unit.coord()];
            &&& step.0.store == before.store.mark_forker(unit.creator())
            &&& !step.0.store.units.contains_key(unit.hash())
            &&& step.1.last() == ActionView::<H, D, MK::Signature>::Alert(
                before.node_ix,
                (unit, other),
                before.store.units_of(unit.creator()),
            )
            &&& other.coord() == unit.coord()
            &&& other.hash() != unit.hash()
            &&& before.store.holds(other)
        }),
{
}

/// The units that an alert vouches for are the kept ones of the forker, in the order of their rounds.
pub proof fn law_alert_units<H: Hasher, D: Data, S>(
    store: StoreModel<H, D, S>,
    forker: NodeIndex,
)
    requires
        store.consistent(),
    ensures
        forall|i: int|
            0 <= i < store.units_of(forker).len() ==> {
                let unit = #[trigger] store.units_of(forker)[i];
                &&& store.holds(unit)
                &&& unit.creator() == forker
                &&& unit.round() <= store.max_round
            },
        forall|i: int, j: int|
            0 <= i < j < store.units_of(forker).len() ==> (
            #[trigger] store.units_of(forker)[i]).round() < (
            #[trigger] store.units_of(forker)[j]).round(),
        forall|c: UnitCoord| #[trigger]
            store.coords.contains_key(c) && c.creator == forker && c.round <= store.max_round
                ==> store.units_of(forker).contains(store.coords[c]),
{
    lemma_units_below(store, forker, (store.max_round + 1) as nat);
}

proof fn lemma_units_below<H: Hasher, D: Data, S>(
    store: StoreModel<H, D, S>,
    creator: NodeIndex,
    bound: nat,
)
    requires
        store.consistent(),
        bound <= Round::MAX + 1,
    ensures
        forall|i: int|
            0 <= i < units_below(store.coords, creator, bound).len() ==> {
                let unit = #[trigger] units_below(store.coords, creator, bound)[i];
                &&& store.holds(unit)
                &&& unit.creator() == creator
                &&& unit.round() < bound
            },
        forall|i: int, j: int|
            0 <= i < j < units_below(store.coords, creator, bound).len() ==> (
            #[trigger] units_below(store.coords, creator, bound)[i]).round() < (
            #[trigger] units_below(store.coords, creator, bound)[j]).round(),
        forall|c: UnitCoord| #[trigger]
            store.coords.contains_key(c) && c.creator == creator && c.round < bound
                ==> units_below(store.coords, creator, bound).contains(store.coords[c]),
    decreases bound,
{
    if bound > 0 {
        let fewer = units_below(store.coords, creator, (bound - 1) as nat);
        let more = units_below(store.coords, creator, bound);
        lemma_units_below(store, creator, (bound - 1) as nat);
        let coord = UnitCoord { round: (bound - 1) as Round, creator };
        assert forall|c: UnitCoord| #[trigger]
            store.coords.contains_key(c) && c.creator == creator && c.round
                < bound implies more.contains(store.coords[c]) by {
            if c == coord {
                assert(more[fewer.len() as int] == store.coords[c]);
            } else {
                assert(fewer.contains(store.coords[c]));
                let i = fewer.index_of(store.coords[c]);
                assert(more[i] == store.coords[c]);
            }
        }
    }
}

/// Of the nodes that are not known as forkers, one unit is kept at a place.
pub open spec fn unforked<H: Hasher, D: Data, S>(store: StoreModel<H, D, S>) -> bool {
    forall|h: H::Hash| #[trigger]
        store.units.contains_key(h) && !store.forkers.contains(store.units[h].creator())
            ==> store.coords[store.units[h].coord()] == store.units[h]
}

/// A store that holds nothing is in order and keeps no fork.
pub proof fn law_empty_store<H: Hasher, D: Data, S>(max_round: Round)
    ensures
        StoreModel::<H, D, S>::empty(max_round).consistent(),
        unforked(StoreModel::<H, D, S>::empty(max_round)),
{
}

/// The units that an event brings from alerts, if they are valid, are of known forkers.
pub open spec fn alerts_forkers<H: Hasher, D: Data, MK: MultiKeychain<H>>(
    model: RunwayModel<H, D, MK>,
    event: Event<H, D, MK::Signature>,
) -> bool {
    event matches Event::Alerter(Some(ForkingNotification::Units(units))) ==> forall|i: int|
        0 <= i < units@.len() && model.valid_unit(#[trigger] units@[i])
            ==> model.store.forkers.contains(units@[i].creator())
}

proof fn lemma_unforked_add<H: Hasher, D: Data, S>(
    store: StoreModel<H, D, S>,
    unit: SignedUnit<H, D, S>,
    alert: bool,
)
    requires
        store.consistent(),
        unforked(store),
        store.forkers.contains(unit.creator()) || store.new_fork(unit.signable()) is None,
    ensures
        unforked(store.add_unit(unit, alert)),
{
    let after = store.add_unit(unit, alert);
    assert forall|h: H::Hash| #[trigger]
        after.units.contains_key(h) && !after.forkers.contains(
            after.units[h].creator(),
        ) implies after.coords[after.units[h].coord()] == after.units[h] by {
        if store.units.contains_key(h) {
            assert(store.coords.contains_key(store.units[h].coord()));
        }
    }
}

proof fn lemma_unforked_take_in<H: Hasher, D: Data, MK: MultiKeychain<H>>(
    before: RunwayModel<H, D, MK>,
    unit: SignedUnit<H, D, MK::Signature>,
)
    requires
        before.store.consistent(),
        unforked(before.store),
    ensures
        before.take_in(unit).0.store.consistent(),
        unforked(before.take_in(unit).0.store),
{
    let after = before.take_in(unit).0;
    if !before.store.forkers.contains(unit.creator()) && before.store.new_fork(
        unit.signable(),
    ) is None {
        lemma_unforked_add(before.store, unit, false);
        lemma_add_unit_consistent(before.store, unit, false);
    }
}

proof fn lemma_unforked_take_in_all<H: Hasher, D: Data, MK: MultiKeychain<H>>(
    before: RunwayModel<H, D, MK>,
    units: Seq<SignedUnit<H, D, MK::Signature>>,
)
    requires
        before.store.consistent(),
        unforked(before.store),
    ensures
        before.take_in_all(units).0.store.consistent(),
        unforked(before.take_in_all(units).0.store),
    decreases units.len(),
{
    if units.len() > 0 {
        let first = before.take_in_all(units.drop_last());
        lemma_unforked_take_in_all(before, units.drop_last());
        lemma_unforked_take_in(first.0, units.last());
    }
}

proof fn lemma_unforked_alerted<H: Hasher, D: Data, MK: MultiKeychain<H>>(
    before: RunwayModel<H, D, MK>,
    units: Seq<SignedUnit<H, D, MK::Signature>>,
)
    requires
        before.store.consistent(),
        unforked(before.store),
        forall|i: int|
            0 <= i < units.len() && before.valid_unit(#[trigger] units[i])
                ==> before.store.forkers.contains(units[i].creator()),
    ensures
        before.on_alerted_units(units).0.store.consistent(),
        unforked(before.on_alerted_units(units).0.store),
        before.on_alerted_units(units).0.store.forkers == before.store.forkers,
        before.on_alerted_units(units).0.same_config(before),
    decreases units.len(),
{
    if units.len() > 0 {
        let fewer = units.drop_last();
        let first = before.on_alerted_units(fewer);
        assert forall|i: int|
            0 <= i < fewer.len() && before.valid_unit(
                #[trigger] fewer[i],
            ) implies before.store.forkers.contains(fewer[i].creator()) by {
            assert(fewer[i] == units[i]);
        }
        lemma_unforked_alerted(before, fewer);
        let unit = units.last();
        assert(units[units.len() - 1] == unit);
        if first.0.valid_unit(unit) {
            assert(before.valid_unit(unit));
            lemma_unforked_add(first.0.store, unit, true);
            lemma_add_unit_consistent(first.0.store, unit, true);
        }
    }
}

/// Whatever the event, if of each node that is not known as a forker one unit is kept at a place,
/// that stays so, as long as the units that come from alerts are of known forkers.
pub proof fn law_no_fork_kept<H: Hasher, D: Data, MK: MultiKeychain<H>>(
    before: RunwayModel<H, D, MK>,
    event: Event<H, D, MK::Signature>,
    step: Step<H, D, MK>,
)
    requires
        before.store.consistent(),
        unforked(before.store),
        before.handles(event, Some(step)),
        alerts_forkers(before, event),
    ensures
        unforked(step.0.store),
{
    match event {
        Event::Consensus(Some(NotificationOut::MissingUnits(coords))) => {
            law_missing_units_requested(before, coords@);
        },
        Event::Alerter(Some(ForkingNotification::Units(units))) => {
            lemma_unforked_alerted(before, units@);
        },
        Event::Network(Some(message)) => match message {
            RunwayNotificationIn::NewUnit(unit) => {
                lemma_unforked_take_in(before, unit);
            },
            RunwayNotificationIn::Response(Response::Coord(unit)) => {
                lemma_unforked_take_in(before, unit);
            },
            RunwayNotificationIn::Response(Response::Parents(hash, parents)) => {
                let unit = before.store.units[hash].signable();
                let creators = set_indices(unit.spec_mask());
                let good = before.n_good_parents(unit.spec_round(), creators, parents@);
                lemma_unforked_take_in_all(before, parents@.take(good as int));
            },
            RunwayNotificationIn::Response(Response::NewestUnit(response)) => {
                if let Some(unit) = before.forgotten_unit(response) {
                    lemma_unforked_take_in(before, unit);
                }
            },
            _ => {},
        },
        _ => {},
    }
}

/// Whether what a step comes from brings no second unit of a node that is not known as a forker to a
/// place without the node being found out: the units from alerts are of known forkers, and a created
/// unit is too, or finds its place free.
pub open spec fn brings_no_fork<H: Hasher, D: Data, MK: MultiKeychain<H>>(
    model: RunwayModel<H, D, MK>,
    cause: Cause<H, D, MK::Signature>,
) -> bool {
    match cause {
        Cause::Handled(event) => alerts_forkers(model, event),
        Cause::Created(unit) => {
            ||| model.store.forkers.contains(unit.creator())
            ||| model.store.new_fork(unit.signable()) is None
        },
        _ => true,
    }
}

/// Over the whole life of a new node, of each node that is not known as a forker one unit is kept at
/// a place, as long as the units that come from alerts are of known forkers, and those that this node
/// creates are too, or find their places free.
pub proof fn law_no_fork_ever_kept<'a, H: Hasher, D: Data, MK: MultiKeychain<H>>(
    config: RunwayConfig<'a, MK>,
    life: Seq<Moment<H, D, MK>>,
)
    requires
        is_life(Runway::<'a, H, D, MK>::initial(config), life),
        forall|k: int|
            0 <= k < life.len() ==> brings_no_fork(
                state_after(Runway::<'a, H, D, MK>::initial(config), life.take(k)),
                (#[trigger] life[k]).0,
            ),
    ensures
        unforked(state_after(Runway::<'a, H, D, MK>::initial(config), life).store),
{
    law_empty_store::<H, D, MK::Signature>(config.max_round);
    lemma_unforked_life(Runway::<'a, H, D, MK>::initial(config), life);
}

proof fn lemma_unforked_life<H: Hasher, D: Data, MK: MultiKeychain<H>>(
    start: RunwayModel<H, D, MK>,
    life: Seq<Moment<H, D, MK>>,
)
    requires
        start.store.consistent(),
        unforked(start.store),
        is_life(start, life),
        forall|k: int|
            0 <= k < life.len() ==> brings_no_fork(
                state_after(start, life.take(k)),
                (#[trigger] life[k]).0,
            ),
    ensures
        unforked(state_after(start, life).store),
    decreases life.len(),
{
    if life.len() > 0 {
        let earlier = life.drop_last();
        let before = state_after(start, earlier);
        assert forall|k: int| 0 <= k < earlier.len() implies brings_no_fork(
            state_after(start, earlier.take(k)),
            (#[trigger] earlier[k]).0,
        ) by {
            assert(earlier.take(k) =~= life.take(k));
            assert(earlier[k] == life[k]);
        }
        lemma_unforked_life(start, earlier);
        law_whole_life(start, earlier);
        assert(earlier =~= life.take(life.len() - 1));
        assert(life[life.len() - 1] == life.last());
        match life.last().0 {
            Cause::Handled(event) => {
                law_no_fork_kept(before, event, life.last().1);
            },
            Cause::Created(unit) => {
                lemma_unforked_add(before.store, unit, false);
            },
            _ => {},
        }
    }
}

/// The units that are kept in one store and not in another are valid.
pub open spec fn adds_valid<H: Hasher, D: Data, MK: MultiKeychain<H>>(
    before: RunwayModel<H, D, MK>,
    after: RunwayModel<H, D, MK>,
) -> bool {
    forall|h: H::Hash| #[trigger]
        after.store.units.contains_key(h) && !before.store.units.contains_key(h)
            ==> before.valid_unit(after.store.units[h])
}

proof fn lemma_valid_take_in_all<H: Hasher, D: Data, MK: MultiKeychain<H>>(
    before: RunwayModel<H, D, MK>,
    units: Seq<SignedUnit<H, D, MK::Signature>>,
)
    requires
        forall|i: int| 0 <= i < units.len() ==> before.valid_unit(#[trigger] units[i]),
    ensures
        adds_valid(before, before.take_in_all(units).0),
    decreases units.len(),
{
    if units.len() > 0 {
        let fewer = units.drop_last();
        let first = before.take_in_all(fewer);
        assert forall|i: int| 0 <= i < fewer.len() implies before.valid_unit(
            #[trigger] fewer[i],
        ) by {
            assert(fewer[i] == units[i]);
        }
        lemma_valid_take_in_all(before, fewer);
        assert(units[units.len() - 1] == units.last());
        let after = first.0.take_in(units.last()).0;
        assert forall|h: H::Hash| #[trigger]
            after.store.units.contains_key(h) && !before.store.units.contains_key(
                h,
            ) implies before.valid_unit(after.store.units[h]) by {
            if first.0.store.units.contains_key(h) {
                assert(after.store.units[h] == first.0.store.units[h]);
            }
        }
    }
}

proof fn lemma_valid_alerted<H: Hasher, D: Data, MK: MultiKeychain<H>>(
    before: RunwayModel<H, D, MK>,
    units: Seq<SignedUnit<H, D, MK::Signature>>,
)
    ensures
        adds_valid(before, before.on_alerted_units(units).0),
        before.on_alerted_units(units).0.same_config(before),
    decreases units.len(),
{
    if units.len() > 0 {
        let first = before.on_alerted_units(units.drop_last());
        lemma_valid_alerted(before, units.drop_last());
        let after = first.0.on_unit_received(units.last(), true).0;
        assert forall|h: H::Hash| #[trigger]
            after.store.units.contains_key(h) && !before.store.units.contains_key(
                h,
            ) implies before.valid_unit(after.store.units[h]) by {
            if first.0.store.units.contains_key(h) {
                assert(after.store.units[h] == first.0.store.units[h]);
            }
        }
    }
}

proof fn lemma_good_parents<H: Hasher, D: Data, MK: MultiKeychain<H>>(
    model: RunwayModel<H, D, MK>,
    round: Round,
    creators: Seq<NodeIndex>,
    parents: Seq<SignedUnit<H, D, MK::Signature>>,
)
    ensures
        model.n_good_parents(round, creators, parents) <= parents.len(),
        forall|i: int|
            0 <= i < model.n_good_parents(round, creators, parents) ==> model.good_parent(
                round,
                creators[i],
                #[trigger] parents[i],
            ),
    decreases parents.len(),
{
    if parents.len() > 0 {
        let fewer = parents.drop_last();
        lemma_good_parents(model, round, creators, fewer);
        assert forall|i: int|
            0 <= i < model.n_good_parents(round, creators, parents) implies model.good_parent(
            round,
            creators[i],
            #[trigger] parents[i],
        ) by {
            if i < model.n_good_parents(round, creators, fewer) {
                assert(fewer[i] == parents[i]);
            }
        }
    }
}

/// Whatever the event, a unit becomes kept only if it is valid.
pub proof fn law_only_valid_units_kept<H: Hasher, D: Data, MK: MultiKeychain<H>>(
    before: RunwayModel<H, D, MK>,
    event: Event<H, D, MK::Signature>,
    step: Step<H, D, MK>,
)
    requires
        before.handles(event, Some(step)),
    ensures
        adds_valid(before, step.0),
{
    match event {
        Event::Consensus(Some(NotificationOut::MissingUnits(coords))) => {
            law_missing_units_requested(before, coords@);
        },
        Event::Alerter(Some(ForkingNotification::Units(units))) => {
            lemma_valid_alerted(before, units@);
        },
        Event::Network(
            Some(RunwayNotificationIn::Response(Response::Parents(hash, parents))),
        ) => {
            let unit = before.store.units[hash].signable();
            let creators = set_indices(unit.spec_mask());
            let good = before.n_good_parents(unit.spec_round(), creators, parents@);
            lemma_good_parents(before, unit.spec_round(), creators, parents@);
            let taken = parents@.take(good as int);
            assert forall|i: int| 0 <= i < taken.len() implies before.valid_unit(
                #[trigger] taken[i],
            ) by {
                assert(taken[i] == parents@[i]);
            }
            lemma_valid_take_in_all(before, taken);
        },
        _ => {},
    }
}

/// Whether a unit was created in some step.
pub open spec fn was_created<H: Hasher, D: Data, MK: MultiKeychain<H>>(
    life: Seq<Moment<H, D, MK>>,
    unit: SignedUnit<H, D, MK::Signature>,
) -> bool {
    exists|k: int| 0 <= k < life.len() && (#[trigger] life[k]).0 == Cause::Created(unit)
}

/// Over the whole life of a new node, each unit that is kept is valid or was created by the node
/// itself.
pub proof fn law_kept_units_valid_or_own<'a, H: Hasher, D: Data, MK: MultiKeychain<H>>(
    config: RunwayConfig<'a, MK>,
    life: Seq<Moment<H, D, MK>>,
    hash: H::Hash,
)
    requires
        is_life(Runway::<'a, H, D, MK>::initial(config), life),
        state_after(
            Runway::<'a, H, D, MK>::initial(config),
            life,
        ).store.units.contains_key(hash),
    ensures
        ({
            let start = Runway::<'a, H, D, MK>::initial(config);
            let unit = state_after(start, life).store.units[hash];
            start.valid_unit(unit) || was_created(life, unit)
        }),
    decreases life.len(),
{
    let start = Runway::<'a, H, D, MK>::initial(config);
    if life.len() > 0 {
        let earlier = life.drop_last();
        let before = state_after(start, earlier);
        let after = life.last().1.0;
        let unit = after.store.units[hash];
        law_whole_life(start, earlier);
        if let Cause::Handled(event) = life.last().0 {
            law_every_event(before, event, life.last().1);
            law_only_valid_units_kept(before, event, life.last().1);
        }
        if before.store.units.contains_key(hash) {
            law_kept_units_valid_or_own::<H, D, MK>(config, earlier, hash);
            assert(before.store.units[hash] == unit);
            if was_created(earlier, unit) {
                let k = choose|k: int|
                    0 <= k < earlier.len() && (#[trigger] earlier[k]).0 == Cause::<
                        H,
                        D,
                        MK::Signature,
                    >::Created(unit);
                assert(life[k] == earlier[k]);
            }
        } else {
            assert(life[life.len() - 1] == life.last());
        }
    }
}

/// Parents that the ordering part is told of after an answer fit the unit: they are one round before
/// it and by the creators that it names, their hashes give its control hash, and the hashes are told
/// in the order of the creators.
pub proof fn law_told_parents_fit<H: Hasher, D: Data, MK: MultiKeychain<H>>(
    before: RunwayModel<H, D, MK>,
    hash: H::Hash,
    parents: Seq<SignedUnit<H, D, MK::Signature>>,
    told: Seq<H::Hash>,
)
    requires
        before.store.units.contains_key(hash),
        before.on_parents_response(hash, parents).1.contains(ActionView::UnitParents(hash, told)),
    ensures
        ({
            let unit = before.store.units[hash].signable();
            let creators = set_indices(unit.spec_mask());
            let map = placed(before.n_members.0 as nat, creators, told);
            &&& told == hashes_of(parents)
            &&& parents.len() == creators.len()
            &&& forall|i: int|
                0 <= i < parents.len() ==> before.good_parent(
                    unit.spec_round(),
                    creators[i],
                    #[trigger] parents[i],
                )
            &&& H::combined_hash(map) == unit.spec_combined_hash()
            &&& present(map) == told
        }),
{
    let step = before.on_parents_response(hash, parents);
    let unit = before.store.units[hash].signable();
    let creators = set_indices(unit.spec_mask());
    let good = before.n_good_parents(unit.spec_round(), creators, parents);
    lemma_good_parents(before, unit.spec_round(), creators, parents);
    lemma_take_in_all_says(before, parents.take(good as int));
    unit.spec_pre_unit().control_hash.parents_mask.lemma_len();
    lemma_set_indices(unit.spec_mask());
    assert forall|k: int| 0 <= k < creators.len() && good == parents.len() implies (
    #[trigger] creators[k]).0 < before.n_members.0 by {
        assert(before.good_parent(unit.spec_round(), creators[k], parents[k]));
    }
    if good == parents.len() && parents.len() == creators.len() {
        lemma_placed_present(before.n_members.0 as nat, creators, hashes_of(parents));
    }
    let i = step.1.index_of(ActionView::UnitParents(hash, told));
    assert(step.1[i] == ActionView::<H, D, MK::Signature>::UnitParents(hash, told));
}

/// Parents that were told of are known from then on: the ordering part is told of them again where it
/// needs them, and a further answer about them changes nothing.
pub proof fn law_told_parents_known<H: Hasher, D: Data, MK: MultiKeychain<H>>(
    before: RunwayModel<H, D, MK>,
    hash: H::Hash,
    parents: Seq<SignedUnit<H, D, MK::Signature>>,
    told: Seq<H::Hash>,
    further: Seq<SignedUnit<H, D, MK::Signature>>,
)
    requires
        before.store.units.contains_key(hash),
        before.on_parents_response(hash, parents).1.contains(ActionView::UnitParents(hash, told)),
    ensures
        ({
            let after = before.on_parents_response(hash, parents).0;
            &&& after.store.get_parents(hash) == Some(told)
            &&& after.on_wrong_control_hash(hash) == (
                after,
                seq![ActionView::<H, D, MK::Signature>::UnitParents(hash, told)],
            )
            &&& after.on_parents_response(hash, further) == (
                after,
                Seq::<ActionView<H, D, MK::Signature>>::empty(),
            )
        }),
{
    law_told_parents_fit(before, hash, parents, told);
    let unit = before.store.units[hash].signable();
    let creators = set_indices(unit.spec_mask());
    let good = before.n_good_parents(unit.spec_round(), creators, parents);
    let step = before.on_parents_response(hash, parents);
    lemma_take_in_all_says(before, parents.take(good as int));
    let i = step.1.index_of(ActionView::UnitParents(hash, told));
    assert(step.1[i] == ActionView::<H, D, MK::Signature>::UnitParents(hash, told));
}

/// A request for the parents of a unit that was added to the DAG is answered with units that have the
/// hashes of the parents, in their order, if all of them are kept, and is not answered otherwise.
pub proof fn law_parents_answered<H: Hasher, D: Data, MK: MultiKeychain<H>>(
    before: RunwayModel<H, D, MK>,
    hash: H::Hash,
    parents: Seq<H::Hash>,
    node_id: NodeIndex,
)
    requires
        before.store.consistent(),
    ensures
        ({
            let after = before.on_added_to_dag(hash, parents).0;
            let answer = after.on_request_parents(node_id, hash);
            if before.keeps_all(parents) {
                &&& answer.len() == 1
                &&& answer[0] matches ActionView::ParentsResponse(h, units, n)
                &&& h == hash
                &&& n == node_id
                &&& hashes_of(units) == parents
                &&& forall|i: int|
                    0 <= i < units.len() ==> before.store.holds(#[trigger] units[i])
            } else {
                answer.len() == 0
            }
        }),
{
    let after = before.on_added_to_dag(hash, parents).0;
    assert(after.store.get_parents(hash) == Some(parents));
    assert(after.store.units == before.store.units);
    if before.keeps_all(parents) {
        assert(after.keeps_all(parents));
        let units = parents.map_values(|h: H::Hash| after.store.units[h]);
        assert forall|i: int| 0 <= i < units.len() implies before.store.holds(
            #[trigger] units[i],
        ) && units[i].hash() == parents[i] by {
            assert(before.store.units.contains_key(parents[i]));
        }
        assert(hashes_of(units) =~= parents);
    } else {
        assert(!after.keeps_all(parents));
    }
}

/// Whatever the step, units are sent to everyone only where one was added to the DAG that is kept and
/// that this node created, and then it alone is sent, once.
pub proof fn law_units_spread<H: Hasher, D: Data, MK: MultiKeychain<H>>(
    before: RunwayModel<H, D, MK>,
    moment: Moment<H, D, MK>,
)
    requires
        transition(before, moment),
    ensures
        spread(moment.1.1) == match moment.0 {
            Cause::Handled(Event::Consensus(Some(NotificationOut::AddedToDag(hash, _)))) => {
                match before.store.unit_by_hash(hash) {
                    Some(unit) if unit.creator() == before.node_ix => seq![unit],
                    _ => Seq::empty(),
                }
            },
            _ => Seq::empty(),
        },
{
    let step = moment.1;
    match moment.0 {
        Cause::Handled(Event::Consensus(Some(NotificationOut::AddedToDag(hash, parents)))) => {
            let recorded = RunwayModel {
                store: before.store.add_parents(hash, parents@),
                ..before
            };
            let first = recorded.resolve_missing_parents(hash);
            lemma_no_spread(first.1);
            if let Some(unit) = before.store.unit_by_hash(hash) {
                lemma_one::<H, D, MK::Signature>(ActionView::NewUnit(unit));
                lemma_append(first.1, seq![ActionView::NewUnit(unit)]);
                assert(first.1 + seq![ActionView::NewUnit(unit)] =~= first.1.push(
                    ActionView::NewUnit(unit),
                ));
            }
        },
        Cause::Handled(event) => {
            law_event_says(before, event, step);
            lemma_no_spread(step.1);
        },
        _ => {
            lemma_no_spread(step.1);
        },
    }
}

/// A unit that this node created is not sent when it is created. When it is added to the DAG it is
/// sent to everyone, once, and nothing else is.
pub proof fn law_own_unit_spread<H: Hasher, D: Data, MK: MultiKeychain<H>>(
    before: RunwayModel<H, D, MK>,
    unit: SignedUnit<H, D, MK::Signature>,
    created: Step<H, D, MK>,
    parents: Seq<H::Hash>,
)
    requires
        unit.creator() == before.node_ix,
        !before.store.units.contains_key(unit.hash()),
        transition(before, (Cause::Created(unit), created)),
    ensures
        spread(created.1) == Seq::<SignedUnit<H, D, MK::Signature>>::empty(),
        spread(created.0.on_added_to_dag(unit.hash(), parents).1) == seq![unit],
{
    let recorded = RunwayModel {
        store: created.0.store.add_parents(unit.hash(), parents),
        ..created.0
    };
    let first = recorded.resolve_missing_parents(unit.hash());
    lemma_no_spread(first.1);
    lemma_one::<H, D, MK::Signature>(ActionView::NewUnit(unit));
    lemma_append(first.1, seq![ActionView::NewUnit(unit)]);
    assert(first.1 + seq![ActionView::NewUnit(unit)] =~= first.1.push(ActionView::NewUnit(unit)));
}

/// The unit in an answer to a request for a newest unit is the requester's, and no kept unit of the
/// requester has a greater round; an answer without a unit says that none of its units is kept.
pub proof fn law_newest_unit_is_newest<H: Hasher, D: Data, MK: MultiKeychain<H>>(
    model: RunwayModel<H, D, MK>,
    requester: NodeIndex,
    salt: u64,
)
    requires
        model.store.consistent(),
    ensures
        match model.on_request_newest(requester, salt).unit {
            Some(unit) => {
                &&& model.store.holds(unit)
                &&& unit.creator() == requester
                &&& forall|h: H::Hash| #[trigger]
                    model.store.units.contains_key(h) && model.store.units[h].creator() == requester
                        ==> model.store.units[h].round() <= unit.round()
            },
            None => forall|h: H::Hash| #[trigger]
                model.store.units.contains_key(h) ==> model.store.units[h].creator() != requester,
        },
{
    let coords = model.store.coords;
    lemma_newest_below(coords, requester, (Round::MAX + 1) as nat);
    assert forall|h: H::Hash| #[trigger]
        model.store.units.contains_key(h) && model.store.units[h].creator()
            == requester implies coords.contains_key(
        UnitCoord { round: model.store.units[h].round(), creator: requester },
    ) by {
        assert(model.store.units[h].coord() == UnitCoord {
            round: model.store.units[h].round(),
            creator: requester,
        });
    }
}

/// Once an answer brought a unit of this node's that it did not keep, the starting round is after the
/// round of that unit.
pub proof fn law_starting_round_after_newest<H: Hasher, D: Data, MK: MultiKeychain<H>>(
    before: RunwayModel<H, D, MK>,
    response: Signed<NewestUnitResponse<H, D, MK::Signature>, MK::Signature>,
)
    requires
        before.starting_round_fits(response),
        before.forgotten_unit(response) is Some,
    ensures
        before.on_newest_response(response).0.starting_round_value > before.forgotten_unit(
            response,
        )->0.round(),
{
}

/// The starting round is told once: telling it again does nothing.
pub proof fn law_starting_round_told_once<H: Hasher, D: Data, MK: MultiKeychain<H>>(
    before: RunwayModel<H, D, MK>,
)
    ensures
        before.resolve_starting_round().0.resolve_starting_round() == (
            before.resolve_starting_round().0,
            Seq::<ActionView<H, D, MK::Signature>>::empty(),
        ),
{
}

/// Answers that come after the starting round was told change nothing.
pub proof fn law_late_answer_ignored<H: Hasher, D: Data, MK: MultiKeychain<H>>(
    before: RunwayModel<H, D, MK>,
    response: Signed<NewestUnitResponse<H, D, MK::Signature>, MK::Signature>,
)
    requires
        before.starting_round_sent,
    ensures
        before.on_newest_response(response) == (
            before,
            Seq::<ActionView<H, D, MK::Signature>>::empty(),
        ),
{
}

/// Every message of another node can be taken in, and different messages are told apart.
pub proof fn law_messages_taken_in<H: Hasher, D: Data, S: Signature>(
    a: UnitMessage<H, D, S>,
    b: UnitMessage<H, D, S>,
)
    ensures
        <RunwayNotificationIn<H, D, S> as TryFromSpec<UnitMessage<H, D, S>>>::try_from_spec(
            a,
        ) is Ok,
        <RunwayNotificationIn<H, D, S> as TryFromSpec<UnitMessage<H, D, S>>>::try_from_spec(a)
            == <RunwayNotificationIn<H, D, S> as TryFromSpec<
            UnitMessage<H, D, S>,
        >>::try_from_spec(b) ==> a == b,
{
}

} // verus!
