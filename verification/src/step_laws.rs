//! Laws that span the handling of events.

use crate::actions::{alerted, lemma_append, lemma_one, starts, told};
use crate::life::{all_actions, is_life, state_after, transition, Cause, Moment};
use crate::messages::{
    ActionView, Event, ForkingNotification, NotificationOut, Recipient, Request, Response,
    RunwayNotificationIn,
};
use crate::model::{hashes_of, RunwayModel, Step};
use crate::nodes::{set_indices, NodeIndex};
use crate::store::{lemma_add_unit_consistent, StoreModel};
use crate::traits::{Data, Hasher, MultiKeychain};
use crate::units::{NewestUnitResponse, Signed, SignedUnit, UnitCoord, UnitView};
use vstd::prelude::*;

verus! {

/// Nothing that a store holds is lost or replaced in another.
pub open spec fn keeps<H: Hasher, D: Data, S>(
    before: StoreModel<H, D, S>,
    after: StoreModel<H, D, S>,
) -> bool {
    &&& forall|h: H::Hash| #[trigger]
        before.units.contains_key(h) ==> after.units.contains_key(h) && after.units[h]
            == before.units[h]
    &&& forall|c: UnitCoord| #[trigger]
        before.coords.contains_key(c) ==> after.coords.contains_key(c)
    &&& forall|h: H::Hash| #[trigger]
        before.parents.contains_key(h) ==> after.parents.contains_key(h)
    &&& before.consistent() ==> after.consistent()
}

/// What is buffered stays buffered, in its order, and what is added to the buffer are the units that
/// became kept.
pub open spec fn buffers<H: Hasher, D: Data, S>(
    before: StoreModel<H, D, S>,
    after: StoreModel<H, D, S>,
) -> bool {
    &&& before.buffer.len() <= after.buffer.len()
    &&& after.buffer.take(before.buffer.len() as int) == before.buffer
    &&& forall|i: int|
        before.buffer.len() <= i < after.buffer.len() ==> !before.units.contains_key(
            (#[trigger] after.buffer[i]).hash(),
        )
    &&& forall|h: H::Hash|
        #![trigger after.units.contains_key(h)]
        after.units.contains_key(h) && !before.units.contains_key(h) ==> exists|i: int|
            before.buffer.len() <= i < after.buffer.len() && (#[trigger] after.buffer[i]).hash() == h
}

/// What holds of every step: what is kept stays kept, each forker that becomes known is alerted of
/// once, at most one starting round is told, and it is told as soon as it can be and not before, and
/// a decision to stop stands.
pub open spec fn advances<H: Hasher, D: Data, MK: MultiKeychain<H>>(
    before: RunwayModel<H, D, MK>,
    step: Step<H, D, MK>,
) -> bool {
    let after = step.0;
    &&& after.same_config(before)
    &&& keeps(before.store, after.store)
    &&& alerted(step.1).no_duplicates()
    &&& forall|i: int|
        0 <= i < alerted(step.1).len() ==> !before.store.forkers.contains(
            #[trigger] alerted(step.1)[i],
        )
    &&& after.store.forkers == before.store.forkers.union(alerted(step.1).to_set())
    &&& before.starting_round_sent ==> after.starting_round_sent && after.starting_round_value
        == before.starting_round_value
    &&& before.starting_round_value <= after.starting_round_value
    &&& starts(step.1) == if after.starting_round_sent && !before.starting_round_sent {
        seq![after.starting_round_value]
    } else {
        Seq::empty()
    }
    &&& before.newest_unit_responders.subset_of(after.newest_unit_responders)
    &&& before.exiting ==> after.exiting
    &&& (before.is_starting_round_ready() ==> before.starting_round_sent) ==> (
    after.is_starting_round_ready() ==> after.starting_round_sent)
    &&& before.newest_unit_responders.finite() ==> {
        &&& after.newest_unit_responders.finite()
        &&& (before.starting_round_sent ==> before.is_starting_round_ready()) ==> (
        after.starting_round_sent ==> after.is_starting_round_ready())
    }
}

/// What holds of every step that an event leads to: besides, what becomes kept is buffered.
pub open spec fn evolves<H: Hasher, D: Data, MK: MultiKeychain<H>>(
    before: RunwayModel<H, D, MK>,
    step: Step<H, D, MK>,
) -> bool {
    &&& advances(before, step)
    &&& buffers(before.store, step.0.store)
    &&& told(step.1).len() == 0
}

proof fn lemma_advances_then<H: Hasher, D: Data, MK: MultiKeychain<H>>(
    before: RunwayModel<H, D, MK>,
    first: Step<H, D, MK>,
    second: Step<H, D, MK>,
)
    requires
        advances(before, first),
        advances(first.0, second),
    ensures
        advances(before, (second.0, first.1 + second.1)),
{
    lemma_append(first.1, second.1);
    let middle = first.0;
    let after = second.0;
    let a = alerted(first.1);
    let b = alerted(second.1);
    assert forall|i: int, j: int| 0 <= i < j < (a + b).len() implies (a + b)[i] != (a + b)[j] by {
        if i < a.len() && j >= a.len() {
            assert((a + b)[j] == b[j - a.len()]);
            assert(a.to_set().contains(a[i]));
            assert(middle.store.forkers.contains(a[i]));
        } else if i >= a.len() {
            assert((a + b)[i] == b[i - a.len()]);
            assert((a + b)[j] == b[j - a.len()]);
        }
    }
    assert forall|i: int| 0 <= i < (a + b).len() implies !before.store.forkers.contains(
        #[trigger] (a + b)[i],
    ) by {
        if i >= a.len() {
            assert((a + b)[i] == b[i - a.len()]);
            assert(!middle.store.forkers.contains(b[i - a.len()]));
        } else {
            assert((a + b)[i] == a[i]);
        }
    }
    assert((a + b).to_set() =~= a.to_set().union(b.to_set())) by {
        assert forall|x: NodeIndex| a.to_set().union(b.to_set()).contains(x) implies (a
            + b).to_set().contains(x) by {
            if a.contains(x) {
                let i = a.index_of(x);
                assert((a + b)[i] == x);
            } else {
                let i = b.index_of(x);
                assert((a + b)[a.len() + i] == x);
            }
        }
        assert forall|x: NodeIndex| (a + b).to_set().contains(x) implies a.to_set().union(
            b.to_set(),
        ).contains(x) by {
            let i = (a + b).index_of(x);
            if i < a.len() {
                assert(a[i] == x);
            } else {
                assert(b[i - a.len()] == x);
            }
        }
    }
    assert(after.store.forkers =~= before.store.forkers.union((a + b).to_set()));
    assert(starts(first.1) + starts(second.1) =~= if after.starting_round_sent
        && !before.starting_round_sent {
        seq![after.starting_round_value]
    } else {
        Seq::empty()
    });
}

proof fn lemma_evolves_then<H: Hasher, D: Data, MK: MultiKeychain<H>>(
    before: RunwayModel<H, D, MK>,
    first: Step<H, D, MK>,
    second: Step<H, D, MK>,
)
    requires
        evolves(before, first),
        evolves(first.0, second),
    ensures
        evolves(before, (second.0, first.1 + second.1)),
{
    lemma_append(first.1, second.1);
    lemma_advances_then(before, first, second);
    let middle = first.0;
    let after = second.0;
    let p = before.store.buffer.len();
    let q = middle.store.buffer.len();
    assert(after.store.buffer.take(p as int) =~= before.store.buffer) by {
        assert(after.store.buffer.take(p as int) =~= after.store.buffer.take(q as int).take(
            p as int,
        ));
    }
    assert forall|i: int| p <= i < after.store.buffer.len() implies !before.store.units.contains_key(
        (#[trigger] after.store.buffer[i]).hash(),
    ) by {
        if i < q {
            assert(after.store.buffer.take(q as int)[i] == middle.store.buffer[i]);
        }
    }
    assert forall|h: H::Hash|
        #![trigger after.store.units.contains_key(h)]
        after.store.units.contains_key(h) && !before.store.units.contains_key(h) implies exists|i: int|
        p <= i < after.store.buffer.len() && (#[trigger] after.store.buffer[i]).hash() == h by {
        if middle.store.units.contains_key(h) {
            let i = choose|i: int| p <= i < q && (#[trigger] middle.store.buffer[i]).hash() == h;
            assert(after.store.buffer.take(q as int)[i] == middle.store.buffer[i]);
            assert(after.store.buffer[i].hash() == h);
        }
    }
}

proof fn lemma_evolves_quietly<H: Hasher, D: Data, MK: MultiKeychain<H>>(
    before: RunwayModel<H, D, MK>,
    step: Step<H, D, MK>,
)
    requires
        step.0.same_config(before),
        keeps(before.store, step.0.store),
        buffers(before.store, step.0.store),
        alerted(step.1).len() == 0,
        step.0.store.forkers == before.store.forkers,
        step.0.starting_round_sent == before.starting_round_sent,
        step.0.starting_round_value == before.starting_round_value,
        starts(step.1).len() == 0,
        told(step.1).len() == 0,
        step.0.newest_unit_responders == before.newest_unit_responders,
        step.0.after_catch_up_delay == before.after_catch_up_delay,
        before.exiting ==> step.0.exiting,
    ensures
        evolves(before, step),
{
    assert(alerted(step.1) =~= Seq::empty());
    assert(starts(step.1) =~= Seq::empty());
    assert(alerted(step.1).to_set() =~= Set::empty());
    assert(before.store.forkers.union(Set::empty()) =~= before.store.forkers);
}

proof fn lemma_buffers_same<H: Hasher, D: Data, S>(
    before: StoreModel<H, D, S>,
    after: StoreModel<H, D, S>,
)
    requires
        before.units == after.units,
        before.buffer == after.buffer,
    ensures
        buffers(before, after),
{
    assert(after.buffer.take(before.buffer.len() as int) =~= before.buffer);
}

proof fn lemma_add_unit<H: Hasher, D: Data, S>(
    before: StoreModel<H, D, S>,
    unit: SignedUnit<H, D, S>,
    alert: bool,
)
    requires
        alert || !before.forkers.contains(unit.creator()),
    ensures
        keeps(before, before.add_unit(unit, alert)),
        buffers(before, before.add_unit(unit, alert)),
{
    let after = before.add_unit(unit, alert);
    if before.consistent() {
        lemma_add_unit_consistent(before, unit, alert);
    }
    if before.units.contains_key(unit.hash()) {
        lemma_buffers_same(before, after);
    } else {
        assert(after.buffer.take(before.buffer.len() as int) =~= before.buffer);
        assert forall|h: H::Hash|
            #![trigger after.units.contains_key(h)]
            after.units.contains_key(h) && !before.units.contains_key(h) implies exists|i: int|
            before.buffer.len() <= i < after.buffer.len() && (#[trigger] after.buffer[i]).hash()
                == h by {
            assert(after.buffer[before.buffer.len() as int].hash() == h);
        }
    }
}

proof fn lemma_resolve_coord<H: Hasher, D: Data, MK: MultiKeychain<H>>(
    before: RunwayModel<H, D, MK>,
    coord: UnitCoord,
)
    ensures
        evolves(before, before.resolve_missing_coord(coord)),
{
    let step = before.resolve_missing_coord(coord);
    lemma_buffers_same(before.store, step.0.store);
    lemma_one::<H, D, MK::Signature>(ActionView::Resolved(Request::Coord(coord)));
    lemma_evolves_quietly(before, step);
}

proof fn lemma_resolve_parents<H: Hasher, D: Data, MK: MultiKeychain<H>>(
    before: RunwayModel<H, D, MK>,
    hash: H::Hash,
)
    ensures
        evolves(before, before.resolve_missing_parents(hash)),
{
    let step = before.resolve_missing_parents(hash);
    lemma_buffers_same(before.store, step.0.store);
    lemma_one::<H, D, MK::Signature>(ActionView::Resolved(Request::Parents(hash)));
    lemma_evolves_quietly(before, step);
}

proof fn lemma_new_forker<H: Hasher, D: Data, MK: MultiKeychain<H>>(
    before: RunwayModel<H, D, MK>,
    forker: NodeIndex,
    proof_of_fork: (SignedUnit<H, D, MK::Signature>, SignedUnit<H, D, MK::Signature>),
)
    requires
        !before.store.forkers.contains(forker),
        proof_of_fork.0.creator() == forker,
    ensures
        evolves(before, before.new_forker(forker, proof_of_fork)),
{
    let step = before.new_forker(forker, proof_of_fork);
    lemma_buffers_same(before.store, step.0.store);
    lemma_one::<H, D, MK::Signature>(
        ActionView::Alert(before.node_ix, proof_of_fork, before.store.units_of(forker)),
    );
    assert(alerted(step.1) =~= seq![forker]);
    assert(alerted(step.1).to_set() =~= set![forker]) by {
        assert(alerted(step.1)[0] == forker);
    }
    assert(step.0.store.forkers =~= before.store.forkers.union(set![forker]));
}

proof fn lemma_add_unless_fork<H: Hasher, D: Data, MK: MultiKeychain<H>>(
    before: RunwayModel<H, D, MK>,
    unit: SignedUnit<H, D, MK::Signature>,
)
    ensures
        evolves(before, before.add_unless_fork(unit)),
{
    let step = before.add_unless_fork(unit);
    if before.store.forkers.contains(unit.creator()) {
        lemma_buffers_same(before.store, step.0.store);
        lemma_evolves_quietly(before, step);
    } else {
        match before.store.new_fork(unit.signable()) {
            Some(other) => {
                lemma_new_forker(before, unit.creator(), (unit, other));
            },
            None => {
                lemma_add_unit(before.store, unit, false);
                lemma_evolves_quietly(before, step);
            },
        }
    }
}

proof fn lemma_take_in<H: Hasher, D: Data, MK: MultiKeychain<H>>(
    before: RunwayModel<H, D, MK>,
    unit: SignedUnit<H, D, MK::Signature>,
)
    ensures
        evolves(before, before.take_in(unit)),
{
    let first = before.resolve_missing_coord(unit.coord());
    lemma_resolve_coord(before, unit.coord());
    lemma_add_unless_fork(first.0, unit);
    lemma_evolves_then(before, first, first.0.add_unless_fork(unit));
}

proof fn lemma_nothing<H: Hasher, D: Data, MK: MultiKeychain<H>>(before: RunwayModel<H, D, MK>)
    ensures
        evolves(before, (before, Seq::empty())),
{
    lemma_buffers_same(before.store, before.store);
    lemma_evolves_quietly(before, (before, Seq::empty()));
}

proof fn lemma_take_in_all<H: Hasher, D: Data, MK: MultiKeychain<H>>(
    before: RunwayModel<H, D, MK>,
    units: Seq<SignedUnit<H, D, MK::Signature>>,
)
    ensures
        evolves(before, before.take_in_all(units)),
    decreases units.len(),
{
    if units.len() == 0 {
        lemma_nothing(before);
    } else {
        let first = before.take_in_all(units.drop_last());
        lemma_take_in_all(before, units.drop_last());
        lemma_take_in(first.0, units.last());
        lemma_evolves_then(before, first, first.0.take_in(units.last()));
    }
}

proof fn lemma_unit_received<H: Hasher, D: Data, MK: MultiKeychain<H>>(
    before: RunwayModel<H, D, MK>,
    unit: SignedUnit<H, D, MK::Signature>,
    alert: bool,
)
    ensures
        evolves(before, before.on_unit_received(unit, alert)),
{
    if !before.valid_unit(unit) {
        lemma_nothing(before);
    } else if alert {
        let first = before.resolve_missing_coord(unit.coord());
        lemma_resolve_coord(before, unit.coord());
        lemma_add_unit(first.0.store, unit, true);
        let second: Step<H, D, MK> = (
            RunwayModel { store: first.0.store.add_unit(unit, true), ..first.0 },
            Seq::empty(),
        );
        lemma_evolves_quietly(first.0, second);
        lemma_evolves_then(before, first, second);
        assert(first.1 + second.1 =~= first.1);
    } else {
        lemma_take_in(before, unit);
    }
}

proof fn lemma_alerted_units<H: Hasher, D: Data, MK: MultiKeychain<H>>(
    before: RunwayModel<H, D, MK>,
    units: Seq<SignedUnit<H, D, MK::Signature>>,
)
    ensures
        evolves(before, before.on_alerted_units(units)),
    decreases units.len(),
{
    if units.len() == 0 {
        lemma_nothing(before);
    } else {
        let first = before.on_alerted_units(units.drop_last());
        lemma_alerted_units(before, units.drop_last());
        lemma_unit_received(first.0, units.last(), true);
        lemma_evolves_then(before, first, first.0.on_unit_received(units.last(), true));
    }
}

proof fn lemma_parents_response<H: Hasher, D: Data, MK: MultiKeychain<H>>(
    before: RunwayModel<H, D, MK>,
    hash: H::Hash,
    parents: Seq<SignedUnit<H, D, MK::Signature>>,
)
    ensures
        evolves(before, before.on_parents_response(hash, parents)),
{
    let step = before.on_parents_response(hash, parents);
    lemma_nothing(before);
    if !before.store.parents.contains_key(hash) && before.store.units.contains_key(hash) {
        let unit = before.store.units[hash].signable();
        let creators = set_indices(unit.spec_mask());
        let good = before.n_good_parents(unit.spec_round(), creators, parents);
        let first = before.take_in_all(parents.take(good as int));
        lemma_take_in_all(before, parents.take(good as int));
        let hashes = hashes_of(parents);
        let second: Step<H, D, MK> = (
            RunwayModel { store: first.0.store.add_parents(hash, hashes), ..first.0 },
            seq![ActionView::UnitParents(hash, hashes)],
        );
        lemma_one::<H, D, MK::Signature>(ActionView::UnitParents(hash, hashes));
        lemma_buffers_same(first.0.store, second.0.store);
        lemma_evolves_quietly(first.0, second);
        lemma_evolves_then(before, first, second);
        assert(first.1 + second.1 =~= first.1.push(ActionView::UnitParents(hash, hashes)));
    }
}

proof fn lemma_try_starting_round<H: Hasher, D: Data, MK: MultiKeychain<H>>(
    before: RunwayModel<H, D, MK>,
    changed: RunwayModel<H, D, MK>,
)
    requires
        changed.same_config(before),
        changed.store == before.store,
        changed.starting_round_sent == before.starting_round_sent,
        before.starting_round_sent ==> changed.starting_round_value == before.starting_round_value,
        before.starting_round_value <= changed.starting_round_value,
        before.newest_unit_responders.subset_of(changed.newest_unit_responders),
        before.newest_unit_responders.finite() ==> changed.newest_unit_responders.finite(),
        before.after_catch_up_delay ==> changed.after_catch_up_delay,
        before.exiting ==> changed.exiting,
    ensures
        evolves(before, changed.try_starting_round()),
        changed.try_starting_round().0.is_starting_round_ready()
            ==> changed.try_starting_round().0.starting_round_sent,
{
    let step = changed.try_starting_round();
    lemma_buffers_same(before.store, step.0.store);
    lemma_one::<H, D, MK::Signature>(ActionView::StartingRound(changed.starting_round_value));
    assert(alerted(step.1) =~= Seq::empty());
    assert(alerted(step.1).to_set() =~= Set::empty());
    assert(before.store.forkers.union(Set::empty()) =~= before.store.forkers);
    assert(starts(Seq::<ActionView<H, D, MK::Signature>>::empty()) =~= Seq::empty());
    if before.newest_unit_responders.finite() {
        vstd::set_lib::lemma_len_subset(
            before.newest_unit_responders,
            changed.newest_unit_responders,
        );
    }
}

proof fn lemma_newest_response<H: Hasher, D: Data, MK: MultiKeychain<H>>(
    before: RunwayModel<H, D, MK>,
    response: Signed<NewestUnitResponse<H, D, MK::Signature>, MK::Signature>,
)
    requires
        before.starting_round_fits(response),
    ensures
        evolves(before, before.on_newest_response(response)),
{
    lemma_nothing(before);
    if before.newest_counts(response) {
        let (counted, first) = before.count_newest(response);
        let taken = match before.forgotten_unit(response) {
            Some(unit) => before.take_in(unit).0,
            None => before,
        };
        if let Some(unit) = before.forgotten_unit(response) {
            lemma_take_in(before, unit);
            lemma_take_in_quiet(before, unit);
        }
        lemma_try_starting_round(taken, counted);
        lemma_evolves_then(before, (taken, first), counted.try_starting_round());
        let step = before.on_newest_response(response);
        assert(step.0 == counted.try_starting_round().0);
        assert(step.1 == first + counted.try_starting_round().1);
    }
}

/// Taking a unit in tells no starting round.
proof fn lemma_take_in_quiet<H: Hasher, D: Data, MK: MultiKeychain<H>>(
    before: RunwayModel<H, D, MK>,
    unit: SignedUnit<H, D, MK::Signature>,
)
    ensures
        before.take_in(unit).0.starting_round_sent == before.starting_round_sent,
        before.take_in(unit).0.starting_round_value == before.starting_round_value,
        before.take_in(unit).0.newest_unit_responders == before.newest_unit_responders,
        before.take_in(unit).0.after_catch_up_delay == before.after_catch_up_delay,
{
}

proof fn lemma_missing_coords<H: Hasher, D: Data, MK: MultiKeychain<H>>(
    before: RunwayModel<H, D, MK>,
    coords: Seq<UnitCoord>,
)
    ensures
        evolves(before, before.on_missing_coords(coords)),
    decreases coords.len(),
{
    if coords.len() == 0 {
        lemma_nothing(before);
    } else {
        let first = before.on_missing_coords(coords.drop_last());
        let step = before.on_missing_coords(coords);
        lemma_missing_coords(before, coords.drop_last());
        let coord = coords.last();
        if step != first {
            let request: ActionView<H, D, MK::Signature> = ActionView::Request(
                Request::Coord(coord),
                Recipient::Node(coord.creator),
            );
            let second: Step<H, D, MK> = (step.0, seq![request]);
            lemma_one(request);
            lemma_buffers_same(first.0.store, step.0.store);
            lemma_evolves_quietly(first.0, second);
            lemma_evolves_then(before, first, second);
            assert(first.1 + second.1 =~= step.1);
        }
    }
}

proof fn lemma_added_to_dag<H: Hasher, D: Data, MK: MultiKeychain<H>>(
    before: RunwayModel<H, D, MK>,
    hash: H::Hash,
    parents: Seq<H::Hash>,
)
    ensures
        evolves(before, before.on_added_to_dag(hash, parents)),
{
    let recorded = RunwayModel { store: before.store.add_parents(hash, parents), ..before };
    let first: Step<H, D, MK> = (recorded, Seq::empty());
    lemma_buffers_same(before.store, recorded.store);
    lemma_evolves_quietly(before, first);
    let second = recorded.resolve_missing_parents(hash);
    lemma_resolve_parents(recorded, hash);
    lemma_evolves_then(before, first, second);
    assert(first.1 + second.1 =~= second.1);
    let step = before.on_added_to_dag(hash, parents);
    if let Some(unit) = before.store.unit_by_hash(hash) {
        let third: Step<H, D, MK> = (second.0, seq![ActionView::NewUnit(unit)]);
        lemma_one::<H, D, MK::Signature>(ActionView::NewUnit(unit));
        lemma_buffers_same(second.0.store, second.0.store);
        lemma_evolves_quietly(second.0, third);
        lemma_evolves_then(before, second, third);
        assert(second.1 + third.1 =~= second.1.push(ActionView::NewUnit(unit)));
    }
}

/// The same state with one action that neither alerts nor tells a starting round.
proof fn lemma_only_says<H: Hasher, D: Data, MK: MultiKeychain<H>>(
    before: RunwayModel<H, D, MK>,
    action: ActionView<H, D, MK::Signature>,
)
    requires
        !(action is Alert),
        !(action is StartingRound),
        !(action is NewUnits),
    ensures
        evolves(before, (before, seq![action])),
{
    lemma_one(action);
    lemma_buffers_same(before.store, before.store);
    lemma_evolves_quietly(before, (before, seq![action]));
}

/// Whatever the event, what is kept stays kept, the units that become kept are buffered for the
/// ordering part, each forker that becomes known is alerted of once, at most one starting round is
/// told, and it is told as soon as it can be, and a decision to stop stands.
pub proof fn law_every_event<H: Hasher, D: Data, MK: MultiKeychain<H>>(
    before: RunwayModel<H, D, MK>,
    event: Event<H, D, MK::Signature>,
    step: Step<H, D, MK>,
)
    requires
        before.can_handle(event),
        before.handles(event, Some(step)),
    ensures
        evolves(before, step),
{
    lemma_nothing(before);
    match event {
        Event::Consensus(Some(notification)) => match notification {
            NotificationOut::CreatedPreUnit(pre_unit, _) => {
                lemma_only_says(before, ActionView::CreateUnit(pre_unit));
            },
            NotificationOut::MissingUnits(coords) => {
                lemma_missing_coords(before, coords@);
            },
            NotificationOut::WrongControlHash(hash) => {
                match before.store.get_parents(hash) {
                    Some(hashes) => {
                        lemma_only_says(before, ActionView::UnitParents(hash, hashes));
                    },
                    None => {
                        lemma_one::<H, D, MK::Signature>(
                            ActionView::Request(
                                Request::Parents(hash),
                                before.parents_recipient(hash),
                            ),
                        );
                        lemma_buffers_same(before.store, step.0.store);
                        lemma_evolves_quietly(before, step);
                    },
                }
            },
            NotificationOut::AddedToDag(hash, parents) => {
                lemma_added_to_dag(before, hash, parents@);
            },
        },
        Event::Alerter(Some(notification)) => match notification {
            ForkingNotification::Forker(proof_of_fork) => {
                if !before.store.forkers.contains(proof_of_fork.0.creator()) {
                    lemma_new_forker(before, proof_of_fork.0.creator(), proof_of_fork);
                }
            },
            ForkingNotification::Units(units) => {
                lemma_alerted_units(before, units@);
            },
        },
        Event::Network(Some(message)) => match message {
            RunwayNotificationIn::NewUnit(unit) => {
                lemma_unit_received(before, unit, false);
            },
            RunwayNotificationIn::Request(request, node_id) => match request {
                Request::Coord(coord) => {
                    if before.store.coords.contains_key(coord) {
                        lemma_only_says(
                            before,
                            ActionView::CoordResponse(before.store.coords[coord], node_id),
                        );
                    }
                },
                Request::Parents(hash) => {
                    if step.1.len() > 0 {
                        lemma_only_says(before, step.1[0]);
                        assert(step.1 =~= seq![step.1[0]]);
                    } else {
                        assert(step.1 =~= Seq::empty());
                    }
                },
                Request::NewestUnit(salt) => {
                    lemma_only_says(
                        before,
                        ActionView::SignNewest(before.on_request_newest(node_id, salt)),
                    );
                },
            },
            RunwayNotificationIn::Response(response) => match response {
                Response::Coord(unit) => {
                    lemma_unit_received(before, unit, false);
                },
                Response::Parents(hash, parents) => {
                    lemma_parents_response(before, hash, parents@);
                },
                Response::NewestUnit(newest) => {
                    lemma_newest_response(before, newest);
                },
            },
        },
        Event::OrderedBatch(_) => {
            lemma_only_says(before, step.1[0]);
            assert(step.1 =~= seq![step.1[0]]);
        },
        Event::CatchUpDelay => {
            let delayed = RunwayModel { after_catch_up_delay: true, ..before };
            lemma_try_starting_round(before, delayed);
        },
        Event::Exit => {
            lemma_buffers_same(before.store, step.0.store);
            lemma_evolves_quietly(before, step);
        },
        _ => {},
    }
}

/// The units that are added to the buffer in a step were not kept before it.
spec fn buffers_new<H: Hasher, D: Data, S>(
    before: StoreModel<H, D, S>,
    after: StoreModel<H, D, S>,
) -> bool {
    forall|i: int|
        0 <= i < after.buffer.len() ==> {
            ||| !before.units.contains_key((#[trigger] after.buffer[i]).hash())
            ||| i < before.buffer.len() && after.buffer[i] == before.buffer[i]
        }
}

proof fn lemma_transition<H: Hasher, D: Data, MK: MultiKeychain<H>>(
    before: RunwayModel<H, D, MK>,
    moment: Moment<H, D, MK>,
)
    requires
        transition(before, moment),
    ensures
        advances(before, moment.1),
        moment.0 is Told || {
            &&& told(moment.1.1).len() == 0
            &&& buffers_new(before.store, moment.1.0.store)
        },
{
    let step = moment.1;
    let after = step.0;
    match moment.0 {
        Cause::Started => {
            lemma_only_says(
                before,
                ActionView::Request(Request::NewestUnit(before.salt), Recipient::Everyone),
            );
        },
        Cause::Handled(event) => {
            law_every_event(before, event, step);
            assert forall|i: int| 0 <= i < after.store.buffer.len() implies {
                ||| !before.store.units.contains_key((#[trigger] after.store.buffer[i]).hash())
                ||| i < before.store.buffer.len() && after.store.buffer[i] == before.store.buffer[i]
            } by {
                if i < before.store.buffer.len() {
                    assert(after.store.buffer.take(before.store.buffer.len() as int)[i]
                        == before.store.buffer[i]);
                }
            }
        },
        Cause::Created(unit) => {
            if before.store.consistent() {
                lemma_add_unit_consistent(before.store, unit, false);
            }
            assert(step.1 =~= Seq::empty());
            assert(alerted(step.1).to_set() =~= Set::empty());
            assert(before.store.forkers.union(Set::empty()) =~= before.store.forkers);
        },
        Cause::Signed(response) => {
            lemma_only_says(
                before,
                ActionView::NewestResponse(response, response.signable().requester),
            );
        },
        Cause::Performed(delivery, delivered) => {
            lemma_one::<H, D, MK::Signature>(
                ActionView::Resolved(Request::NewestUnit(before.salt)),
            );
            lemma_buffers_same(before.store, after.store);
            lemma_evolves_quietly(before, step);
        },
        Cause::Told => {
            lemma_one(step.1[0]);
            assert(step.1 =~= seq![step.1[0]]);
            assert(alerted(step.1).to_set() =~= Set::empty());
            assert(before.store.forkers.union(Set::empty()) =~= before.store.forkers);
        },
    }
}

/// Over the whole life of a node, what is kept stays kept, each forker is alerted of once, one
/// starting round is told at most, as soon as it can be and not before, and it is not changed
/// afterwards, and a decision to stop stands.
pub proof fn law_whole_life<H: Hasher, D: Data, MK: MultiKeychain<H>>(
    start: RunwayModel<H, D, MK>,
    life: Seq<Moment<H, D, MK>>,
)
    requires
        is_life(start, life),
    ensures
        advances(start, (state_after(start, life), all_actions(life))),
    decreases life.len(),
{
    if life.len() == 0 {
        lemma_nothing(start);
    } else {
        let earlier = life.drop_last();
        law_whole_life(start, earlier);
        lemma_transition(state_after(start, earlier), life.last());
        lemma_advances_then(
            start,
            (state_after(start, earlier), all_actions(earlier)),
            life.last().1,
        );
    }
}

/// Over the whole life of a node, the ordering part is told of each unit at most once, and of kept
/// units only.
pub proof fn law_told_once<H: Hasher, D: Data, MK: MultiKeychain<H>>(
    start: RunwayModel<H, D, MK>,
    life: Seq<Moment<H, D, MK>>,
)
    requires
        start.store.consistent(),
        is_life(start, life),
    ensures
        told(all_actions(life)).no_duplicates(),
        forall|i: int|
            0 <= i < told(all_actions(life)).len() ==> state_after(
                start,
                life,
            ).store.units.contains_key(#[trigger] told(all_actions(life))[i]),
{
    lemma_told_once(start, life);
}

proof fn lemma_told_once<H: Hasher, D: Data, MK: MultiKeychain<H>>(
    start: RunwayModel<H, D, MK>,
    life: Seq<Moment<H, D, MK>>,
)
    requires
        start.store.consistent(),
        is_life(start, life),
    ensures
        state_after(start, life).store.consistent(),
        told(all_actions(life)).no_duplicates(),
        forall|i: int|
            0 <= i < told(all_actions(life)).len() ==> state_after(
                start,
                life,
            ).store.units.contains_key(#[trigger] told(all_actions(life))[i]),
        forall|i: int, j: int|
            0 <= i < told(all_actions(life)).len() && 0 <= j < state_after(
                start,
                life,
            ).store.buffer.len() ==> #[trigger] told(all_actions(life))[i] != (
            #[trigger] state_after(start, life).store.buffer[j]).hash(),
    decreases life.len(),
{
    if life.len() > 0 {
        let earlier = life.drop_last();
        let before = state_after(start, earlier);
        let step = life.last().1;
        let after = step.0;
        let a = told(all_actions(earlier));
        let b = told(step.1);
        lemma_told_once(start, earlier);
        lemma_transition(before, life.last());
        lemma_append(all_actions(earlier), step.1);
        if life.last().0 is Told {
            let units = before.store.buffer.map_values(
                |unit: SignedUnit<H, D, MK::Signature>| unit.signable().spec_unit(),
            );
            lemma_one(step.1[0]);
            assert(step.1 =~= seq![step.1[0]]);
            assert(b == units.map_values(|unit: UnitView<H>| unit.hash));
            assert forall|k: int| 0 <= k < b.len() implies b[k] == (
            #[trigger] before.store.buffer[k]).hash() by {}
            assert forall|i: int, j: int| 0 <= i < j < (a + b).len() implies (a + b)[i] != (a
                + b)[j] by {
                if j < a.len() {
                } else if i < a.len() {
                    assert((a + b)[j] == before.store.buffer[j - a.len()].hash());
                    assert(a[i] != before.store.buffer[j - a.len()].hash());
                } else {
                    assert((a + b)[i] == before.store.buffer[i - a.len()].hash());
                    assert((a + b)[j] == before.store.buffer[j - a.len()].hash());
                }
            }
            assert forall|i: int| 0 <= i < (a + b).len() implies after.store.units.contains_key(
                #[trigger] (a + b)[i],
            ) by {
                if i >= a.len() {
                    assert(before.store.holds(before.store.buffer[i - a.len()]));
                } else {
                    assert((a + b)[i] == a[i]);
                }
            }
        } else {
            assert(a + b =~= a);
            assert forall|i: int, j: int|
                0 <= i < a.len() && 0 <= j < after.store.buffer.len() implies #[trigger] a[i] != (
            #[trigger] after.store.buffer[j]).hash() by {
                assert(before.store.units.contains_key(a[i]));
            }
        }
    }
}

} // verus!
