//! Laws on the requests that a node makes and on the answers that it gives.

use crate::actions::{
    law_event_says, lemma_append, lemma_no_parents, lemma_one, requested, requested_parents, resolved,
    resolved_parents,
};
use crate::life::{all_actions, is_life, state_after, transition, Cause, Moment};
use crate::messages::{
    ActionView, Event, ForkingNotification, NotificationOut, Recipient, Request, Response,
    RunwayNotificationIn,
};
use crate::model::{hashes_of, RunwayModel, Step};
use crate::nodes::set_indices;
use crate::traits::{Data, Hasher, MultiKeychain};
use crate::units::{NewestUnitResponse, Signed, SignedUnit, UnitCoord};
use vstd::prelude::*;

verus! {

/// A step that makes no request for a unit, and in which the outstanding requests that end are those
/// that are said to, each once.
pub open spec fn settles<H: Hasher, D: Data, MK: MultiKeychain<H>>(
    before: RunwayModel<H, D, MK>,
    step: Step<H, D, MK>,
) -> bool {
    &&& requested(step.1).len() == 0
    &&& resolved(step.1).no_duplicates()
    &&& forall|i: int|
        0 <= i < resolved(step.1).len() ==> before.missing_coords.contains(
            #[trigger] resolved(step.1)[i],
        )
    &&& step.0.missing_coords == before.missing_coords.difference(resolved(step.1).to_set())
}

proof fn lemma_settles_then<H: Hasher, D: Data, MK: MultiKeychain<H>>(
    before: RunwayModel<H, D, MK>,
    first: Step<H, D, MK>,
    second: Step<H, D, MK>,
)
    requires
        settles(before, first),
        settles(first.0, second),
    ensures
        settles(before, (second.0, first.1 + second.1)),
{
    lemma_append(first.1, second.1);
    let a = resolved(first.1);
    let b = resolved(second.1);
    let middle = first.0;
    assert forall|i: int, j: int| 0 <= i < j < (a + b).len() implies (a + b)[i] != (a + b)[j] by {
        if i < a.len() && j >= a.len() {
            assert((a + b)[j] == b[j - a.len()]);
            assert(middle.missing_coords.contains(b[j - a.len()]));
            assert(a.to_set().contains(a[i]));
        } else if i >= a.len() {
            assert((a + b)[i] == b[i - a.len()]);
            assert((a + b)[j] == b[j - a.len()]);
        }
    }
    assert forall|i: int| 0 <= i < (a + b).len() implies before.missing_coords.contains(
        #[trigger] (a + b)[i],
    ) by {
        if i >= a.len() {
            assert((a + b)[i] == b[i - a.len()]);
            assert(middle.missing_coords.contains(b[i - a.len()]));
        } else {
            assert((a + b)[i] == a[i]);
        }
    }
    assert forall|c: UnitCoord| (a + b).contains(c) == (a.contains(c) || b.contains(c)) by {
        if a.contains(c) {
            assert((a + b)[a.index_of(c)] == c);
        }
        if b.contains(c) {
            assert((a + b)[a.len() + b.index_of(c)] == c);
        }
        if (a + b).contains(c) {
            let i = (a + b).index_of(c);
            if i < a.len() {
                assert(a[i] == c);
            } else {
                assert(b[i - a.len()] == c);
            }
        }
    }
    assert(second.0.missing_coords =~= before.missing_coords.difference((a + b).to_set()));
}

proof fn lemma_settles_nothing<H: Hasher, D: Data, MK: MultiKeychain<H>>(
    before: RunwayModel<H, D, MK>,
    step: Step<H, D, MK>,
)
    requires
        requested(step.1).len() == 0,
        resolved(step.1).len() == 0,
        step.0.missing_coords == before.missing_coords,
    ensures
        settles(before, step),
{
    assert(step.0.missing_coords =~= before.missing_coords.difference(resolved(step.1).to_set()));
}

proof fn lemma_settles_coord<H: Hasher, D: Data, MK: MultiKeychain<H>>(
    before: RunwayModel<H, D, MK>,
    coord: UnitCoord,
)
    ensures
        settles(before, before.resolve_missing_coord(coord)),
{
    let step = before.resolve_missing_coord(coord);
    if before.missing_coords.contains(coord) {
        lemma_one::<H, D, MK::Signature>(ActionView::Resolved(Request::Coord(coord)));
        assert(resolved(step.1)[0] == coord);
        assert(resolved(step.1).contains(coord));
        assert(step.0.missing_coords =~= before.missing_coords.difference(
            resolved(step.1).to_set(),
        ));
    } else {
        lemma_settles_nothing(before, step);
    }
}

proof fn lemma_settles_add<H: Hasher, D: Data, MK: MultiKeychain<H>>(
    before: RunwayModel<H, D, MK>,
    unit: SignedUnit<H, D, MK::Signature>,
)
    ensures
        settles(before, before.add_unless_fork(unit)),
{
    let step = before.add_unless_fork(unit);
    if let Some(other) = before.store.new_fork(unit.signable()) {
        lemma_one::<H, D, MK::Signature>(
            ActionView::Alert(
                before.node_ix,
                (unit, other),
                before.store.units_of(unit.creator()),
            ),
        );
    }
    lemma_settles_nothing(before, step);
}

proof fn lemma_settles_take_in<H: Hasher, D: Data, MK: MultiKeychain<H>>(
    before: RunwayModel<H, D, MK>,
    unit: SignedUnit<H, D, MK::Signature>,
)
    ensures
        settles(before, before.take_in(unit)),
{
    let first = before.resolve_missing_coord(unit.coord());
    lemma_settles_coord(before, unit.coord());
    lemma_settles_add(first.0, unit);
    lemma_settles_then(before, first, first.0.add_unless_fork(unit));
}

proof fn lemma_settles_take_in_all<H: Hasher, D: Data, MK: MultiKeychain<H>>(
    before: RunwayModel<H, D, MK>,
    units: Seq<SignedUnit<H, D, MK::Signature>>,
)
    ensures
        settles(before, before.take_in_all(units)),
    decreases units.len(),
{
    if units.len() == 0 {
        lemma_settles_nothing(before, before.take_in_all(units));
    } else {
        let first = before.take_in_all(units.drop_last());
        lemma_settles_take_in_all(before, units.drop_last());
        lemma_settles_take_in(first.0, units.last());
        lemma_settles_then(before, first, first.0.take_in(units.last()));
    }
}

proof fn lemma_settles_received<H: Hasher, D: Data, MK: MultiKeychain<H>>(
    before: RunwayModel<H, D, MK>,
    unit: SignedUnit<H, D, MK::Signature>,
    alert: bool,
)
    ensures
        settles(before, before.on_unit_received(unit, alert)),
{
    if !before.valid_unit(unit) {
        lemma_settles_nothing(before, before.on_unit_received(unit, alert));
    } else if alert {
        lemma_settles_coord(before, unit.coord());
    } else {
        lemma_settles_take_in(before, unit);
    }
}

proof fn lemma_settles_alerted<H: Hasher, D: Data, MK: MultiKeychain<H>>(
    before: RunwayModel<H, D, MK>,
    units: Seq<SignedUnit<H, D, MK::Signature>>,
)
    ensures
        settles(before, before.on_alerted_units(units)),
    decreases units.len(),
{
    if units.len() == 0 {
        lemma_settles_nothing(before, before.on_alerted_units(units));
    } else {
        let first = before.on_alerted_units(units.drop_last());
        lemma_settles_alerted(before, units.drop_last());
        lemma_settles_received(first.0, units.last(), true);
        lemma_settles_then(before, first, first.0.on_unit_received(units.last(), true));
    }
}

proof fn lemma_settles_parents<H: Hasher, D: Data, MK: MultiKeychain<H>>(
    before: RunwayModel<H, D, MK>,
    hash: H::Hash,
    parents: Seq<SignedUnit<H, D, MK::Signature>>,
)
    ensures
        settles(before, before.on_parents_response(hash, parents)),
{
    let step = before.on_parents_response(hash, parents);
    if step == (before, Seq::<ActionView<H, D, MK::Signature>>::empty()) {
        lemma_settles_nothing(before, step);
    } else {
        let unit = before.store.units[hash].signable();
        let creators = set_indices(unit.spec_mask());
        let good = before.n_good_parents(unit.spec_round(), creators, parents);
        let first = before.take_in_all(parents.take(good as int));
        lemma_settles_take_in_all(before, parents.take(good as int));
        let hashes = hashes_of(parents);
        let second: Step<H, D, MK> = (
            RunwayModel { store: first.0.store.add_parents(hash, hashes), ..first.0 },
            seq![ActionView::UnitParents(hash, hashes)],
        );
        lemma_one::<H, D, MK::Signature>(ActionView::UnitParents(hash, hashes));
        lemma_settles_nothing(first.0, second);
        lemma_settles_then(before, first, second);
        assert(first.1 + second.1 =~= first.1.push(ActionView::UnitParents(hash, hashes)));
    }
}

proof fn lemma_settles_newest<H: Hasher, D: Data, MK: MultiKeychain<H>>(
    before: RunwayModel<H, D, MK>,
    response: Signed<NewestUnitResponse<H, D, MK::Signature>, MK::Signature>,
)
    ensures
        settles(before, before.on_newest_response(response)),
{
    let step = before.on_newest_response(response);
    if !before.newest_counts(response) {
        lemma_settles_nothing(before, step);
    } else {
        let first = match before.forgotten_unit(response) {
            Some(unit) => before.take_in(unit),
            None => (before, Seq::empty()),
        };
        match before.forgotten_unit(response) {
            Some(unit) => {
                lemma_settles_take_in(before, unit);
            },
            None => {
                lemma_settles_nothing(before, first);
            },
        }
        let last = step.1.skip(first.1.len() as int);
        assert(step.1 =~= first.1 + last);
        if last.len() > 0 {
            lemma_one(last[0]);
            assert(last =~= seq![last[0]]);
        } else {
            assert(last =~= Seq::empty());
        }
        let second: Step<H, D, MK> = (step.0, last);
        lemma_settles_nothing(first.0, second);
        lemma_settles_then(before, first, second);
    }
}

/// Whatever the event, unless it says that units are missing, no unit is requested, and the
/// outstanding requests for units that end are said to end, each once.
pub proof fn law_requests_settled<H: Hasher, D: Data, MK: MultiKeychain<H>>(
    before: RunwayModel<H, D, MK>,
    event: Event<H, D, MK::Signature>,
    step: Step<H, D, MK>,
)
    requires
        before.handles(event, Some(step)),
        !(event matches Event::Consensus(Some(NotificationOut::MissingUnits(_)))),
    ensures
        settles(before, step),
{
    match event {
        Event::Consensus(Some(notification)) => {
            if let NotificationOut::AddedToDag(hash, parents) = notification {
                let recorded = RunwayModel {
                    store: before.store.add_parents(hash, parents@),
                    ..before
                };
                let first = recorded.resolve_missing_parents(hash);
                lemma_one::<H, D, MK::Signature>(ActionView::Resolved(Request::Parents(hash)));
                if let Some(unit) = before.store.unit_by_hash(hash) {
                    lemma_one::<H, D, MK::Signature>(ActionView::NewUnit(unit));
                    lemma_append(first.1, seq![ActionView::NewUnit(unit)]);
                    assert(first.1 + seq![ActionView::NewUnit(unit)] =~= first.1.push(
                        ActionView::NewUnit(unit),
                    ));
                }
            } else if step.1.len() > 0 {
                lemma_one(step.1[0]);
                assert(step.1 =~= seq![step.1[0]]);
            }
            lemma_settles_nothing(before, step);
        },
        Event::Alerter(Some(notification)) => match notification {
            ForkingNotification::Forker(proof_of_fork) => {
                if step.1.len() > 0 {
                    lemma_one(step.1[0]);
                    assert(step.1 =~= seq![step.1[0]]);
                }
                lemma_settles_nothing(before, step);
            },
            ForkingNotification::Units(units) => {
                lemma_settles_alerted(before, units@);
            },
        },
        Event::Network(Some(message)) => match message {
            RunwayNotificationIn::NewUnit(unit) => {
                lemma_settles_received(before, unit, false);
            },
            RunwayNotificationIn::Request(request, node_id) => {
                if step.1.len() > 0 {
                    lemma_one(step.1[0]);
                    assert(step.1 =~= seq![step.1[0]]);
                }
                lemma_settles_nothing(before, step);
            },
            RunwayNotificationIn::Response(Response::Coord(unit)) => {
                lemma_settles_received(before, unit, false);
            },
            RunwayNotificationIn::Response(Response::Parents(hash, parents)) => {
                lemma_settles_parents(before, hash, parents@);
            },
            RunwayNotificationIn::Response(Response::NewestUnit(response)) => {
                lemma_settles_newest(before, response);
            },
        },
        _ => {
            if step.1.len() > 0 {
                lemma_one(step.1[0]);
                assert(step.1 =~= seq![step.1[0]]);
            }
            lemma_settles_nothing(before, step);
        },
    }
}

/// Whether `a` occurs in a list before `b` does.
pub open spec fn first_before<T>(items: Seq<T>, a: T, b: T) -> bool {
    exists|p: int|
        0 <= p < items.len() && #[trigger] items[p] == a && forall|q: int|
            0 <= q <= p ==> #[trigger] items[q] != b
}

/// Of the missing units, those are requested that are neither kept nor requested already, each once,
/// and each from its creator, in the order in which their places first occur. Afterwards a unit at
/// each of the places is kept or outstanding.
pub proof fn law_missing_units_requested<H: Hasher, D: Data, MK: MultiKeychain<H>>(
    before: RunwayModel<H, D, MK>,
    coords: Seq<UnitCoord>,
)
    ensures
        ({
            let step = before.on_missing_coords(coords);
            &&& step.0.store == before.store
            &&& step.1 == requested(step.1).map_values(
                |c: UnitCoord|
                    ActionView::<H, D, MK::Signature>::Request(
                        Request::Coord(c),
                        Recipient::Node(c.creator),
                    ),
            )
            &&& requested(step.1).no_duplicates()
            &&& forall|c: UnitCoord| #[trigger]
                requested(step.1).contains(c) <==> coords.contains(c)
                    && !before.store.coords.contains_key(c) && !before.missing_coords.contains(c)
            &&& forall|i: int, j: int|
                0 <= i < j < requested(step.1).len() ==> first_before(
                    coords,
                    #[trigger] requested(step.1)[i],
                    #[trigger] requested(step.1)[j],
                )
            &&& step.0.missing_coords == before.missing_coords.union(requested(step.1).to_set())
            &&& forall|i: int|
                0 <= i < coords.len() ==> before.store.coords.contains_key(#[trigger] coords[i])
                    || step.0.missing_coords.contains(coords[i])
        }),
    decreases coords.len(),
{
    let step = before.on_missing_coords(coords);
    let request = |c: UnitCoord|
        ActionView::<H, D, MK::Signature>::Request(
            Request::Coord(c),
            Recipient::Node(c.creator),
        );
    if coords.len() == 0 {
        assert(step.1 =~= requested(step.1).map_values(request));
        assert(step.0.missing_coords =~= before.missing_coords.union(requested(step.1).to_set()));
    } else {
        let fewer = coords.drop_last();
        let first = before.on_missing_coords(fewer);
        let coord = coords.last();
        let r = requested(first.1);
        law_missing_units_requested(before, fewer);
        assert forall|c: UnitCoord| #[trigger] coords.contains(c) == (fewer.contains(c) || c
            == coord) by {
            if fewer.contains(c) {
                assert(coords[fewer.index_of(c)] == c);
            }
            if coords.contains(c) && c != coord {
                assert(fewer[coords.index_of(c)] == c);
            }
            assert(coords[coords.len() - 1] == coord);
        }
        assert forall|c: UnitCoord| #[trigger] r.push(coord).contains(c) == (r.contains(c) || c
            == coord) by {
            if r.contains(c) {
                assert(r.push(coord)[r.index_of(c)] == c);
            }
            if r.push(coord).contains(c) && c != coord {
                assert(r[r.push(coord).index_of(c)] == c);
            }
            assert(r.push(coord)[r.len() as int] == coord);
        }
        if before.store.coords.contains_key(coord) || first.0.missing_coords.contains(coord) {
            assert(step == first);
        } else {
            assert(step.1.drop_last() =~= first.1);
            assert(requested(step.1) == r.push(coord));
            assert(step.1 =~= requested(step.1).map_values(request));
            assert(!r.to_set().contains(coord));
            assert(!r.contains(coord));
            assert(step.0.missing_coords =~= before.missing_coords.union(
                requested(step.1).to_set(),
            ));
        }
        assert forall|i: int, j: int| 0 <= i < j < requested(step.1).len() implies first_before(
            coords,
            #[trigger] requested(step.1)[i],
            #[trigger] requested(step.1)[j],
        ) by {
            let a = requested(step.1)[i];
            let b = requested(step.1)[j];
            assert(r[i] == a);
            let p = if j < r.len() {
                assert(r[j] == b);
                assert(first_before(fewer, r[i], r[j]));
                choose|p: int|
                    0 <= p < fewer.len() && #[trigger] fewer[p] == a && forall|q: int|
                        0 <= q <= p ==> #[trigger] fewer[q] != b
            } else {
                assert(r.contains(a));
                fewer.index_of(a)
            };
            assert(coords[p] == a);
            assert forall|q: int| 0 <= q <= p implies #[trigger] coords[q] != b by {
                assert(fewer[q] == coords[q]);
            }
        }
        assert forall|i: int| 0 <= i < coords.len() implies before.store.coords.contains_key(
            #[trigger] coords[i],
        ) || step.0.missing_coords.contains(coords[i]) by {
            if i < fewer.len() {
                assert(fewer[i] == coords[i]);
            }
        }
    }
}

/// Being told once more that the same units are missing changes nothing and requests nothing.
pub proof fn law_missing_units_requested_once<H: Hasher, D: Data, MK: MultiKeychain<H>>(
    before: RunwayModel<H, D, MK>,
    coords: Seq<UnitCoord>,
)
    ensures
        ({
            let after = before.on_missing_coords(coords).0;
            after.on_missing_coords(coords) == (
                after,
                Seq::<ActionView<H, D, MK::Signature>>::empty(),
            )
        }),
{
    law_missing_units_requested(before, coords);
    lemma_nothing_missing(before.on_missing_coords(coords).0, coords);
}

proof fn lemma_nothing_missing<H: Hasher, D: Data, MK: MultiKeychain<H>>(
    model: RunwayModel<H, D, MK>,
    coords: Seq<UnitCoord>,
)
    requires
        forall|i: int|
            0 <= i < coords.len() ==> model.store.coords.contains_key(#[trigger] coords[i])
                || model.missing_coords.contains(coords[i]),
    ensures
        model.on_missing_coords(coords) == (
            model,
            Seq::<ActionView<H, D, MK::Signature>>::empty(),
        ),
    decreases coords.len(),
{
    if coords.len() > 0 {
        let fewer = coords.drop_last();
        assert forall|i: int| 0 <= i < fewer.len() implies model.store.coords.contains_key(
            #[trigger] fewer[i],
        ) || model.missing_coords.contains(fewer[i]) by {
            assert(fewer[i] == coords[i]);
        }
        lemma_nothing_missing(model, fewer);
        assert(coords[coords.len() - 1] == coords.last());
    }
}

/// Once a valid unit came in, no unit at its place is outstanding, and that is said if one was.
pub proof fn law_received_unit_not_missing<H: Hasher, D: Data, MK: MultiKeychain<H>>(
    before: RunwayModel<H, D, MK>,
    unit: SignedUnit<H, D, MK::Signature>,
    alert: bool,
)
    requires
        before.valid_unit(unit),
    ensures
        ({
            let step = before.on_unit_received(unit, alert);
            &&& step.0.missing_coords == before.missing_coords.remove(unit.coord())
            &&& resolved(step.1) == if before.missing_coords.contains(unit.coord()) {
                seq![unit.coord()]
            } else {
                Seq::empty()
            }
        }),
{
    let step = before.on_unit_received(unit, alert);
    let first = before.resolve_missing_coord(unit.coord());
    lemma_one::<H, D, MK::Signature>(ActionView::Resolved(Request::Coord(unit.coord())));
    let nothing = Seq::<ActionView<H, D, MK::Signature>>::empty();
    assert(resolved(nothing) =~= Seq::empty());
    assert(step.0.missing_coords =~= before.missing_coords.remove(unit.coord()));
    if !alert {
        let second = first.0.add_unless_fork(unit);
        if second.1.len() > 0 {
            lemma_one(second.1[0]);
            assert(second.1 =~= seq![second.1[0]]);
        } else {
            assert(second.1 =~= nothing);
        }
        lemma_append(first.1, second.1);
        assert(resolved(first.1) + Seq::<UnitCoord>::empty() =~= resolved(first.1));
    }
}

/// Parents that are needed are requested once: being told again that they are needed requests
/// nothing and changes nothing.
pub proof fn law_parents_requested_once<H: Hasher, D: Data, MK: MultiKeychain<H>>(
    before: RunwayModel<H, D, MK>,
    hash: H::Hash,
)
    requires
        !before.store.parents.contains_key(hash),
    ensures
        ({
            let after = before.on_wrong_control_hash(hash).0;
            &&& after.missing_parents.contains(hash)
            &&& after.on_wrong_control_hash(hash) == (
                after,
                Seq::<ActionView<H, D, MK::Signature>>::empty(),
            )
        }),
{
}

/// Once a unit was added to the DAG, a request for its parents is not outstanding.
pub proof fn law_added_unit_parents_not_missing<H: Hasher, D: Data, MK: MultiKeychain<H>>(
    before: RunwayModel<H, D, MK>,
    hash: H::Hash,
    parents: Seq<H::Hash>,
)
    ensures
        before.on_added_to_dag(hash, parents).0.missing_parents == before.missing_parents.remove(
            hash,
        ),
        before.on_added_to_dag(hash, parents).1.contains(
            ActionView::Resolved(Request::Parents(hash)),
        ) == before.missing_parents.contains(hash),
{
    let step = before.on_added_to_dag(hash, parents);
    let said = ActionView::<H, D, MK::Signature>::Resolved(Request::Parents(hash));
    assert(step.0.missing_parents =~= before.missing_parents.remove(hash));
    if before.missing_parents.contains(hash) {
        assert(step.1[0] == said);
    }
}

/// How often something occurs.
pub open spec fn times<T>(items: Seq<T>, item: T) -> nat {
    items.to_multiset().count(item)
}

/// One where a unit at the place is outstanding, and zero otherwise.
pub open spec fn outstanding<H: Hasher, D: Data, MK: MultiKeychain<H>>(
    model: RunwayModel<H, D, MK>,
    coord: UnitCoord,
) -> nat {
    if model.missing_coords.contains(coord) {
        1
    } else {
        0
    }
}

/// How often a place is requested and how often it is settled differ by whether it is outstanding.
pub open spec fn balanced<H: Hasher, D: Data, MK: MultiKeychain<H>>(
    before: RunwayModel<H, D, MK>,
    step: Step<H, D, MK>,
    coord: UnitCoord,
) -> bool {
    outstanding(before, coord) + times(requested(step.1), coord) == outstanding(step.0, coord)
        + times(resolved(step.1), coord)
}

proof fn lemma_times(coords: Seq<UnitCoord>, coord: UnitCoord)
    requires
        coords.no_duplicates(),
    ensures
        times(coords, coord) == if coords.contains(coord) {
            1nat
        } else {
            0nat
        },
{
    broadcast use vstd::seq_lib::group_to_multiset_ensures;

    coords.lemma_multiset_has_no_duplicates();
    if coords.contains(coord) {
        assert(coords.to_multiset().contains(coord));
    } else {
        assert(!coords.to_multiset().contains(coord));
    }
}

proof fn lemma_balanced_settles<H: Hasher, D: Data, MK: MultiKeychain<H>>(
    before: RunwayModel<H, D, MK>,
    step: Step<H, D, MK>,
    coord: UnitCoord,
)
    requires
        settles(before, step),
    ensures
        balanced(before, step, coord),
{
    assert(requested(step.1) =~= Seq::empty());
    lemma_times(requested(step.1), coord);
    lemma_times(resolved(step.1), coord);
}

proof fn lemma_balanced_step<H: Hasher, D: Data, MK: MultiKeychain<H>>(
    before: RunwayModel<H, D, MK>,
    moment: Moment<H, D, MK>,
    coord: UnitCoord,
)
    requires
        transition(before, moment),
    ensures
        balanced(before, moment.1, coord),
{
    let step = moment.1;
    match moment.0 {
        Cause::Handled(Event::Consensus(Some(NotificationOut::MissingUnits(coords)))) => {
            law_missing_units_requested(before, coords@);
            lemma_requests_resolve_nothing(before, coords@);
            lemma_times(requested(step.1), coord);
            lemma_times(resolved(step.1), coord);
        },
        Cause::Handled(event) => {
            law_requests_settled(before, event, step);
            lemma_balanced_settles(before, step, coord);
        },
        _ => {
            if step.1.len() > 0 {
                lemma_one(step.1[0]);
                assert(step.1 =~= seq![step.1[0]]);
            }
            lemma_settles_nothing(before, step);
            lemma_balanced_settles(before, step, coord);
        },
    }
}

proof fn lemma_requests_resolve_nothing<H: Hasher, D: Data, MK: MultiKeychain<H>>(
    before: RunwayModel<H, D, MK>,
    coords: Seq<UnitCoord>,
)
    ensures
        resolved(before.on_missing_coords(coords).1) == Seq::<UnitCoord>::empty(),
    decreases coords.len(),
{
    if coords.len() > 0 {
        let first = before.on_missing_coords(coords.drop_last());
        let step = before.on_missing_coords(coords);
        lemma_requests_resolve_nothing(before, coords.drop_last());
        if step != first {
            assert(step.1.drop_last() =~= first.1);
        }
    }
}

/// Over the whole life of a node, a place is requested as often as it is settled, and once more
/// exactly where it is outstanding in the end and was not in the beginning: no request is forgotten,
/// and none is settled twice.
pub proof fn law_requests_balanced<H: Hasher, D: Data, MK: MultiKeychain<H>>(
    start: RunwayModel<H, D, MK>,
    life: Seq<Moment<H, D, MK>>,
    coord: UnitCoord,
)
    requires
        is_life(start, life),
    ensures
        balanced(start, (state_after(start, life), all_actions(life)), coord),
    decreases life.len(),
{
    if life.len() == 0 {
        lemma_settles_nothing(start, (start, Seq::empty()));
        lemma_balanced_settles(start, (start, Seq::empty()), coord);
    } else {
        let earlier = life.drop_last();
        let first = all_actions(earlier);
        let last = life.last().1.1;
        law_requests_balanced(start, earlier, coord);
        lemma_balanced_step(state_after(start, earlier), life.last(), coord);
        lemma_append(first, last);
        vstd::seq_lib::lemma_multiset_commutative(requested(first), requested(last));
        vstd::seq_lib::lemma_multiset_commutative(resolved(first), resolved(last));
    }
}

/// One where the parents of the unit with the hash are outstanding, and zero otherwise.
pub open spec fn outstanding_parents<H: Hasher, D: Data, MK: MultiKeychain<H>>(
    model: RunwayModel<H, D, MK>,
    hash: H::Hash,
) -> nat {
    if model.missing_parents.contains(hash) {
        1
    } else {
        0
    }
}

/// How often the parents of a unit are requested and how often that is settled differ by whether
/// they are outstanding.
pub open spec fn balanced_parents<H: Hasher, D: Data, MK: MultiKeychain<H>>(
    before: RunwayModel<H, D, MK>,
    step: Step<H, D, MK>,
    hash: H::Hash,
) -> bool {
    outstanding_parents(before, hash) + times(requested_parents(step.1), hash)
        == outstanding_parents(step.0, hash) + times(resolved_parents(step.1), hash)
}

proof fn lemma_times_one<T>(one: T, item: T)
    ensures
        times(seq![one], item) == if one == item {
            1nat
        } else {
            0nat
        },
        times(Seq::<T>::empty(), item) == 0,
{
    broadcast use vstd::seq_lib::group_to_multiset_ensures;

    assert(seq![one] =~= Seq::<T>::empty().push(one));
}

proof fn lemma_balanced_parents_step<H: Hasher, D: Data, MK: MultiKeychain<H>>(
    before: RunwayModel<H, D, MK>,
    moment: Moment<H, D, MK>,
    hash: H::Hash,
)
    requires
        transition(before, moment),
    ensures
        balanced_parents(before, moment.1, hash),
{
    let step = moment.1;
    match moment.0 {
        Cause::Handled(Event::Consensus(Some(NotificationOut::WrongControlHash(wrong)))) => {
            lemma_times_one(wrong, hash);
            if step.1.len() > 0 {
                lemma_one(step.1[0]);
                assert(step.1 =~= seq![step.1[0]]);
            }
        },
        Cause::Handled(Event::Consensus(Some(NotificationOut::AddedToDag(added, parents)))) => {
            lemma_times_one(added, hash);
            let recorded = RunwayModel {
                store: before.store.add_parents(added, parents@),
                ..before
            };
            let first = recorded.resolve_missing_parents(added);
            lemma_one::<H, D, MK::Signature>(ActionView::Resolved(Request::Parents(added)));
            if let Some(unit) = before.store.unit_by_hash(added) {
                lemma_one::<H, D, MK::Signature>(ActionView::NewUnit(unit));
                lemma_append(first.1, seq![ActionView::NewUnit(unit)]);
                assert(first.1 + seq![ActionView::NewUnit(unit)] =~= first.1.push(
                    ActionView::NewUnit(unit),
                ));
            }
        },
        Cause::Handled(event) => {
            lemma_times_one(hash, hash);
            law_event_says(before, event, step);
            lemma_no_parents(step.1);
        },
        _ => {
            lemma_times_one(hash, hash);
            lemma_no_parents(step.1);
        },
    }
}

/// Over the whole life of a node, the parents of a unit are requested as often as that is settled,
/// and once more exactly where they are outstanding in the end and were not in the beginning: no
/// request is forgotten, and none is settled twice.
pub proof fn law_parents_requests_balanced<H: Hasher, D: Data, MK: MultiKeychain<H>>(
    start: RunwayModel<H, D, MK>,
    life: Seq<Moment<H, D, MK>>,
    hash: H::Hash,
)
    requires
        is_life(start, life),
    ensures
        balanced_parents(start, (state_after(start, life), all_actions(life)), hash),
    decreases life.len(),
{
    if life.len() == 0 {
        lemma_times_one(hash, hash);
    } else {
        let earlier = life.drop_last();
        let first = all_actions(earlier);
        let last = life.last().1.1;
        law_parents_requests_balanced(start, earlier, hash);
        lemma_balanced_parents_step(state_after(start, earlier), life.last(), hash);
        lemma_append(first, last);
        vstd::seq_lib::lemma_multiset_commutative(
            requested_parents(first),
            requested_parents(last),
        );
        vstd::seq_lib::lemma_multiset_commutative(resolved_parents(first), resolved_parents(last));
    }
}

} // verus!
