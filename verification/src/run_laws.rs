//! Laws on the runs of a node: the order in which it starts, handles events and performs actions.

use crate::actions::{
    law_event_says, lemma_append, lemma_none_apart, lemma_one, new_units, requested_newest,
    resolved_newest, starts,
};
use crate::life::{all_actions, is_life, state_after, transition, Cause, Moment};
use crate::messages::{ActionView, Recipient, Request};
use crate::model::{Actions, RunwayModel};
use crate::run::{comes_from, outcome_step, Outcome, Phase, Stand};
use crate::step_laws::law_whole_life;
use crate::traits::{Data, Hasher, MultiKeychain, Signature};
use vstd::prelude::*;

verus! {

/// Where a node stands after some steps.
pub open spec fn stand_after<H: Hasher, D: Data, MK: MultiKeychain<H>>(
    start: RunwayModel<H, D, MK>,
    life: Seq<Moment<H, D, MK>>,
) -> Stand<H, D, MK>
    decreases life.len(),
{
    if life.len() == 0 {
        Stand::new(start)
    } else {
        stand_after(start, life.drop_last()).next(life.last())
    }
}

/// Whether a node makes the steps in a run, from its start on.
pub open spec fn is_run<H: Hasher, D: Data, MK: MultiKeychain<H>>(
    start: RunwayModel<H, D, MK>,
    life: Seq<Moment<H, D, MK>>,
) -> bool
    decreases life.len(),
{
    life.len() > 0 ==> {
        let earlier = stand_after(start, life.drop_last());
        &&& is_run(start, life.drop_last())
        &&& earlier.awaits(life.last().0)
        &&& transition(earlier.state, life.last())
    }
}

/// The actions that were performed, in the order in which they were.
pub open spec fn performed<H: Hasher, D: Data, MK: MultiKeychain<H>>(
    start: RunwayModel<H, D, MK>,
    life: Seq<Moment<H, D, MK>>,
) -> Actions<H, D, MK>
    decreases life.len(),
{
    if life.len() == 0 {
        Seq::empty()
    } else {
        let earlier = stand_after(start, life.drop_last());
        if earlier.todo.len() > 0 {
            performed(start, life.drop_last()).push(earlier.todo.first())
        } else {
            performed(start, life.drop_last())
        }
    }
}

/// How many events were handled.
pub open spec fn n_events<H: Hasher, D: Data, MK: MultiKeychain<H>>(
    life: Seq<Moment<H, D, MK>>,
) -> nat
    decreases life.len(),
{
    if life.len() == 0 {
        0
    } else if life.last().0 is Handled {
        n_events(life.drop_last()) + 1
    } else {
        n_events(life.drop_last())
    }
}

/// A run is a life: whatever holds of every life holds of every run.
pub proof fn law_run_is_life<H: Hasher, D: Data, MK: MultiKeychain<H>>(
    start: RunwayModel<H, D, MK>,
    life: Seq<Moment<H, D, MK>>,
)
    requires
        is_run(start, life),
    ensures
        is_life(start, life),
        stand_after(start, life).state == state_after(start, life),
    decreases life.len(),
{
    if life.len() > 0 {
        law_run_is_life(start, life.drop_last());
    }
}

/// A run goes on with any step that is next.
pub proof fn law_run_goes_on<H: Hasher, D: Data, MK: MultiKeychain<H>>(
    start: RunwayModel<H, D, MK>,
    life: Seq<Moment<H, D, MK>>,
    moment: Moment<H, D, MK>,
)
    requires
        is_run(start, life),
        stand_after(start, life).awaits(moment.0),
        transition(stand_after(start, life).state, moment),
    ensures
        is_run(start, life.push(moment)),
        stand_after(start, life.push(moment)) == stand_after(start, life).next(moment),
{
    assert(life.push(moment).drop_last() =~= life);
}

/// Whatever comes of an action leads to a step of the node.
pub proof fn law_outcome_is_a_step<H: Hasher, D: Data, MK: MultiKeychain<H>>(
    model: RunwayModel<H, D, MK>,
    action: ActionView<H, D, MK::Signature>,
    outcome: Outcome<H, D, MK::Signature>,
)
    ensures
        transition(model, outcome_step(model, action, outcome)),
        outcome matches Outcome::Delivered(delivered) ==> outcome_step(model, action, outcome).0
            == Cause::<H, D, MK::Signature>::Performed(action.delivery(), delivered),
        outcome matches Outcome::Created(unit) ==> outcome_step(model, action, outcome).0 == Cause::<
            H,
            D,
            MK::Signature,
        >::Created(unit),
        outcome matches Outcome::Signed(response) ==> outcome_step(model, action, outcome).0
            == Cause::<H, D, MK::Signature>::Signed(response),
{
}

/// As long as there are actions to perform, a node waits for what comes of the first of them: for the
/// unit where one was to be created of what it was given, for the answer where one was to be signed, and
/// otherwise for whether the action was delivered.
pub proof fn law_awaits_outcome<H: Hasher, D: Data, MK: MultiKeychain<H>>(
    stand: Stand<H, D, MK>,
    cause: Cause<H, D, MK::Signature>,
)
    requires
        stand.todo.len() > 0,
    ensures
        stand.awaits(cause) <==> match cause {
            Cause::Created(unit) => {
                let made = unit.signable();
                let pre_unit = made.spec_pre_unit();
                &&& stand.todo[0] == ActionView::<H, D, MK::Signature>::CreateUnit(pre_unit)
                &&& made.spec_session_id() == stand.state.session_id
                &&& made.spec_hash() == H::unit_hash(
                    pre_unit.coord,
                    pre_unit.control_hash.parents_mask@,
                    pre_unit.control_hash.combined_hash,
                    made.spec_data().encoding(),
                    stand.state.session_id,
                )
            },
            Cause::Signed(response) => stand.todo[0] == ActionView::<
                H,
                D,
                MK::Signature,
            >::SignNewest(response.signable()),
            Cause::Performed(delivery, _) => {
                &&& !(stand.todo[0] is CreateUnit)
                &&& !(stand.todo[0] is SignNewest)
                &&& delivery == stand.todo[0].delivery()
            },
            _ => false,
        },
{
}

/// When there are no actions to perform, a node that is new starts, one that handled an event tells the
/// ordering part of new units, and any other waits for an event, unless it has decided to stop after an
/// event.
pub proof fn law_awaits_event<H: Hasher, D: Data, MK: MultiKeychain<H>>(
    stand: Stand<H, D, MK>,
    cause: Cause<H, D, MK::Signature>,
)
    requires
        stand.todo.len() == 0,
    ensures
        stand.awaits(cause) <==> match cause {
            Cause::Started => stand.phase is New,
            Cause::Told => stand.phase is Handled,
            Cause::Handled(_) => stand.phase is Started || (stand.phase is Told
                && !stand.state.exiting),
            _ => false,
        },
{
}

/// What a step leads to is performed next: before what was left to do where an action was performed, and
/// alone otherwise. The state is the one that the step leads to. Performing actions is no progress with
/// the event; starting, handling an event and telling of new units are.
pub proof fn law_next_to_do<H: Hasher, D: Data, MK: MultiKeychain<H>>(
    stand: Stand<H, D, MK>,
    moment: Moment<H, D, MK>,
)
    requires
        stand.awaits(moment.0),
    ensures
        ({
            let after = stand.next(moment);
            let more = moment.1.1;
            let left = if stand.todo.len() > 0 {
                stand.todo.len() - 1
            } else {
                0
            };
            &&& after.state == moment.1.0
            &&& after.todo.len() == more.len() + left
            &&& forall|i: int| 0 <= i < more.len() ==> #[trigger] after.todo[i] == more[i]
            &&& forall|i: int|
                0 <= i < left ==> after.todo[more.len() + i] == #[trigger] stand.todo[i + 1]
            &&& after.phase == match moment.0 {
                Cause::Started => Phase::Started,
                Cause::Handled(_) => Phase::Handled,
                Cause::Told => Phase::Told,
                _ => stand.phase,
            }
        }),
{
}

proof fn lemma_split_first<H: Hasher, D: Data, S: Signature>(actions: Seq<ActionView<H, D, S>>)
    requires
        actions.len() > 0,
    ensures
        actions == seq![actions.first()] + actions.drop_first(),
{
}

/// In a run, each action is performed once: what was performed and what has still to be are, in some
/// order, the actions that the steps led to.
pub proof fn law_run_performs_all<H: Hasher, D: Data, MK: MultiKeychain<H>>(
    start: RunwayModel<H, D, MK>,
    life: Seq<Moment<H, D, MK>>,
)
    requires
        is_run(start, life),
    ensures
        (performed(start, life) + stand_after(start, life).todo).to_multiset() == all_actions(
            life,
        ).to_multiset(),
    decreases life.len(),
{
    if life.len() == 0 {
        assert(performed(start, life) + stand_after(start, life).todo =~= all_actions(life));
    } else {
        let fewer = life.drop_last();
        let earlier = stand_after(start, fewer);
        let done = performed(start, fewer);
        let more = life.last().1.1;
        law_run_performs_all(start, fewer);
        vstd::seq_lib::lemma_multiset_commutative(done, earlier.todo);
        vstd::seq_lib::lemma_multiset_commutative(all_actions(fewer), more);
        if earlier.todo.len() > 0 {
            let first = earlier.todo.first();
            let rest = earlier.todo.drop_first();
            lemma_split_first(earlier.todo);
            vstd::seq_lib::lemma_multiset_commutative(seq![first], rest);
            vstd::seq_lib::lemma_multiset_commutative(done, seq![first]);
            assert(done.push(first) =~= done + seq![first]);
            vstd::seq_lib::lemma_multiset_commutative(done.push(first), more + rest);
            vstd::seq_lib::lemma_multiset_commutative(more, rest);
        } else {
            assert(done + earlier.todo =~= done);
            vstd::seq_lib::lemma_multiset_commutative(done, more);
        }
    }
}

/// The request for the newest unit of this node.
pub open spec fn newest_request<H: Hasher, D: Data, MK: MultiKeychain<H>>(
    start: RunwayModel<H, D, MK>,
) -> ActionView<H, D, MK::Signature> {
    ActionView::Request(Request::NewestUnit(start.salt), Recipient::Everyone)
}

/// What follows from an action is little: an answer that was to be signed, or, once the starting
/// round was told, that the request for the newest unit needs no repeating.
proof fn lemma_follows<H: Hasher, D: Data, MK: MultiKeychain<H>>(
    before: RunwayModel<H, D, MK>,
    moment: Moment<H, D, MK>,
    action: ActionView<H, D, MK::Signature>,
)
    requires
        comes_from(before, moment.0, action),
        transition(before, moment),
    ensures
        starts(moment.1.1).len() == 0,
        new_units(moment.1.1).len() == 0,
        requested_newest(moment.1.1).len() == 0,
        resolved_newest(moment.1.1).len() <= starts(seq![action]).len(),
        forall|i: int|
            0 <= i < resolved_newest(moment.1.1).len() ==> #[trigger] resolved_newest(moment.1.1)[i]
                == before.salt,
        action is Request || action is NewUnits ==> moment.1.1.len() == 0,
{
    lemma_one(action);
    if moment.1.1.len() > 0 {
        lemma_one(moment.1.1[0]);
        assert(moment.1.1 =~= seq![moment.1.1[0]]);
    }
}

/// What holds of the order of the steps at every point of a run.
spec fn in_order<H: Hasher, D: Data, MK: MultiKeychain<H>>(
    start: RunwayModel<H, D, MK>,
    life: Seq<Moment<H, D, MK>>,
) -> bool {
    let stand = stand_after(start, life);
    let done = performed(start, life);
    let all = all_actions(life);
    let asked = seq![(start.salt, Recipient::Everyone)];
    &&& (stand.phase is New) == (life.len() == 0)
    &&& life.len() > 0 ==> {
        &&& life[0].0 is Started
        &&& all.len() > 0
        &&& all[0] == newest_request(start)
        &&& requested_newest(all) == asked
        &&& if done.len() == 0 {
            stand.phase is Started && stand.todo == seq![newest_request(start)]
        } else {
            &&& done[0] == newest_request(start)
            &&& requested_newest(done) == asked
            &&& requested_newest(stand.todo).len() == 0
        }
    }
    &&& new_units(done).len() + new_units(stand.todo).len() == new_units(all).len()
    &&& n_events(life) == new_units(all).len() + if stand.phase is Handled {
        1nat
    } else {
        0nat
    }
    &&& stand.phase is Started ==> n_events(life) == 0
    &&& stand.phase is Told ==> {
        ||| stand.todo.len() == 1 && stand.todo[0] is NewUnits
        ||| stand.todo.len() == 0 && done.len() > 0 && done.last() is NewUnits
    }
    &&& resolved_newest(all).len() + starts(stand.todo).len() <= starts(all).len()
    &&& forall|i: int|
        0 <= i < resolved_newest(all).len() ==> #[trigger] resolved_newest(all)[i] == start.salt
}

proof fn lemma_in_order<H: Hasher, D: Data, MK: MultiKeychain<H>>(
    start: RunwayModel<H, D, MK>,
    life: Seq<Moment<H, D, MK>>,
)
    requires
        is_run(start, life),
    ensures
        in_order(start, life),
    decreases life.len(),
{
    if life.len() > 0 {
        let fewer = life.drop_last();
        let earlier = stand_after(start, fewer);
        let before = earlier.state;
        let done = performed(start, fewer);
        let more = life.last().1.1;
        lemma_in_order(start, fewer);
        law_run_is_life(start, fewer);
        law_whole_life(start, fewer);
        lemma_append(all_actions(fewer), more);
        if fewer.len() > 0 {
            assert(life[0] == fewer[0]);
        }
        if earlier.todo.len() > 0 {
            let first = earlier.todo.first();
            let rest = earlier.todo.drop_first();
            lemma_follows(before, life.last(), first);
            lemma_split_first(earlier.todo);
            lemma_append(seq![first], rest);
            lemma_append(more, rest);
            lemma_append(done, seq![first]);
            lemma_one(first);
            assert(done.push(first) =~= done + seq![first]);
        } else if earlier.phase is New {
            lemma_one(newest_request(start));
        } else if earlier.phase is Handled {
            lemma_one(more[0]);
            assert(more =~= seq![more[0]]);
        } else {
            let event = life.last().0->Handled_0;
            law_event_says(before, event, life.last().1);
            lemma_none_apart(more);
        }
    }
}

/// In a run, the first action of all is the request to everyone for the newest unit of this node. It
/// is performed before any event is handled, and no other request for a newest unit is made.
pub proof fn law_newest_requested_first<H: Hasher, D: Data, MK: MultiKeychain<H>>(
    start: RunwayModel<H, D, MK>,
    life: Seq<Moment<H, D, MK>>,
)
    requires
        is_run(start, life),
        life.len() > 0,
    ensures
        life[0].0 is Started,
        all_actions(life).len() > 0,
        all_actions(life)[0] == newest_request(start),
        requested_newest(all_actions(life)) == seq![(start.salt, Recipient::Everyone)],
        performed(start, life).len() > 0 ==> {
            &&& performed(start, life)[0] == newest_request(start)
            &&& requested_newest(performed(start, life)) == seq![
                (start.salt, Recipient::Everyone),
            ]
        },
        n_events(life) > 0 ==> performed(start, life).len() > 0,
{
    lemma_in_order(start, life);
}

/// In a run, there are as many notifications of new units as there were events, but for the event
/// that is being handled. The notification is the last action that is performed on an event.
pub proof fn law_new_units_each_event<H: Hasher, D: Data, MK: MultiKeychain<H>>(
    start: RunwayModel<H, D, MK>,
    life: Seq<Moment<H, D, MK>>,
)
    requires
        is_run(start, life),
    ensures
        n_events(life) == new_units(all_actions(life)).len() + if stand_after(
            start,
            life,
        ).phase is Handled {
            1nat
        } else {
            0nat
        },
        new_units(performed(start, life)).len() + new_units(stand_after(start, life).todo).len()
            == new_units(all_actions(life)).len(),
        stand_after(start, life).phase is Told ==> {
            let todo = stand_after(start, life).todo;
            let done = performed(start, life);
            ||| todo.len() == 1 && todo[0] is NewUnits
            ||| todo.len() == 0 && done.len() > 0 && done.last() is NewUnits
        },
{
    lemma_in_order(start, life);
}

/// In a run, when the ordering part is told of new units, everything that led up to it has been
/// performed, and what it is told of are the units that are buffered then.
pub proof fn law_new_units_told_last<H: Hasher, D: Data, MK: MultiKeychain<H>>(
    start: RunwayModel<H, D, MK>,
    life: Seq<Moment<H, D, MK>>,
)
    requires
        is_run(start, life),
        life.len() > 0,
        life.last().0 is Told,
    ensures
        performed(start, life) == performed(start, life.drop_last()),
        performed(start, life).to_multiset() == all_actions(life.drop_last()).to_multiset(),
        stand_after(start, life).todo == state_after(
            start,
            life.drop_last(),
        ).move_units_to_consensus().1,
{
    let fewer = life.drop_last();
    law_run_is_life(start, fewer);
    law_run_performs_all(start, fewer);
    assert(performed(start, fewer) + stand_after(start, fewer).todo =~= performed(start, fewer));
}

/// In a run, the request for the newest unit is said to need no repeating at most as often as the
/// starting round is told, which is at most once.
pub proof fn law_newest_resolved_once<H: Hasher, D: Data, MK: MultiKeychain<H>>(
    start: RunwayModel<H, D, MK>,
    life: Seq<Moment<H, D, MK>>,
)
    requires
        is_run(start, life),
    ensures
        resolved_newest(all_actions(life)).len() <= starts(all_actions(life)).len(),
        starts(all_actions(life)).len() <= 1,
        forall|i: int|
            0 <= i < resolved_newest(all_actions(life)).len() ==> #[trigger] resolved_newest(
                all_actions(life),
            )[i] == start.salt,
{
    lemma_in_order(start, life);
    law_run_is_life(start, life);
    law_whole_life(start, life);
}

} // verus!
