//! Laws on how a node finds the round to start from.

use crate::actions::{law_event_counts, starts};
use crate::life::{all_actions, is_life, state_after, Cause, Moment};
use crate::messages::{Event, Response, RunwayNotificationIn};
use crate::model::RunwayModel;
use crate::runway::{Runway, RunwayConfig};
use crate::step_laws::law_whole_life;
use crate::traits::{Data, Hasher, MultiKeychain};
use crate::units::{NewestUnitResponse, Signed};
use vstd::prelude::*;

verus! {

/// The nodes, by number, that gave an answer to the request for the newest unit that counted.
pub open spec fn answerers<H: Hasher, D: Data, MK: MultiKeychain<H>>(
    start: RunwayModel<H, D, MK>,
    life: Seq<Moment<H, D, MK>>,
) -> Set<usize>
    decreases life.len(),
{
    if life.len() == 0 {
        Set::empty()
    } else {
        let earlier = answerers(start, life.drop_last());
        match life.last().0 {
            Cause::Handled(
                Event::Network(
                    Some(RunwayNotificationIn::Response(Response::NewestUnit(response))),
                ),
            ) if state_after(start, life.drop_last()).newest_counts(response) => earlier.insert(
                response.signable().responder.0,
            ),
            _ => earlier,
        }
    }
}

/// Whether the time for answers ended in some step.
pub open spec fn delay_ended<H: Hasher, D: Data, MK: MultiKeychain<H>>(
    life: Seq<Moment<H, D, MK>>,
) -> bool {
    exists|k: int|
        0 <= k < life.len() && (#[trigger] life[k]).0 == Cause::<H, D, MK::Signature>::Handled(
            Event::CatchUpDelay,
        )
}

/// Another answer that counts from a node that has answered already adds nobody to those who have.
pub proof fn law_answerer_counted_once<H: Hasher, D: Data, MK: MultiKeychain<H>>(
    before: RunwayModel<H, D, MK>,
    response: Signed<NewestUnitResponse<H, D, MK::Signature>, MK::Signature>,
)
    requires
        before.newest_unit_responders.contains(response.signable().responder.0),
    ensures
        before.on_newest_response(response).0.newest_unit_responders
            == before.newest_unit_responders,
{
    assert(before.newest_unit_responders.insert(response.signable().responder.0)
        =~= before.newest_unit_responders);
}

/// Over the whole life of a new node, those who have answered are the nodes that gave an answer that
/// counted, each once however often it answered, and the time for answers is over exactly where it
/// ended in some step.
pub proof fn law_answerers_counted<'a, H: Hasher, D: Data, MK: MultiKeychain<H>>(
    config: RunwayConfig<'a, MK>,
    life: Seq<Moment<H, D, MK>>,
)
    requires
        is_life(Runway::<'a, H, D, MK>::initial(config), life),
    ensures
        ({
            let start = Runway::<'a, H, D, MK>::initial(config);
            let state = state_after(start, life);
            &&& state.newest_unit_responders == answerers(start, life)
            &&& answerers(start, life).finite()
            &&& state.after_catch_up_delay == delay_ended(life)
        }),
    decreases life.len(),
{
    if life.len() > 0 {
        let start = Runway::<'a, H, D, MK>::initial(config);
        let earlier = life.drop_last();
        law_answerers_counted::<H, D, MK>(config, earlier);
        if let Cause::Handled(event) = life.last().0 {
            law_event_counts(state_after(start, earlier), event, life.last().1);
        }
        assert(life[life.len() - 1] == life.last());
        if delay_ended(earlier) {
            let k = choose|k: int|
                0 <= k < earlier.len() && (#[trigger] earlier[k]).0 == Cause::<
                    H,
                    D,
                    MK::Signature,
                >::Handled(Event::CatchUpDelay);
            assert(life[k] == earlier[k]);
        }
        if delay_ended(life) && !(life.last().0 == Cause::<H, D, MK::Signature>::Handled(
            Event::CatchUpDelay,
        )) {
            let k = choose|k: int|
                0 <= k < life.len() && (#[trigger] life[k]).0 == Cause::<
                    H,
                    D,
                    MK::Signature,
                >::Handled(Event::CatchUpDelay);
            assert(earlier[k] == life[k]);
        }
    }
}

/// Over the whole life of a new node, the starting round is told only after the time for answers is
/// over and after a quorum, this node being part of it, has answered. However often fewer nodes
/// answer, it is not told.
pub proof fn law_starting_round_needs_quorum<'a, H: Hasher, D: Data, MK: MultiKeychain<H>>(
    config: RunwayConfig<'a, MK>,
    life: Seq<Moment<H, D, MK>>,
)
    requires
        is_life(Runway::<'a, H, D, MK>::initial(config), life),
    ensures
        ({
            let start = Runway::<'a, H, D, MK>::initial(config);
            let ready = delay_ended(life) && answerers(start, life).len() + 1 >= start.threshold.0;
            &&& starts(all_actions(life)).len() == if ready {
                1nat
            } else {
                0nat
            }
            &&& state_after(start, life).starting_round_sent == ready
        }),
{
    law_answerers_counted::<H, D, MK>(config, life);
    law_whole_life(Runway::<'a, H, D, MK>::initial(config), life);
}

} // verus!
