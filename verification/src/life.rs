//! The steps that a node makes, and the lives that they add up to.

use crate::messages::{Delivery, Event};
use crate::model::{Actions, RunwayModel, Step};
use crate::traits::{Data, Hasher, MultiKeychain, Signature};
use crate::units::{NewestUnitResponse, Signed, SignedUnit};
use vstd::prelude::*;

verus! {

/// What a step of a node comes from.
pub enum Cause<H: Hasher, D: Data, S: Signature> {
    /// The node starts.
    Started,
    /// An event is handled.
    Handled(Event<H, D, S>),
    /// A unit of this node has been created and signed.
    Created(SignedUnit<H, D, S>),
    /// An answer to a request for a newest unit has been signed.
    Signed(Signed<NewestUnitResponse<H, D, S>, S>),
    /// It has become known whether an action was delivered.
    Performed(Delivery, bool),
    /// The ordering part is told of the buffered units.
    Told,
}

/// A step and what it comes from.
pub type Moment<H, D, MK> = (Cause<H, D, <MK as MultiKeychain<H>>::Signature>, Step<H, D, MK>);

/// Whether a step is one that a node makes for a cause.
pub open spec fn transition<H: Hasher, D: Data, MK: MultiKeychain<H>>(
    before: RunwayModel<H, D, MK>,
    moment: Moment<H, D, MK>,
) -> bool {
    let step = moment.1;
    match moment.0 {
        Cause::Started => step == (before, before.on_start()),
        Cause::Handled(event) => before.can_handle(event) && before.handles(event, Some(step)),
        Cause::Created(unit) => step.0 == before.on_unit_created(unit) && step.1.len() == 0,
        Cause::Signed(response) => step == (before, before.on_newest_signed(response)),
        Cause::Performed(delivery, delivered) => step == before.on_delivery(delivery, delivered),
        Cause::Told => step == before.move_units_to_consensus(),
    }
}

/// The state after some steps.
pub open spec fn state_after<H: Hasher, D: Data, MK: MultiKeychain<H>>(
    start: RunwayModel<H, D, MK>,
    life: Seq<Moment<H, D, MK>>,
) -> RunwayModel<H, D, MK> {
    if life.len() == 0 {
        start
    } else {
        life.last().1.0
    }
}

/// The actions of some steps, one after the other.
pub open spec fn all_actions<H: Hasher, D: Data, MK: MultiKeychain<H>>(
    life: Seq<Moment<H, D, MK>>,
) -> Actions<H, D, MK>
    decreases life.len(),
{
    if life.len() == 0 {
        Seq::empty()
    } else {
        all_actions(life.drop_last()) + life.last().1.1
    }
}

/// Whether each step is one that a node can make in the state that the steps before it lead to.
pub open spec fn is_life<H: Hasher, D: Data, MK: MultiKeychain<H>>(
    start: RunwayModel<H, D, MK>,
    life: Seq<Moment<H, D, MK>>,
) -> bool
    decreases life.len(),
{
    life.len() > 0 ==> {
        &&& is_life(start, life.drop_last())
        &&& transition(state_after(start, life.drop_last()), life.last())
    }
}

} // verus!
