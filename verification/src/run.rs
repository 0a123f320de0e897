//! The order in which a node starts, handles events and performs actions.

use crate::life::{Cause, Moment};
use crate::messages::{views, Action, ActionView, Delivery, Event, Recipient, Request};
use crate::model::{Actions, RunwayModel};
use crate::runway::Runway;
use crate::traits::{Data, Hasher, MultiKeychain, Signature};
use crate::units::{NewestUnitResponse, Signed, SignedUnit};
use vstd::prelude::*;

verus! {

/// What a node did last besides performing actions.
#[derive(Clone, Copy, Debug, PartialEq, Eq, Structural)]
pub enum Phase {
    /// Nothing.
    New,
    /// It started.
    Started,
    /// It handled an event.
    Handled,
    /// It told the ordering part of the units that the event brought.
    Told,
}

/// Where a node stands in a run: its state, the actions that it has still to perform, and what it
/// did last.
#[verifier::ext_equal]
#[verifier::reject_recursive_types(H)]
#[verifier::reject_recursive_types(D)]
#[verifier::reject_recursive_types(MK)]
pub struct Stand<H: Hasher, D: Data, MK: MultiKeychain<H>> {
    pub state: RunwayModel<H, D, MK>,
    pub todo: Actions<H, D, MK>,
    pub phase: Phase,
}

/// Whether a step can come from performing an action: a created unit is made of what was to be
/// created, a signed answer is the one that was to be signed, and of any other action it becomes
/// known whether it was delivered.
pub open spec fn comes_from<H: Hasher, D: Data, MK: MultiKeychain<H>>(
    model: RunwayModel<H, D, MK>,
    cause: Cause<H, D, MK::Signature>,
    action: ActionView<H, D, MK::Signature>,
) -> bool {
    match action {
        ActionView::CreateUnit(pre_unit) => {
            &&& cause matches Cause::Created(unit)
            &&& unit.signable().spec_pre_unit() == pre_unit
            &&& unit.signable().spec_session_id() == model.session_id
            &&& unit.signable().spec_hash() == unit.signable().content_hash()
        },
        ActionView::SignNewest(response) => {
            &&& cause matches Cause::Signed(signed)
            &&& signed.signable() == response
        },
        _ => {
            &&& cause matches Cause::Performed(delivery, _)
            &&& delivery == action.delivery()
        },
    }
}

impl<H: Hasher, D: Data, MK: MultiKeychain<H>> Stand<H, D, MK> {
    /// Where a node stands that has not started.
    pub open spec fn new(start: RunwayModel<H, D, MK>) -> Self {
        Stand { state: start, todo: Seq::empty(), phase: Phase::New }
    }

    /// Whether a step is next. As long as there are actions to perform, it comes from the first of
    /// them. When there are none, a node starts, once. After that it handles an event, tells the
    /// ordering part of the units that the event brought, and goes on to the next event, unless it
    /// has decided to stop.
    pub open spec fn awaits(self, cause: Cause<H, D, MK::Signature>) -> bool {
        if self.todo.len() > 0 {
            comes_from(self.state, cause, self.todo.first())
        } else {
            match self.phase {
                Phase::New => cause is Started,
                Phase::Started => cause is Handled,
                Phase::Handled => cause is Told,
                Phase::Told => cause is Handled && !self.state.exiting,
            }
        }
    }

    /// Where the node stands after a step. What follows from an action is performed before the other
    /// actions.
    pub open spec fn next(self, moment: Moment<H, D, MK>) -> Self {
        let (state, actions) = moment.1;
        if self.todo.len() > 0 {
            Stand { state, todo: actions + self.todo.drop_first(), phase: self.phase }
        } else {
            let phase = match self.phase {
                Phase::New => Phase::Started,
                Phase::Handled => Phase::Told,
                _ => Phase::Handled,
            };
            Stand { state, todo: actions, phase }
        }
    }
}

/// What came of an action.
pub enum Outcome<H: Hasher, D: Data, S: Signature> {
    /// It was delivered, or it was not.
    Delivered(bool),
    /// The unit was created and signed.
    Created(SignedUnit<H, D, S>),
    /// The answer was signed.
    Signed(Signed<NewestUnitResponse<H, D, S>, S>),
}

/// The step that an outcome of an action leads to.
pub open spec fn outcome_step<H: Hasher, D: Data, MK: MultiKeychain<H>>(
    model: RunwayModel<H, D, MK>,
    action: ActionView<H, D, MK::Signature>,
    outcome: Outcome<H, D, MK::Signature>,
) -> Moment<H, D, MK> {
    match outcome {
        Outcome::Delivered(delivered) => (
            Cause::Performed(action.delivery(), delivered),
            model.on_delivery(action.delivery(), delivered),
        ),
        Outcome::Created(unit) => (
            Cause::Created(unit),
            (model.on_unit_created(unit), Seq::empty()),
        ),
        Outcome::Signed(response) => (
            Cause::Signed(response),
            (model, model.on_newest_signed(response)),
        ),
    }
}

/// What a node does next.
pub enum Next<H: Hasher, D: Data, S: Signature> {
    /// It performs an action.
    Perform(Action<H, D, S>),
    /// It waits for an event.
    Await,
    /// It stops.
    Stop,
}

/// The contents of a stack of actions, from its top down.
spec fn from_top<H: Hasher, D: Data, S: Signature>(stack: Seq<Action<H, D, S>>) -> Seq<
    ActionView<H, D, S>,
> {
    views(stack.reverse())
}

proof fn lemma_from_top<H: Hasher, D: Data, S: Signature>(
    stack: Seq<Action<H, D, S>>,
    action: Action<H, D, S>,
)
    ensures
        from_top(stack.push(action)) == seq![action@] + from_top(stack),
{
    assert(stack.push(action).reverse() =~= seq![action] + stack.reverse());
    assert(from_top(stack.push(action)) =~= seq![action@] + from_top(stack));
}

/// Puts actions on top of a stack, the first of them topmost.
fn put_on_top<H: Hasher, D: Data, S: Signature>(
    stack: &mut Vec<Action<H, D, S>>,
    actions: Vec<Action<H, D, S>>,
)
    ensures
        from_top(final(stack)@) == views(actions@) + from_top(old(stack)@),
{
    let mut left = actions;
    assert(views(actions@.skip(actions@.len() as int)) + from_top(stack@) =~= from_top(stack@));
    while left.len() > 0
        invariant
            left@.len() <= actions@.len(),
            left@ == actions@.take(left@.len() as int),
            from_top(stack@) == views(actions@.skip(left@.len() as int)) + from_top(old(stack)@),
        decreases left@.len(),
    {
        let ghost before = left@;
        let ghost stacked = stack@;
        if let Some(action) = left.pop() {
            stack.push(action);
            proof {
                lemma_from_top(stacked, action);
                assert(action == actions@[left@.len() as int]);
                assert(left@ =~= actions@.take(left@.len() as int));
                assert(views(actions@.skip(left@.len() as int)) =~= seq![action@] + views(
                    actions@.skip(before.len() as int),
                ));
                assert(from_top(stack@) =~= views(actions@.skip(left@.len() as int)) + from_top(
                    old(stack)@,
                ));
            }
        }
    }
    assert(actions@.skip(0) =~= actions@);
}

/// A run of a node: its unit handling, and what it has still to do.
#[verifier::reject_recursive_types(H)]
#[verifier::reject_recursive_types(D)]
#[verifier::reject_recursive_types(MK)]
pub struct Run<'a, H: Hasher, D: Data, MK: MultiKeychain<H>> {
    runway: Runway<'a, H, D, MK>,
    /// The actions that have not been handed out, the next one last.
    left: Vec<Action<H, D, MK::Signature>>,
    /// What hangs on the action that has been handed out and whose outcome is not known.
    pending: Option<Delivery>,
    /// That action.
    action: Ghost<ActionView<H, D, MK::Signature>>,
    phase: Phase,
}

impl<'a, H: Hasher, D: Data, MK: MultiKeychain<H>> View for Run<'a, H, D, MK> {
    type V = Stand<H, D, MK>;

    closed spec fn view(&self) -> Stand<H, D, MK> {
        Stand {
            state: self.runway@,
            todo: if self.pending is Some {
                seq![self.action@] + from_top(self.left@)
            } else {
                from_top(self.left@)
            },
            phase: self.phase,
        }
    }
}

impl<'a, H: Hasher, D: Data, MK: MultiKeychain<H>> Run<'a, H, D, MK> {
    /// The unit handling is in order, and the node has started.
    pub closed spec fn wf(&self) -> bool {
        &&& self.runway.wf()
        &&& self.phase != Phase::New
        &&& self.pending matches Some(delivery) ==> delivery == self.action@.delivery()
    }

    /// Whether an action has been handed out whose outcome is not known.
    pub closed spec fn is_pending(&self) -> bool {
        self.pending is Some
    }

    /// A node starts.
    pub fn new(runway: Runway<'a, H, D, MK>) -> (run: Self)
        requires
            runway.wf(),
        ensures
            run.wf(),
            !run.is_pending(),
            run@ == Stand::new(runway@).next((Cause::Started, (runway@, runway@.on_start()))),
            run@.state == runway@,
            run@.todo == seq![
                ActionView::<H, D, MK::Signature>::Request(
                    Request::NewestUnit(runway@.salt),
                    Recipient::Everyone,
                ),
            ],
            run@.phase is Started,
    {
        let mut left: Vec<Action<H, D, MK::Signature>> = Vec::new();
        let start = runway.on_start();
        assert(views(start@) + from_top(left@) =~= views(start@));
        put_on_top(&mut left, start);
        Run {
            runway,
            left,
            pending: None,
            action: Ghost(runway@.on_start().first()),
            phase: Phase::Started,
        }
    }

    /// The unit handling.
    pub fn runway(&self) -> (runway: &Runway<'a, H, D, MK>)
        requires
            self.wf(),
        ensures
            runway.wf(),
            runway@ == self@.state,
    {
        &self.runway
    }

    /// What the node does next. Actions come first. After those of an event the ordering part is told
    /// of the units that the event brought. When that is done the node waits for an event, unless it
    /// has decided to stop.
    pub fn next(&mut self) -> (next: Next<H, D, MK::Signature>)
        requires
            old(self).wf(),
            !old(self).is_pending(),
        ensures
            final(self).wf(),
            final(self)@ == if old(self)@.todo.len() == 0 && old(self)@.phase is Handled {
                old(self)@.next((Cause::Told, old(self)@.state.move_units_to_consensus()))
            } else {
                old(self)@
            },
            match next {
                Next::Perform(action) => {
                    &&& final(self).is_pending()
                    &&& final(self)@.todo.len() > 0
                    &&& action@ == final(self)@.todo.first()
                },
                Next::Await => {
                    &&& !final(self).is_pending()
                    &&& final(self)@.todo.len() == 0
                    &&& final(self)@.phase is Started || (final(self)@.phase is Told
                        && !final(self)@.state.exiting)
                },
                Next::Stop => {
                    &&& !final(self).is_pending()
                    &&& final(self)@.todo.len() == 0
                    &&& final(self)@.phase is Told
                    &&& final(self)@.state.exiting
                },
            },
    {
        if self.left.len() == 0 && self.phase == Phase::Handled {
            let told = self.runway.move_units_to_consensus();
            assert(views(told@) + from_top(self.left@) =~= views(told@));
            put_on_top(&mut self.left, told);
            self.phase = Phase::Told;
        }
        let ghost stand = self@;
        let ghost stack = self.left@;
        match self.left.pop() {
            Some(action) => {
                proof {
                    assert(stack =~= self.left@.push(action));
                    lemma_from_top(self.left@, action);
                }
                self.pending = Some(action.delivery());
                self.action = Ghost(action@);
                assert(self@ =~= stand);
                Next::Perform(action)
            },
            None => if self.phase == Phase::Told && self.runway.exiting() {
                Next::Stop
            } else {
                Next::Await
            },
        }
    }

    /// The outcome of the action that has been handed out, which fits it, becomes known. What follows
    /// from it is performed before the other actions.
    pub fn on_outcome(&mut self, outcome: Outcome<H, D, MK::Signature>)
        requires
            old(self).wf(),
            old(self).is_pending(),
            comes_from(
                old(self)@.state,
                outcome_step(old(self)@.state, old(self)@.todo.first(), outcome).0,
                old(self)@.todo.first(),
            ),
        ensures
            final(self).wf(),
            !final(self).is_pending(),
            final(self)@ == old(self)@.next(
                outcome_step(old(self)@.state, old(self)@.todo.first(), outcome),
            ),
    {
        let ghost stack = self.left@;
        if let Some(delivery) = self.pending {
            let actions = match outcome {
                Outcome::Delivered(delivered) => self.runway.on_delivery(delivery, delivered),
                Outcome::Created(unit) => {
                    self.runway.on_unit_created(unit);
                    Vec::new()
                },
                Outcome::Signed(response) => self.runway.on_newest_signed(response),
            };
            put_on_top(&mut self.left, actions);
            self.pending = None;
            assert(old(self)@.todo.drop_first() =~= from_top(stack));
            assert(old(self)@.todo.first() == old(self).action@);
        }
    }

    /// Tells whether an event can be handled.
    pub fn can_handle(&self, event: &Event<H, D, MK::Signature>) -> (can: bool)
        requires
            self.wf(),
        ensures
            can == self@.state.can_handle(*event),
    {
        self.runway.can_handle(event)
    }

    /// An event comes in. Tells whether the node goes on: where a stream was closed it does not.
    pub fn on_event(&mut self, event: Event<H, D, MK::Signature>) -> (goes_on: bool)
        requires
            old(self).wf(),
            !old(self).is_pending(),
            old(self)@.awaits(Cause::Handled(event)),
            old(self)@.state.can_handle(event),
        ensures
            final(self).wf(),
            !final(self).is_pending(),
            if goes_on {
                let step = (final(self)@.state, final(self)@.todo);
                &&& old(self)@.state.handles(event, Some(step))
                &&& final(self)@ == old(self)@.next((Cause::Handled(event), step))
            } else {
                &&& old(self)@.state.handles(event, None)
                &&& final(self)@ == old(self)@
            },
    {
        match self.runway.on_event(event) {
            Some(actions) => {
                let ghost stack = self.left@;
                put_on_top(&mut self.left, actions);
                self.phase = Phase::Handled;
                assert(views(actions@) + from_top(stack) =~= views(actions@));
                true
            },
            None => false,
        }
    }
}

} // verus!
