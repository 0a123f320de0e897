//! What the unit handling of a node is told and what it tells the other parts of the node.

use crate::nodes::NodeIndex;
use crate::traits::{Data, Hasher, Signature};
use crate::units::{NewestUnitResponse, PreUnit, Round, Signed, SignedUnit, Unit, UnitCoord, UnitView};
use vstd::prelude::*;
use vstd::std_specs::convert::{TryFromSpec, TryFromSpecImpl};

verus! {

/// Which nodes a message goes to.
#[derive(Clone, Copy, Debug, PartialEq, Eq, Structural)]
pub enum Recipient {
    Everyone,
    Node(NodeIndex),
}

/// Notifications for the ordering part of the node.
pub enum NotificationIn<H: Hasher> {
    /// Units that it has not been told of.
    NewUnits(Vec<Unit<H>>),
    /// The parents of a unit whose control hash did not fit the parents that it had chosen.
    UnitParents(H::Hash, Vec<H::Hash>),
}

/// Notifications from the ordering part of the node.
pub enum NotificationOut<H: Hasher> {
    /// A unit of this node, with the hashes of its parents, is to be spread.
    CreatedPreUnit(PreUnit<H>, Vec<H::Hash>),
    /// Units at these places are needed and missing.
    MissingUnits(Vec<UnitCoord>),
    /// The control hash of this unit does not fit the parents that are known.
    WrongControlHash(H::Hash),
    /// This unit was added to the DAG with these parents.
    AddedToDag(H::Hash, Vec<H::Hash>),
}

/// A request to other nodes.
pub enum Request<H: Hasher> {
    /// For the unit at a place.
    Coord(UnitCoord),
    /// For the parents of a unit.
    Parents(H::Hash),
    /// For the newest unit of the node that asks; the salt tells its requests apart.
    NewestUnit(u64),
}

/// An answer to a request.
pub enum Response<H: Hasher, D: Data, S: Signature> {
    Coord(SignedUnit<H, D, S>),
    Parents(H::Hash, Vec<SignedUnit<H, D, S>>),
    NewestUnit(Signed<NewestUnitResponse<H, D, S>, S>),
}

/// What goes out to the network.
pub enum RunwayNotificationOut<H: Hasher, D: Data, S: Signature> {
    NewUnit(SignedUnit<H, D, S>),
    Request(Request<H>, Recipient),
    Response(Response<H, D, S>, NodeIndex),
}

/// What comes in from the network.
pub enum RunwayNotificationIn<H: Hasher, D: Data, S: Signature> {
    NewUnit(SignedUnit<H, D, S>),
    Request(Request<H>, NodeIndex),
    Response(Response<H, D, S>),
}

/// A message about units, as the nodes exchange it.
pub enum UnitMessage<H: Hasher, D: Data, S: Signature> {
    NewUnit(SignedUnit<H, D, S>),
    RequestCoord(NodeIndex, UnitCoord),
    ResponseCoord(SignedUnit<H, D, S>),
    RequestParents(NodeIndex, H::Hash),
    ResponseParents(H::Hash, Vec<SignedUnit<H, D, S>>),
    RequestNewest(NodeIndex, u64),
    ResponseNewest(Signed<NewestUnitResponse<H, D, S>, S>),
}

impl<H: Hasher, D: Data, S: Signature> TryFrom<UnitMessage<H, D, S>>
    for RunwayNotificationIn<H, D, S> {
    type Error = ();

    fn try_from(message: UnitMessage<H, D, S>) -> (result: Result<Self, ()>) {
        let result = match message {
            UnitMessage::NewUnit(unit) => RunwayNotificationIn::NewUnit(unit),
            UnitMessage::RequestCoord(node_id, coord) => {
                RunwayNotificationIn::Request(Request::Coord(coord), node_id)
            },
            UnitMessage::RequestParents(node_id, hash) => {
                RunwayNotificationIn::Request(Request::Parents(hash), node_id)
            },
            UnitMessage::ResponseCoord(unit) => {
                RunwayNotificationIn::Response(Response::Coord(unit))
            },
            UnitMessage::ResponseParents(hash, parents) => {
                RunwayNotificationIn::Response(Response::Parents(hash, parents))
            },
            UnitMessage::RequestNewest(node_id, salt) => {
                RunwayNotificationIn::Request(Request::NewestUnit(salt), node_id)
            },
            UnitMessage::ResponseNewest(response) => {
                RunwayNotificationIn::Response(Response::NewestUnit(response))
            },
        };
        Ok(result)
    }
}

impl<H: Hasher, D: Data, S: Signature> TryFromSpecImpl<UnitMessage<H, D, S>>
    for RunwayNotificationIn<H, D, S> {
    open spec fn obeys_try_from_spec() -> bool {
        true
    }

    open spec fn try_from_spec(message: UnitMessage<H, D, S>) -> Result<Self, ()> {
        Ok(
            match message {
                UnitMessage::NewUnit(unit) => RunwayNotificationIn::NewUnit(unit),
                UnitMessage::RequestCoord(node_id, coord) => RunwayNotificationIn::Request(
                    Request::Coord(coord),
                    node_id,
                ),
                UnitMessage::RequestParents(node_id, hash) => RunwayNotificationIn::Request(
                    Request::Parents(hash),
                    node_id,
                ),
                UnitMessage::ResponseCoord(unit) => RunwayNotificationIn::Response(
                    Response::Coord(unit),
                ),
                UnitMessage::ResponseParents(hash, parents) => RunwayNotificationIn::Response(
                    Response::Parents(hash, parents),
                ),
                UnitMessage::RequestNewest(node_id, salt) => RunwayNotificationIn::Request(
                    Request::NewestUnit(salt),
                    node_id,
                ),
                UnitMessage::ResponseNewest(response) => RunwayNotificationIn::Response(
                    Response::NewestUnit(response),
                ),
            },
        )
    }
}

/// Two units that their creator put in one place.
pub type ForkProof<H, D, S> = (SignedUnit<H, D, S>, SignedUnit<H, D, S>);

/// An alert: the proof that a node forked, and the units of that node that the sender vouches for.
pub struct Alert<H: Hasher, D: Data, S: Signature> {
    pub sender: NodeIndex,
    pub proof_of_fork: ForkProof<H, D, S>,
    pub legit_units: Vec<SignedUnit<H, D, S>>,
}

/// Notifications from the part of the node that handles alerts.
pub enum ForkingNotification<H: Hasher, D: Data, S: Signature> {
    /// A proof that a node forked.
    Forker(ForkProof<H, D, S>),
    /// Units of forkers that some node vouched for.
    Units(Vec<SignedUnit<H, D, S>>),
}

/// What the unit handling wants done by what surrounds it.
pub enum Action<H: Hasher, D: Data, S: Signature> {
    /// Hand an alert to the part that handles alerts.
    Alert(Alert<H, D, S>),
    /// Send to the network.
    Network(RunwayNotificationOut<H, D, S>),
    /// Tell the requesting part that a request needs no repeating.
    Resolved(Request<H>),
    /// Notify the ordering part.
    Consensus(NotificationIn<H>),
    /// Tell the creating part which round to start from.
    StartingRound(Round),
    /// Sign an answer to a request for a newest unit.
    SignNewest(NewestUnitResponse<H, D, S>),
    /// Fetch data for a unit of this node, and sign the unit.
    CreateUnit(PreUnit<H>),
    /// Hand ordered data to the user.
    OrderedBatch(Vec<D>),
}

/// The contents of an `Action`.
#[verifier::ext_equal]
pub enum ActionView<H: Hasher, D: Data, S: Signature> {
    Alert(NodeIndex, ForkProof<H, D, S>, Seq<SignedUnit<H, D, S>>),
    NewUnit(SignedUnit<H, D, S>),
    Request(Request<H>, Recipient),
    CoordResponse(SignedUnit<H, D, S>, NodeIndex),
    ParentsResponse(H::Hash, Seq<SignedUnit<H, D, S>>, NodeIndex),
    NewestResponse(Signed<NewestUnitResponse<H, D, S>, S>, NodeIndex),
    Resolved(Request<H>),
    NewUnits(Seq<UnitView<H>>),
    UnitParents(H::Hash, Seq<H::Hash>),
    StartingRound(Round),
    SignNewest(NewestUnitResponse<H, D, S>),
    CreateUnit(PreUnit<H>),
    OrderedBatch(Seq<D>),
}

impl<H: Hasher, D: Data, S: Signature> View for Action<H, D, S> {
    type V = ActionView<H, D, S>;

    open spec fn view(&self) -> ActionView<H, D, S> {
        match *self {
            Action::Alert(alert) => ActionView::Alert(
                alert.sender,
                alert.proof_of_fork,
                alert.legit_units@,
            ),
            Action::Network(RunwayNotificationOut::NewUnit(unit)) => ActionView::NewUnit(unit),
            Action::Network(RunwayNotificationOut::Request(request, recipient)) => {
                ActionView::Request(request, recipient)
            },
            Action::Network(RunwayNotificationOut::Response(response, node_id)) => match response {
                Response::Coord(unit) => ActionView::CoordResponse(unit, node_id),
                Response::Parents(hash, units) => ActionView::ParentsResponse(
                    hash,
                    units@,
                    node_id,
                ),
                Response::NewestUnit(newest) => ActionView::NewestResponse(newest, node_id),
            },
            Action::Resolved(request) => ActionView::Resolved(request),
            Action::Consensus(NotificationIn::NewUnits(units)) => ActionView::NewUnits(
                units@.map_values(|unit: Unit<H>| unit@),
            ),
            Action::Consensus(NotificationIn::UnitParents(hash, parents)) => {
                ActionView::UnitParents(hash, parents@)
            },
            Action::StartingRound(round) => ActionView::StartingRound(round),
            Action::SignNewest(response) => ActionView::SignNewest(response),
            Action::CreateUnit(pre_unit) => ActionView::CreateUnit(pre_unit),
            Action::OrderedBatch(batch) => ActionView::OrderedBatch(batch@),
        }
    }
}

/// The contents of a list of actions.
pub open spec fn views<H: Hasher, D: Data, S: Signature>(actions: Seq<Action<H, D, S>>) -> Seq<
    ActionView<H, D, S>,
> {
    actions.map_values(|action: Action<H, D, S>| action@)
}

/// What hangs on the delivery of an action.
#[derive(Clone, Copy, Debug, PartialEq, Eq, Structural)]
pub enum Delivery {
    /// The node stops where the action cannot be delivered.
    Vital,
    /// Nothing.
    BestEffort,
    /// The node stops where the action cannot be delivered, and has more to do where it was.
    StartingRound,
}

impl<H: Hasher, D: Data, S: Signature> ActionView<H, D, S> {
    /// What hangs on the delivery of the action.
    pub open spec fn delivery(self) -> Delivery {
        match self {
            ActionView::Alert(..) => Delivery::Vital,
            ActionView::NewUnit(..) => Delivery::Vital,
            ActionView::Request(..) => Delivery::Vital,
            ActionView::CoordResponse(..) => Delivery::Vital,
            ActionView::ParentsResponse(..) => Delivery::Vital,
            ActionView::NewestResponse(..) => Delivery::BestEffort,
            ActionView::Resolved(Request::NewestUnit(_)) => Delivery::BestEffort,
            ActionView::Resolved(_) => Delivery::Vital,
            ActionView::NewUnits(..) => Delivery::Vital,
            ActionView::UnitParents(..) => Delivery::Vital,
            ActionView::StartingRound(_) => Delivery::StartingRound,
            ActionView::SignNewest(_) => Delivery::BestEffort,
            ActionView::CreateUnit(_) => Delivery::BestEffort,
            ActionView::OrderedBatch(_) => Delivery::BestEffort,
        }
    }
}

impl<H: Hasher, D: Data, S: Signature> Action<H, D, S> {
    /// Tells what hangs on the delivery of the action.
    pub fn delivery(&self) -> (delivery: Delivery)
        ensures
            delivery == self@.delivery(),
    {
        match self {
            Action::Alert(_) => Delivery::Vital,
            Action::Network(RunwayNotificationOut::Response(Response::NewestUnit(_), _)) => {
                Delivery::BestEffort
            },
            Action::Network(_) => Delivery::Vital,
            Action::Resolved(Request::NewestUnit(_)) => Delivery::BestEffort,
            Action::Resolved(_) => Delivery::Vital,
            Action::Consensus(_) => Delivery::Vital,
            Action::StartingRound(_) => Delivery::StartingRound,
            Action::SignNewest(_) => Delivery::BestEffort,
            Action::CreateUnit(_) => Delivery::BestEffort,
            Action::OrderedBatch(_) => Delivery::BestEffort,
        }
    }
}

/// What the unit handling waits for. `None` stands for a stream that was closed.
pub enum Event<H: Hasher, D: Data, S: Signature> {
    Consensus(Option<NotificationOut<H>>),
    Alerter(Option<ForkingNotification<H, D, S>>),
    Network(Option<RunwayNotificationIn<H, D, S>>),
    OrderedBatch(Option<Vec<H::Hash>>),
    /// The time for hearing of this node's own units is over.
    CatchUpDelay,
    Exit,
}

/// A message of another node is taken for what it says: a spread unit for a spread unit, a request for a
/// request of the node that asks, and an answer for an answer.
pub proof fn law_message_taken_as<H: Hasher, D: Data, S: Signature>(
    message: UnitMessage<H, D, S>,
    taken: RunwayNotificationIn<H, D, S>,
)
    requires
        <RunwayNotificationIn<H, D, S> as TryFromSpec<UnitMessage<H, D, S>>>::try_from_spec(message)
            == Ok::<RunwayNotificationIn<H, D, S>, ()>(taken),
    ensures
        taken is NewUnit <==> message is NewUnit,
        message matches UnitMessage::NewUnit(unit) ==> taken matches RunwayNotificationIn::NewUnit(u)
            && u == unit,
        message matches UnitMessage::RequestCoord(node, coord)
            ==> taken matches RunwayNotificationIn::Request(Request::Coord(c), n) && c == coord && n
            == node,
        message matches UnitMessage::RequestParents(node, hash)
            ==> taken matches RunwayNotificationIn::Request(Request::Parents(h), n) && h == hash && n
            == node,
        message matches UnitMessage::RequestNewest(node, salt)
            ==> taken matches RunwayNotificationIn::Request(Request::NewestUnit(s), n) && s == salt
            && n == node,
        message matches UnitMessage::ResponseCoord(unit)
            ==> taken matches RunwayNotificationIn::Response(Response::Coord(u)) && u == unit,
        message matches UnitMessage::ResponseParents(hash, parents)
            ==> taken matches RunwayNotificationIn::Response(Response::Parents(h, p)) && h == hash && p
            == parents,
        message matches UnitMessage::ResponseNewest(response)
            ==> taken matches RunwayNotificationIn::Response(Response::NewestUnit(r)) && r == response,
{
}

/// The contents of an action tell what is done, with what and to whom.
pub proof fn law_action_contents<H: Hasher, D: Data, S: Signature>(action: Action<H, D, S>)
    ensures
        match action@ {
            ActionView::Alert(sender, proof_of_fork, units) => {
                &&& action matches Action::Alert(alert)
                &&& alert.sender == sender
                &&& alert.proof_of_fork == proof_of_fork
                &&& alert.legit_units@ == units
            },
            ActionView::NewUnit(unit) => {
                &&& action matches Action::Network(RunwayNotificationOut::NewUnit(u))
                &&& u == unit
            },
            ActionView::Request(request, recipient) => {
                &&& action matches Action::Network(RunwayNotificationOut::Request(r, to))
                &&& r == request
                &&& to == recipient
            },
            ActionView::CoordResponse(unit, node) => {
                &&& action matches Action::Network(
                    RunwayNotificationOut::Response(Response::Coord(u), to),
                )
                &&& u == unit
                &&& to == node
            },
            ActionView::ParentsResponse(hash, units, node) => {
                &&& action matches Action::Network(
                    RunwayNotificationOut::Response(Response::Parents(h, u), to),
                )
                &&& h == hash
                &&& u@ == units
                &&& to == node
            },
            ActionView::NewestResponse(response, node) => {
                &&& action matches Action::Network(
                    RunwayNotificationOut::Response(Response::NewestUnit(r), to),
                )
                &&& r == response
                &&& to == node
            },
            ActionView::Resolved(request) => {
                &&& action matches Action::Resolved(r)
                &&& r == request
            },
            ActionView::NewUnits(units) => {
                &&& action matches Action::Consensus(NotificationIn::NewUnits(u))
                &&& u@.len() == units.len()
                &&& forall|i: int|
                    0 <= i < units.len() ==> {
                        &&& (#[trigger] units[i]).coord == u@[i].coord
                        &&& units[i].hash == u@[i].hash
                        &&& units[i].parents_mask == u@[i].control_hash.parents_mask@
                        &&& units[i].combined_hash == u@[i].control_hash.combined_hash
                    }
            },
            ActionView::UnitParents(hash, parents) => {
                &&& action matches Action::Consensus(NotificationIn::UnitParents(h, p))
                &&& h == hash
                &&& p@ == parents
            },
            ActionView::StartingRound(round) => {
                &&& action matches Action::StartingRound(r)
                &&& r == round
            },
            ActionView::SignNewest(response) => {
                &&& action matches Action::SignNewest(r)
                &&& r == response
            },
            ActionView::CreateUnit(pre_unit) => {
                &&& action matches Action::CreateUnit(p)
                &&& p == pre_unit
            },
            ActionView::OrderedBatch(batch) => {
                &&& action matches Action::OrderedBatch(b)
                &&& b@ == batch
            },
        },
{
}

/// What hangs on an action: for the starting round, what has still to be done; nothing for a signed
/// answer about a newest unit and for saying that the request for one needs no repeating, nor for what
/// is done outside the channels; and for all else whether the node goes on.
pub proof fn law_what_hangs_on<H: Hasher, D: Data, S: Signature>(action: ActionView<H, D, S>)
    ensures
        action.delivery() is StartingRound <==> action is StartingRound,
        action.delivery() is BestEffort <==> {
            ||| action is NewestResponse
            ||| action matches ActionView::Resolved(Request::NewestUnit(_))
            ||| action is SignNewest
            ||| action is CreateUnit
            ||| action is OrderedBatch
        },
{
}

/// The contents of a list of actions are those of each of them, in their order.
pub proof fn law_views<H: Hasher, D: Data, S: Signature>(actions: Seq<Action<H, D, S>>)
    ensures
        views(actions).len() == actions.len(),
        forall|i: int| 0 <= i < actions.len() ==> #[trigger] views(actions)[i] == actions[i]@,
{
}

} // verus!
