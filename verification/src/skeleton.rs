//! The skeleton of the consensus: units as they travel between the nodes, and the parts that take
//! them in, add them to the DAG and extend the order.

use crate::nodes::{NodeCount, NodeIndex, NodeMap};
use crate::traits::{hash_model, HashT};
use std::collections::HashMap;
use vstd::prelude::*;
use vstd::std_specs::convert::FromSpecImpl;

verus! {

/// The place of a node and the committee that it belongs to.
pub struct ConsensusConfig {
    pub ix: NodeIndex,
    pub n_members: NodeCount,
    pub epoch_id: u32,
}

/// What a unit says of its parents: which nodes have one, and a hash.
#[derive(Debug, PartialEq)]
pub struct ControlHash<H: HashT> {
    parents: NodeMap<bool>,
    hash: H,
}

/// The contents of a `ControlHash`.
#[verifier::ext_equal]
pub struct ControlHashView<H> {
    pub parents: Seq<bool>,
    pub hash: H,
}

impl<H: HashT> View for ControlHash<H> {
    type V = ControlHashView<H>;

    closed spec fn view(&self) -> ControlHashView<H> {
        ControlHashView { parents: self.parents@, hash: self.hash }
    }
}

/// Which nodes have a parent in a map of parents.
pub open spec fn parents_mask<H>(parents: Seq<Option<H>>) -> Seq<bool> {
    Seq::new(parents.len(), |i: int| parents[i] is Some)
}

/// Whether a control hash is one that a map of parents gives: it says which nodes have a parent, and
/// its hash is a default one.
pub open spec fn is_control_hash<H: HashT>(
    control_hash: ControlHashView<H>,
    parents: Seq<Option<H>>,
) -> bool {
    &&& control_hash.parents == parents_mask(parents)
    &&& call_ensures(H::default, (), control_hash.hash)
}

/// Whether any two default hashes are equal.
pub open spec fn one_default<H: HashT>() -> bool {
    forall|a: H, b: H| #[trigger]
        call_ensures(H::default, (), a) && #[trigger] call_ensures(H::default, (), b) ==> a == b
}

/// Two maps give equal control hashes exactly where the same nodes have a parent in both, whatever
/// the parents are, as long as any two default hashes are equal.
pub proof fn law_control_hash_by_mask<H: HashT>(
    a: ControlHashView<H>,
    a_parents: Seq<Option<H>>,
    b: ControlHashView<H>,
    b_parents: Seq<Option<H>>,
)
    requires
        one_default::<H>(),
        is_control_hash(a, a_parents),
        is_control_hash(b, b_parents),
    ensures
        a == b <==> parents_mask(a_parents) == parents_mask(b_parents),
{
}

impl<H: HashT> ControlHash<H> {
    /// Says which nodes have a parent in the map. The hash is the default one, whatever the parents.
    pub fn new(parent_map: NodeMap<Option<H>>) -> (control_hash: Self)
        ensures
            is_control_hash(control_hash@, parent_map@),
            control_hash@.parents.len() == parent_map@.len(),
            forall|i: int|
                0 <= i < parent_map@.len() ==> #[trigger] control_hash@.parents[i]
                    == parent_map@[i] is Some,
    {
        let hash = H::default();
        let n_members = parent_map.size();
        let mut parents: NodeMap<bool> = NodeMap::new_with_len(n_members);
        let mut i: usize = 0;
        while i < n_members.0
            invariant
                n_members.0 == parent_map@.len(),
                parents@.len() == n_members.0,
                i <= n_members.0,
                forall|j: int| 0 <= j < i ==> #[trigger] parents@[j] == parent_map@[j] is Some,
            decreases n_members.0 - i,
        {
            let ix = NodeIndex(i);
            parents.set(ix, parent_map.get(ix).is_some());
            i = i + 1;
        }
        assert(parents@ =~= parents_mask(parent_map@));
        ControlHash { parents, hash }
    }

    /// The number of nodes that the unit reckons with.
    pub fn n_members(&self) -> (count: NodeCount)
        ensures
            count.0 == self@.parents.len(),
    {
        self.parents.size()
    }
}

impl<H: HashT> Clone for ControlHash<H> {
    fn clone(&self) -> (copy: Self)
        ensures
            copy@ == self@,
    {
        ControlHash { parents: self.parents.clone(), hash: self.hash }
    }
}

impl<H: HashT> Default for ControlHash<H> {
    fn default() -> (control_hash: Self)
        ensures
            control_hash@.parents == Seq::<bool>::empty(),
            call_ensures(H::default, (), control_hash@.hash),
    {
        ControlHash { parents: NodeMap::default(), hash: H::default() }
    }
}

/// A unit as it travels: with a control hash in place of its parents.
#[derive(Debug, PartialEq)]
pub struct CHUnit<H: HashT> {
    creator: NodeIndex,
    round: u32,
    epoch_id: u32,
    hash: H,
    control_hash: ControlHash<H>,
}

/// The contents of a `CHUnit`.
#[verifier::ext_equal]
pub struct CHUnitView<H> {
    pub creator: NodeIndex,
    pub round: u32,
    pub epoch_id: u32,
    pub hash: H,
    pub control_hash: ControlHashView<H>,
}

impl<H: HashT> View for CHUnit<H> {
    type V = CHUnitView<H>;

    closed spec fn view(&self) -> CHUnitView<H> {
        CHUnitView {
            creator: self.creator,
            round: self.round,
            epoch_id: self.epoch_id,
            hash: self.hash,
            control_hash: self.control_hash@,
        }
    }
}

impl<H: HashT> CHUnit<H> {
    pub fn hash(&self) -> (hash: H)
        ensures
            hash == self@.hash,
    {
        self.hash
    }

    pub fn creator(&self) -> (creator: NodeIndex)
        ensures
            creator == self@.creator,
    {
        self.creator
    }

    pub fn round(&self) -> (round: u32)
        ensures
            round == self@.round,
    {
        self.round
    }

    /// The hash of a unit: the default one, whatever its contents.
    pub fn compute_hash(
        _creator: NodeIndex,
        _round: u32,
        _epoch_id: u32,
        _parents: NodeMap<Option<H>>,
    ) -> (hash: H)
        ensures
            call_ensures(H::default, (), hash),
    {
        H::default()
    }

    /// The unit with these parents.
    pub fn new(creator: NodeIndex, round: u32, epoch_id: u32, parents: NodeMap<Option<H>>) -> (unit:
        Self)
        ensures
            unit@.creator == creator,
            unit@.round == round,
            unit@.epoch_id == epoch_id,
            call_ensures(H::default, (), unit@.hash),
            unit@.control_hash.parents == parents_mask(parents@),
            call_ensures(H::default, (), unit@.control_hash.hash),
            unit@.control_hash.parents.len() == parents@.len(),
            forall|i: int|
                0 <= i < parents@.len() ==> #[trigger] unit@.control_hash.parents[i]
                    == parents@[i] is Some,
    {
        CHUnit {
            creator,
            round,
            epoch_id,
            hash: Self::compute_hash(creator, round, epoch_id, parents.clone()),
            control_hash: ControlHash::new(parents),
        }
    }
}

impl<H: HashT> Clone for CHUnit<H> {
    fn clone(&self) -> (copy: Self)
        ensures
            copy@ == self@,
    {
        CHUnit {
            creator: self.creator,
            round: self.round,
            epoch_id: self.epoch_id,
            hash: self.hash,
            control_hash: self.control_hash.clone(),
        }
    }
}

impl<H: HashT> Default for CHUnit<H> {
    fn default() -> (unit: Self)
        ensures
            unit@.creator == NodeIndex(0),
            unit@.round == 0,
            unit@.epoch_id == 0,
            call_ensures(H::default, (), unit@.hash),
            unit@.control_hash.parents == Seq::<bool>::empty(),
            call_ensures(H::default, (), unit@.control_hash.hash),
    {
        CHUnit {
            creator: NodeIndex::default(),
            round: 0,
            epoch_id: 0,
            hash: H::default(),
            control_hash: ControlHash::default(),
        }
    }
}

/// A unit with its parents, as far as they have been reconstructed.
#[derive(Debug, PartialEq)]
pub struct Unit<H: HashT> {
    creator: NodeIndex,
    round: u32,
    epoch_id: u32,
    hash: H,
    control_hash: ControlHash<H>,
    parents: NodeMap<Option<H>>,
}

/// The contents of a `Unit`.
#[verifier::ext_equal]
pub struct UnitView<H> {
    /// What travels of the unit.
    pub unit: CHUnitView<H>,
    pub parents: Seq<Option<H>>,
}

impl<H: HashT> View for Unit<H> {
    type V = UnitView<H>;

    closed spec fn view(&self) -> UnitView<H> {
        UnitView {
            unit: CHUnitView {
                creator: self.creator,
                round: self.round,
                epoch_id: self.epoch_id,
                hash: self.hash,
                control_hash: self.control_hash@,
            },
            parents: self.parents@,
        }
    }
}

/// The unit of which `unit` travels and of which no parent has been reconstructed.
pub open spec fn blank<H>(unit: CHUnitView<H>) -> UnitView<H> {
    UnitView {
        unit,
        parents: Seq::new(unit.control_hash.parents.len(), |i: int| None::<H>),
    }
}

impl<H: HashT> Unit<H> {
    /// A unit that has no parents reconstructed yet.
    pub fn blank_from_chunit(unit: &CHUnit<H>) -> (blank_unit: Self)
        ensures
            blank_unit@ == blank(unit@),
            blank_unit@.unit == unit@,
            blank_unit@.parents.len() == unit@.control_hash.parents.len(),
            forall|i: int|
                0 <= i < blank_unit@.parents.len() ==> #[trigger] blank_unit@.parents[i] is None,
    {
        Unit {
            creator: unit.creator,
            round: unit.round,
            epoch_id: unit.epoch_id,
            hash: unit.hash,
            control_hash: unit.control_hash.clone(),
            parents: NodeMap::with_size(unit.control_hash.n_members()),
        }
    }

    pub fn creator(&self) -> (creator: NodeIndex)
        ensures
            creator == self@.unit.creator,
    {
        self.creator
    }
}

impl<H: HashT> Clone for Unit<H> {
    fn clone(&self) -> (copy: Self)
        ensures
            copy@ == self@,
    {
        Unit {
            creator: self.creator,
            round: self.round,
            epoch_id: self.epoch_id,
            hash: self.hash,
            control_hash: self.control_hash.clone(),
            parents: self.parents.clone(),
        }
    }
}

impl<H: HashT> Default for Unit<H> {
    fn default() -> (unit: Self)
        ensures
            unit@.unit.creator == NodeIndex(0),
            unit@.unit.round == 0,
            unit@.unit.epoch_id == 0,
            call_ensures(H::default, (), unit@.unit.hash),
            unit@.unit.control_hash.parents == Seq::<bool>::empty(),
            call_ensures(H::default, (), unit@.unit.control_hash.hash),
            unit@.parents == Seq::<Option<H>>::empty(),
    {
        Unit {
            creator: NodeIndex::default(),
            round: 0,
            epoch_id: 0,
            hash: H::default(),
            control_hash: ControlHash::default(),
            parents: NodeMap::default(),
        }
    }
}

impl<H: HashT> From<Unit<H>> for CHUnit<H> {
    fn from(unit: Unit<H>) -> (chunit: Self)
        ensures
            chunit@ == unit@.unit,
    {
        CHUnit {
            creator: unit.creator,
            round: unit.round,
            epoch_id: unit.epoch_id,
            hash: unit.hash,
            control_hash: unit.control_hash,
        }
    }
}

impl<H: HashT> FromSpecImpl<Unit<H>> for CHUnit<H> {
    open spec fn obeys_from_spec() -> bool {
        true
    }

    closed spec fn from_spec(unit: Unit<H>) -> Self {
        CHUnit {
            creator: unit.creator,
            round: unit.round,
            epoch_id: unit.epoch_id,
            hash: unit.hash,
            control_hash: unit.control_hash,
        }
    }
}

/// A vertex of the DAG.
#[derive(Debug, PartialEq)]
pub struct Vertex<H: HashT> {
    creator: NodeIndex,
    hash: H,
    parents: NodeMap<Option<H>>,
}

/// The contents of a `Vertex`.
#[verifier::ext_equal]
pub struct VertexView<H> {
    pub creator: NodeIndex,
    pub hash: H,
    pub parents: Seq<Option<H>>,
}

impl<H: HashT> View for Vertex<H> {
    type V = VertexView<H>;

    closed spec fn view(&self) -> VertexView<H> {
        VertexView { creator: self.creator, hash: self.hash, parents: self.parents@ }
    }
}

/// The vertex that a unit becomes in the DAG.
pub open spec fn vertex_of<H>(unit: UnitView<H>) -> VertexView<H> {
    VertexView { creator: unit.unit.creator, hash: unit.unit.hash, parents: unit.parents }
}

impl<H: HashT> Vertex<H> {
    pub fn new(creator: NodeIndex, hash: H, parents: NodeMap<Option<H>>) -> (vertex: Self)
        ensures
            vertex@ == (VertexView { creator, hash, parents: parents@ }),
    {
        Vertex { creator, hash, parents }
    }
}

impl<H: HashT> Clone for Vertex<H> {
    fn clone(&self) -> (copy: Self)
        ensures
            copy@ == self@,
    {
        Vertex { creator: self.creator, hash: self.hash, parents: self.parents.clone() }
    }
}

impl<H: HashT> From<Unit<H>> for Vertex<H> {
    fn from(unit: Unit<H>) -> (vertex: Self)
        ensures
            vertex@ == vertex_of(unit@),
            vertex@.creator == unit@.unit.creator,
            vertex@.hash == unit@.unit.hash,
            vertex@.parents == unit@.parents,
    {
        Vertex { creator: unit.creator, hash: unit.hash, parents: unit.parents }
    }
}

impl<H: HashT> FromSpecImpl<Unit<H>> for Vertex<H> {
    open spec fn obeys_from_spec() -> bool {
        true
    }

    closed spec fn from_spec(unit: Unit<H>) -> Self {
        Vertex { creator: unit.creator, hash: unit.hash, parents: unit.parents }
    }
}

/// The vertices of the DAG, in the order in which they were added.
pub struct Dag<H: HashT> {
    pub vertices: Vec<Vertex<H>>,
}

impl<H: HashT> View for Dag<H> {
    type V = Seq<VertexView<H>>;

    open spec fn view(&self) -> Seq<VertexView<H>> {
        self.vertices@.map_values(|vertex: Vertex<H>| vertex@)
    }
}

impl<H: HashT> Dag<H> {
    pub fn new() -> (dag: Self)
        ensures
            dag@ == Seq::<VertexView<H>>::empty(),
    {
        let dag = Dag { vertices: Vec::new() };
        assert(dag@ =~= Seq::empty());
        dag
    }

    /// Adds a vertex.
    pub fn add_vertex(&mut self, vertex: Vertex<H>)
        ensures
            final(self)@ == old(self)@.push(vertex@),
    {
        self.vertices.push(vertex);
        assert(self@ =~= old(self)@.push(vertex@));
    }
}

/// A message between the nodes.
#[derive(Debug, PartialEq)]
pub enum Message<H: HashT> {
    /// A unit that its creator spreads.
    Multicast(CHUnit<H>),
    /// A request for units.
    FetchRequest(Vec<NodeIndex>, NodeIndex),
    /// The requested units.
    FetchResponse(Vec<CHUnit<H>>, NodeIndex),
    SyncMessage,
    SyncResponse,
    Alert,
}

/// The contents of units.
pub open spec fn chunit_views<H: HashT>(units: Seq<CHUnit<H>>) -> Seq<CHUnitView<H>> {
    units.map_values(|unit: CHUnit<H>| unit@)
}

/// The contents of a `Message`.
#[verifier::ext_equal]
pub enum MessageView<H> {
    Multicast(CHUnitView<H>),
    FetchRequest(Seq<NodeIndex>, NodeIndex),
    FetchResponse(Seq<CHUnitView<H>>, NodeIndex),
    SyncMessage,
    SyncResponse,
    Alert,
}

impl<H: HashT> View for Message<H> {
    type V = MessageView<H>;

    open spec fn view(&self) -> MessageView<H> {
        match *self {
            Message::Multicast(unit) => MessageView::Multicast(unit@),
            Message::FetchRequest(ids, id) => MessageView::FetchRequest(ids@, id),
            Message::FetchResponse(units, id) => MessageView::FetchResponse(
                chunit_views(units@),
                id,
            ),
            Message::SyncMessage => MessageView::SyncMessage,
            Message::SyncResponse => MessageView::SyncResponse,
            Message::Alert => MessageView::Alert,
        }
    }
}

impl<H> MessageView<H> {
    /// The units that a message brings.
    pub open spec fn units(self) -> Seq<CHUnitView<H>> {
        match self {
            MessageView::Multicast(unit) => seq![unit],
            MessageView::FetchResponse(units, _) => units,
            _ => Seq::empty(),
        }
    }
}

impl<H: HashT> Message<H> {
    /// The units that the message brings, for the terminal.
    pub fn into_units(self) -> (units: Vec<CHUnit<H>>)
        ensures
            chunit_views(units@) == self@.units(),
    {
        let mut units: Vec<CHUnit<H>> = Vec::new();
        match self {
            Message::Multicast(unit) => {
                units.push(unit);
                assert(chunit_views(units@) =~= self@.units());
                units
            },
            Message::FetchResponse(fetched, _) => fetched,
            _ => {
                assert(chunit_views(units@) =~= self@.units());
                units
            },
        }
    }
}

impl<H: HashT> Clone for Message<H> {
    fn clone(&self) -> (copy: Self)
        ensures
            copy@ == self@,
    {
        match self {
            Message::Multicast(unit) => Message::Multicast(unit.clone()),
            Message::FetchRequest(ids, id) => {
                let mut copies: Vec<NodeIndex> = Vec::new();
                let mut i: usize = 0;
                while i < ids.len()
                    invariant
                        i <= ids@.len(),
                        copies@ == ids@.take(i as int),
                    decreases ids@.len() - i,
                {
                    copies.push(ids[i]);
                    i = i + 1;
                    assert(ids@.take(i as int) =~= ids@.take(i - 1).push(ids@[i - 1]));
                }
                assert(ids@.take(i as int) =~= ids@);
                Message::FetchRequest(copies, *id)
            },
            Message::FetchResponse(units, id) => {
                let mut copies: Vec<CHUnit<H>> = Vec::new();
                let mut i: usize = 0;
                while i < units.len()
                    invariant
                        i <= units@.len(),
                        copies@.len() == i,
                        forall|j: int| 0 <= j < i ==> (#[trigger] copies@[j])@ == units@[j]@,
                    decreases units@.len() - i,
                {
                    copies.push(units[i].clone());
                    i = i + 1;
                }
                assert(chunit_views(copies@) =~= chunit_views(units@));
                Message::FetchResponse(copies, *id)
            },
            Message::SyncMessage => Message::SyncMessage,
            Message::SyncResponse => Message::SyncResponse,
            Message::Alert => Message::Alert,
        }
    }
}

/// What is to happen with each unit that was added to the DAG.
#[derive(Clone, Copy, Debug, PartialEq, Eq, Structural)]
pub enum PostInsertHook {
    /// A unit of this node is spread.
    Multicast(NodeIndex),
    /// The unit may become a parent of the next one that this node creates.
    ParentCandidate,
    /// The order may be extended.
    Elector,
}

/// What the terminal wants done by what surrounds it.
pub enum TerminalAction<H: HashT> {
    /// Send a message to the other nodes.
    Request(Message<H>),
    /// Tell the creator of units of a parent candidate.
    ParentCandidate(CHUnit<H>),
    /// Tell the extender of a vertex.
    Elector(Vertex<H>),
}

/// The contents of a `TerminalAction`.
#[verifier::ext_equal]
pub enum TerminalActionView<H> {
    Request(MessageView<H>),
    ParentCandidate(CHUnitView<H>),
    Elector(VertexView<H>),
}

impl<H: HashT> View for TerminalAction<H> {
    type V = TerminalActionView<H>;

    open spec fn view(&self) -> TerminalActionView<H> {
        match *self {
            TerminalAction::Request(message) => TerminalActionView::Request(message@),
            TerminalAction::ParentCandidate(unit) => TerminalActionView::ParentCandidate(unit@),
            TerminalAction::Elector(vertex) => TerminalActionView::Elector(vertex@),
        }
    }
}

/// The contents of a list of actions.
pub open spec fn action_views<H: HashT>(actions: Seq<TerminalAction<H>>) -> Seq<
    TerminalActionView<H>,
> {
    actions.map_values(|action: TerminalAction<H>| action@)
}

impl PostInsertHook {
    /// What the hook asks for once `unit` was added to the DAG.
    pub open spec fn asks<H>(self, unit: UnitView<H>) -> Seq<TerminalActionView<H>> {
        match self {
            PostInsertHook::Multicast(ix) => if unit.unit.creator == ix {
                seq![TerminalActionView::Request(MessageView::Multicast(unit.unit))]
            } else {
                Seq::empty()
            },
            PostInsertHook::ParentCandidate => seq![TerminalActionView::ParentCandidate(unit.unit)],
            PostInsertHook::Elector => seq![TerminalActionView::Elector(vertex_of(unit))],
        }
    }

    /// What the hook asks for once `unit` was added to the DAG.
    pub fn run<H: HashT>(&self, unit: Unit<H>) -> (action: Option<TerminalAction<H>>)
        ensures
            match action {
                Some(action) => self.asks(unit@) == seq![action@],
                None => self.asks(unit@).len() == 0,
            },
    {
        match self {
            PostInsertHook::Multicast(ix) => if unit.creator().0 == ix.0 {
                Some(TerminalAction::Request(Message::Multicast(CHUnit::from(unit))))
            } else {
                None
            },
            PostInsertHook::ParentCandidate => Some(
                TerminalAction::ParentCandidate(CHUnit::from(unit)),
            ),
            PostInsertHook::Elector => Some(TerminalAction::Elector(Vertex::from(unit))),
        }
    }
}

/// What the hooks ask for, in their order, once `unit` was added to the DAG.
pub open spec fn all_ask<H>(hooks: Seq<PostInsertHook>, unit: UnitView<H>) -> Seq<
    TerminalActionView<H>,
>
    decreases hooks.len(),
{
    if hooks.len() == 0 {
        Seq::empty()
    } else {
        all_ask(hooks.drop_last(), unit) + hooks.last().asks(unit)
    }
}

/// What the hooks ask for once `units` were added to the DAG, one after the other.
pub open spec fn all_ask_of<H>(hooks: Seq<PostInsertHook>, units: Seq<UnitView<H>>) -> Seq<
    TerminalActionView<H>,
>
    decreases units.len(),
{
    if units.len() == 0 {
        Seq::empty()
    } else {
        all_ask_of(hooks, units.drop_last()) + all_ask(hooks, units.last())
    }
}

/// The state of a `Terminal`.
#[verifier::ext_equal]
#[verifier::reject_recursive_types(H)]
pub struct TerminalModel<H> {
    /// The units that wait for their parents, in the order in which they came.
    pub pending: Seq<UnitView<H>>,
    /// The units that can be added to the DAG. The last is added first.
    pub ready: Seq<UnitView<H>>,
    pub hooks: Seq<PostInsertHook>,
    pub dag: Seq<VertexView<H>>,
    /// The units that came, by hash.
    pub bag: Map<H, UnitView<H>>,
}

impl<H> TerminalModel<H> {
    /// Each unit that came is pending once, and nothing else is.
    pub open spec fn consistent(self) -> bool {
        &&& forall|i: int|
            0 <= i < self.pending.len() ==> self.bag.contains_key(
                (#[trigger] self.pending[i]).unit.hash,
            ) && self.bag[self.pending[i].unit.hash] == self.pending[i]
        &&& forall|i: int, j: int|
            0 <= i < j < self.pending.len() ==> (#[trigger] self.pending[i]).unit.hash != (
            #[trigger] self.pending[j]).unit.hash
        &&& forall|h: H| #[trigger]
            self.bag.contains_key(h) ==> self.bag[h].unit.hash == h && self.pending.contains(
                self.bag[h],
            )
    }

    /// A unit comes in. One whose hash is known changes nothing.
    pub open spec fn register(self, unit: CHUnitView<H>) -> Self {
        if self.bag.contains_key(unit.hash) {
            self
        } else {
            TerminalModel {
                pending: self.pending.push(blank(unit)),
                bag: self.bag.insert(unit.hash, blank(unit)),
                ..self
            }
        }
    }

    /// Units come in, one after the other.
    pub open spec fn register_all(self, units: Seq<CHUnitView<H>>) -> Self
        decreases units.len(),
    {
        if units.len() == 0 {
            self
        } else {
            self.register_all(units.drop_last()).register(units.last())
        }
    }

    /// The ready units are added to the DAG, the last first.
    pub open spec fn add_ready(self) -> Self {
        TerminalModel {
            ready: Seq::empty(),
            dag: self.dag + self.ready.reverse().map_values(|unit: UnitView<H>| vertex_of(unit)),
            ..self
        }
    }
}

/// Taking a unit in keeps the lists in agreement.
pub proof fn lemma_register_consistent<H>(model: TerminalModel<H>, unit: CHUnitView<H>)
    requires
        model.consistent(),
    ensures
        model.register(unit).consistent(),
{
    let after = model.register(unit);
    if !model.bag.contains_key(unit.hash) {
        assert forall|i: int| 0 <= i < after.pending.len() implies after.bag.contains_key(
            (#[trigger] after.pending[i]).unit.hash,
        ) && after.bag[after.pending[i].unit.hash] == after.pending[i] by {
            if i < model.pending.len() {
                assert(after.pending[i] == model.pending[i]);
            }
        }
        assert forall|h: H| #[trigger] after.bag.contains_key(h) implies after.bag[h].unit.hash == h
            && after.pending.contains(after.bag[h]) by {
            if h == unit.hash {
                assert(after.pending[model.pending.len() as int] == blank(unit));
            } else {
                assert(model.bag.contains_key(h));
                let i = model.pending.index_of(model.bag[h]);
                assert(after.pending[i] == model.bag[h]);
            }
        }
    }
}

/// The contents of units.
pub open spec fn unit_views<H: HashT>(units: Seq<Unit<H>>) -> Seq<UnitView<H>> {
    units.map_values(|unit: Unit<H>| unit@)
}

/// The terminal manages units that cannot be added to the DAG yet, and adds those that can.
#[verifier::reject_recursive_types(H)]
pub struct Terminal<H: HashT> {
    pub pending_list: Vec<Unit<H>>,
    pub ready_list: Vec<Unit<H>>,
    pub post_insert: Vec<PostInsertHook>,
    pub dag: Dag<H>,
    unit_bag: HashMap<H, Unit<H>>,
}

impl<H: HashT> View for Terminal<H> {
    type V = TerminalModel<H>;

    closed spec fn view(&self) -> TerminalModel<H> {
        TerminalModel {
            pending: unit_views(self.pending_list@),
            ready: unit_views(self.ready_list@),
            hooks: self.post_insert@,
            dag: self.dag@,
            bag: Map::new(|h: H| self.unit_bag@.contains_key(h), |h: H| self.unit_bag@[h]@),
        }
    }
}

impl<H: HashT> Terminal<H> {
    /// The lists agree.
    pub open spec fn wf(&self) -> bool {
        hash_model::<H>() && self@.consistent()
    }

    /// A terminal that knows of no units.
    pub fn new() -> (terminal: Self)
        requires
            hash_model::<H>(),
        ensures
            terminal.wf(),
            terminal@ == (TerminalModel::<H> {
                pending: Seq::empty(),
                ready: Seq::empty(),
                hooks: Seq::empty(),
                dag: Seq::empty(),
                bag: Map::empty(),
            }),
    {
        let terminal = Terminal {
            pending_list: Vec::new(),
            ready_list: Vec::new(),
            post_insert: Vec::new(),
            dag: Dag::new(),
            unit_bag: HashMap::new(),
        };
        assert(terminal@ =~= TerminalModel::<H> {
            pending: Seq::empty(),
            ready: Seq::empty(),
            hooks: Seq::empty(),
            dag: Seq::empty(),
            bag: Map::empty(),
        });
        terminal
    }

    /// A unit comes in: whether it is new.
    pub fn register_new_chunit(&mut self, chu: &CHUnit<H>) -> (new: bool)
        requires
            old(self).wf(),
        ensures
            final(self).wf(),
            new == !old(self)@.bag.contains_key(chu@.hash),
            final(self)@ == old(self)@.register(chu@),
    {
        broadcast use vstd::std_specs::hash::group_hash_axioms;

        if self.unit_bag.contains_key(&chu.hash()) {
            return false;
        }
        let unit = Unit::blank_from_chunit(chu);
        self.unit_bag.insert(chu.hash(), unit.clone());
        self.pending_list.push(unit);
        proof {
            lemma_register_consistent(old(self)@, chu@);
            let expected = old(self)@.register(chu@);
            assert(self@.pending =~= expected.pending);
            assert(self@.bag =~= expected.bag);
            assert(self@ =~= expected);
        }
        true
    }

    /// Units come in.
    pub fn process_incoming(&mut self, units: Vec<CHUnit<H>>)
        requires
            old(self).wf(),
        ensures
            final(self).wf(),
            final(self)@ == old(self)@.register_all(chunit_views(units@)),
    {
        let ghost before = self@;
        let ghost all = chunit_views(units@);
        let mut i: usize = 0;
        assert(all.take(0) =~= Seq::empty());
        while i < units.len()
            invariant
                self.wf(),
                i <= units@.len(),
                all == chunit_views(units@),
                self@ == before.register_all(all.take(i as int)),
            decreases units@.len() - i,
        {
            assert(all.take(i + 1).drop_last() =~= all.take(i as int));
            let _ = self.register_new_chunit(&units[i]);
            i = i + 1;
        }
        assert(all.take(i as int) =~= all);
    }

    /// What the hooks ask for, now that `unit` was added to the DAG.
    pub fn update_post_insert(&self, unit: Unit<H>) -> (actions: Vec<TerminalAction<H>>)
        ensures
            action_views(actions@) == all_ask(self@.hooks, unit@),
    {
        let ghost hooks = self.post_insert@;
        let mut actions: Vec<TerminalAction<H>> = Vec::new();
        let mut i: usize = 0;
        assert(action_views(actions@) =~= all_ask(hooks.take(0), unit@));
        while i < self.post_insert.len()
            invariant
                hooks == self.post_insert@,
                i <= hooks.len(),
                action_views(actions@) == all_ask(hooks.take(i as int), unit@),
            decreases hooks.len() - i,
        {
            let ghost earlier = action_views(actions@);
            assert(hooks.take(i + 1).drop_last() =~= hooks.take(i as int));
            match self.post_insert[i].run(unit.clone()) {
                Some(action) => {
                    actions.push(action);
                    assert(action_views(actions@) =~= earlier + seq![action@]);
                },
                None => {
                    assert(earlier + hooks[i as int].asks(unit@) =~= earlier);
                },
            }
            i = i + 1;
        }
        assert(hooks.take(i as int) =~= hooks);
        actions
    }

    /// Adds the ready units to the DAG.
    pub fn add_ready_units(&mut self) -> (actions: Vec<TerminalAction<H>>)
        requires
            old(self).wf(),
        ensures
            final(self).wf(),
            final(self)@ == old(self)@.add_ready(),
            action_views(actions@) == all_ask_of(old(self)@.hooks, old(self)@.ready.reverse()),
    {
        let ghost before = self@;
        let ghost all = before.ready.reverse();
        let ghost mut done: int = 0;
        let mut actions: Vec<TerminalAction<H>> = Vec::new();
        proof {
            assert(action_views(actions@) =~= all_ask_of(before.hooks, all.take(0)));
            assert(before.ready.take(before.ready.len() as int) =~= before.ready);
            assert(before.dag =~= before.dag + all.take(0).map_values(
                |unit: UnitView<H>| vertex_of(unit),
            ));
        }
        while self.ready_list.len() > 0
            invariant
                self.wf(),
                before.consistent(),
                all == before.ready.reverse(),
                0 <= done <= all.len(),
                self@.ready == before.ready.take(before.ready.len() - done),
                self@ == (TerminalModel {
                    ready: self@.ready,
                    dag: before.dag + all.take(done).map_values(
                        |unit: UnitView<H>| vertex_of(unit),
                    ),
                    ..before
                }),
                action_views(actions@) == all_ask_of(before.hooks, all.take(done)),
            decreases self.ready_list@.len(),
        {
            let ghost current = self@;
            let ghost earlier = action_views(actions@);
            if let Some(unit) = self.ready_list.pop() {
                proof {
                    assert(current.ready.len() > 0);
                    assert(unit@ == current.ready.last());
                    assert(unit@ == all[done]);
                    assert(all.take(done + 1).drop_last() =~= all.take(done));
                    assert(all.take(done + 1).last() == unit@);
                }
                self.dag.add_vertex(Vertex::from(unit.clone()));
                let mut more = self.update_post_insert(unit);
                let ghost last = action_views(more@);
                actions.append(&mut more);
                proof {
                    assert(action_views(actions@) =~= earlier + last);
                    done = done + 1;
                    assert(self@.ready =~= before.ready.take(before.ready.len() - done));
                    assert(self@.dag =~= before.dag + all.take(done).map_values(
                        |unit: UnitView<H>| vertex_of(unit),
                    ));
                    assert(self@ =~= TerminalModel {
                        ready: self@.ready,
                        dag: self@.dag,
                        ..before
                    });
                    assert(self@.pending == before.pending && self@.bag == before.bag);
                    assert(self@.consistent());
                }
            }
        }
        proof {
            assert(done == all.len()) by {
                assert(self@.ready.len() == before.ready.len() - done);
            }
            assert(all.take(done) =~= all);
            assert(self@ =~= before.add_ready());
        }
        actions
    }

    /// Has `hook` run for each unit that is added to the DAG from now on.
    pub fn register_post_insert_hook(&mut self, hook: PostInsertHook)
        requires
            old(self).wf(),
        ensures
            final(self).wf(),
            final(self)@ == (TerminalModel { hooks: old(self)@.hooks.push(hook), ..old(self)@ }),
    {
        self.post_insert.push(hook);
        assert(self@ =~= TerminalModel { hooks: old(self)@.hooks.push(hook), ..old(self)@ });
    }

    /// Takes in the units that came, and adds the ready ones to the DAG.
    pub fn poll(&mut self, units: Vec<CHUnit<H>>) -> (actions: Vec<TerminalAction<H>>)
        requires
            old(self).wf(),
        ensures
            final(self).wf(),
            final(self)@ == old(self)@.register_all(chunit_views(units@)).add_ready(),
            action_views(actions@) == all_ask_of(old(self)@.hooks, old(self)@.ready.reverse()),
    {
        self.process_incoming(units);
        proof {
            lemma_register_all_frame(old(self)@, chunit_views(units@));
        }
        self.add_ready_units()
    }
}

/// Taking units in neither readies units, nor adds them to the DAG, nor changes the hooks.
pub proof fn lemma_register_all_frame<H>(model: TerminalModel<H>, units: Seq<CHUnitView<H>>)
    ensures
        model.register_all(units).ready == model.ready,
        model.register_all(units).hooks == model.hooks,
        model.register_all(units).dag == model.dag,
    decreases units.len(),
{
    if units.len() > 0 {
        lemma_register_all_frame(model, units.drop_last());
    }
}

/// The terminal of a node, with the hooks of the consensus: the node's own units are spread, and each
/// unit is offered as a parent and to the extender.
pub fn consensus_terminal<H: HashT>(conf: &ConsensusConfig) -> (terminal: Terminal<H>)
    requires
        hash_model::<H>(),
    ensures
        terminal.wf(),
        terminal@ == (TerminalModel::<H> {
            pending: Seq::empty(),
            ready: Seq::empty(),
            hooks: seq![
                PostInsertHook::Multicast(conf.ix),
                PostInsertHook::ParentCandidate,
                PostInsertHook::Elector,
            ],
            dag: Seq::empty(),
            bag: Map::empty(),
        }),
{
    let mut terminal = Terminal::new();
    terminal.register_post_insert_hook(PostInsertHook::Multicast(conf.ix));
    terminal.register_post_insert_hook(PostInsertHook::ParentCandidate);
    terminal.register_post_insert_hook(PostInsertHook::Elector);
    assert(terminal@.hooks =~= seq![
        PostInsertHook::Multicast(conf.ix),
        PostInsertHook::ParentCandidate,
        PostInsertHook::Elector,
    ]);
    terminal
}

/// Extends the order of the units. So far no vertex is a new head.
#[derive(Clone, Copy, Debug, PartialEq, Eq, Structural)]
pub struct Extender {}

impl Extender {
    pub fn new() -> (extender: Self)
        ensures
            extender == (Extender {}),
    {
        Extender {}
    }

    /// Tells whether the vertex gives rise to a new head.
    pub fn new_head<H: HashT>(&mut self, _v: Vertex<H>) -> (head: bool)
        ensures
            !head,
            *final(self) == *old(self),
    {
        false
    }

    /// Finalizes the batch of units below the newest head.
    fn finalize_next_batch(&self) {
    }

    /// A vertex was added to the DAG: batches are finalized as long as there are new heads.
    pub fn on_elector<H: HashT>(&mut self, v: Vertex<H>)
        ensures
            *final(self) == *old(self),
    {
        while self.new_head(v.clone())
            invariant
                *self == *old(self),
            decreases 0int,
        {
            self.finalize_next_batch();
        }
    }
}

/// A unit whose hash came before is not taken in: of two units with one hash, the first counts.
pub proof fn law_registered_once<H>(
    model: TerminalModel<H>,
    first: CHUnitView<H>,
    second: CHUnitView<H>,
)
    requires
        first.hash == second.hash,
    ensures
        model.register(first).register(second) == model.register(first),
{
}

/// However many units come, each hash among them is in the bag afterwards, nothing in the bag is lost
/// or replaced, and each unit is pending once.
pub proof fn law_incoming_units_kept<H>(model: TerminalModel<H>, units: Seq<CHUnitView<H>>)
    requires
        model.consistent(),
    ensures
        ({
            let after = model.register_all(units);
            &&& after.consistent()
            &&& forall|i: int|
                0 <= i < units.len() ==> after.bag.contains_key((#[trigger] units[i]).hash)
            &&& forall|h: H| #[trigger]
                model.bag.contains_key(h) ==> after.bag.contains_key(h) && after.bag[h]
                    == model.bag[h]
        }),
    decreases units.len(),
{
    if units.len() > 0 {
        let fewer = units.drop_last();
        let middle = model.register_all(fewer);
        law_incoming_units_kept(model, fewer);
        lemma_register_consistent(middle, units.last());
        assert forall|i: int| 0 <= i < units.len() implies model.register_all(
            units,
        ).bag.contains_key((#[trigger] units[i]).hash) by {
            if i < fewer.len() {
                assert(fewer[i] == units[i]);
            }
        }
    }
}

/// With the hooks of the consensus, a unit that is added to the DAG is offered as a parent and to the
/// extender, and before that it is spread if and only if it is this node's.
pub proof fn law_added_unit_asks<H>(ix: NodeIndex, unit: UnitView<H>)
    ensures
        ({
            let offers = seq![
                TerminalActionView::ParentCandidate(unit.unit),
                TerminalActionView::Elector(vertex_of(unit)),
            ];
            all_ask(
                seq![
                    PostInsertHook::Multicast(ix),
                    PostInsertHook::ParentCandidate,
                    PostInsertHook::Elector,
                ],
                unit,
            ) == if unit.unit.creator == ix {
                seq![TerminalActionView::Request(MessageView::Multicast(unit.unit))] + offers
            } else {
                offers
            }
        }),
{
    let hooks = seq![
        PostInsertHook::Multicast(ix),
        PostInsertHook::ParentCandidate,
        PostInsertHook::Elector,
    ];
    let two = hooks.drop_last();
    let one = two.drop_last();
    reveal_with_fuel(all_ask, 4);
    assert(one.drop_last() =~= Seq::empty());
    assert(all_ask(hooks, unit) =~= PostInsertHook::Multicast(ix).asks(unit)
        + PostInsertHook::ParentCandidate.asks(unit) + PostInsertHook::Elector.asks(unit));
}

/// A vertex has the creator, the hash and the parents of the unit that became it.
pub proof fn law_vertex<H>(unit: UnitView<H>)
    ensures
        vertex_of(unit).creator == unit.unit.creator,
        vertex_of(unit).hash == unit.unit.hash,
        vertex_of(unit).parents == unit.parents,
{
}

/// A unit of which no parent has been reconstructed says all that travelled of it, and has an empty entry
/// for each node that it reckons with.
pub proof fn law_blank<H>(unit: CHUnitView<H>)
    ensures
        blank(unit).unit == unit,
        blank(unit).parents.len() == unit.control_hash.parents.len(),
        forall|i: int| 0 <= i < blank(unit).parents.len() ==> #[trigger] blank(unit).parents[i] is None,
{
}

/// The contents of a message tell what kind it is and what it brings. The units that it brings are the
/// one that is spread, or those that were asked for, in their order, and no others.
pub proof fn law_message_contents<H: HashT>(message: Message<H>)
    ensures
        match message {
            Message::Multicast(unit) => {
                &&& message@ == MessageView::Multicast(unit@)
                &&& message@.units() == seq![unit@]
            },
            Message::FetchRequest(ids, id) => {
                &&& message@ == MessageView::<H>::FetchRequest(ids@, id)
                &&& message@.units().len() == 0
            },
            Message::FetchResponse(units, id) => {
                &&& message@ matches MessageView::FetchResponse(contents, to)
                &&& to == id
                &&& contents == message@.units()
                &&& contents.len() == units@.len()
                &&& forall|i: int| 0 <= i < units@.len() ==> #[trigger] contents[i] == units@[i]@
            },
            Message::SyncMessage => message@ is SyncMessage && message@.units().len() == 0,
            Message::SyncResponse => message@ is SyncResponse && message@.units().len() == 0,
            Message::Alert => message@ is Alert && message@.units().len() == 0,
        },
{
}

/// The contents of an action of the terminal tell what is done, and with what.
pub proof fn law_terminal_action_contents<H: HashT>(action: TerminalAction<H>)
    ensures
        match action@ {
            TerminalActionView::Request(message) => {
                action matches TerminalAction::Request(m) && m@ == message
            },
            TerminalActionView::ParentCandidate(unit) => {
                action matches TerminalAction::ParentCandidate(u) && u@ == unit
            },
            TerminalActionView::Elector(vertex) => {
                action matches TerminalAction::Elector(v) && v@ == vertex
            },
        },
{
}

/// Once a unit was added to the DAG, one hook has it spread if and only if a given node created it, one
/// offers what travels of it as a parent, and one offers its vertex to the extender.
pub proof fn law_hook_asks<H>(hook: PostInsertHook, unit: UnitView<H>)
    ensures
        match hook {
            PostInsertHook::Multicast(ix) => {
                &&& unit.unit.creator != ix ==> hook.asks(unit).len() == 0
                &&& unit.unit.creator == ix ==> hook.asks(unit) == seq![
                    TerminalActionView::Request(MessageView::Multicast(unit.unit)),
                ]
            },
            PostInsertHook::ParentCandidate => hook.asks(unit) == seq![
                TerminalActionView::ParentCandidate(unit.unit),
            ],
            PostInsertHook::Elector => hook.asks(unit) == seq![
                TerminalActionView::Elector(
                    VertexView {
                        creator: unit.unit.creator,
                        hash: unit.unit.hash,
                        parents: unit.parents,
                    },
                ),
            ],
        },
{
}

/// Hooks ask one after the other: a list of them as its first part does, and after that the rest.
pub proof fn law_hooks_ask_in_turn<H>(
    first: Seq<PostInsertHook>,
    second: Seq<PostInsertHook>,
    hook: PostInsertHook,
    unit: UnitView<H>,
)
    ensures
        all_ask(first + second, unit) == all_ask(first, unit) + all_ask(second, unit),
        all_ask(seq![hook], unit) == hook.asks(unit),
        all_ask(Seq::empty(), unit).len() == 0,
    decreases second.len(),
{
    let single = seq![hook];
    assert(single.drop_last() =~= Seq::empty());
    assert(all_ask(single, unit) =~= hook.asks(unit)) by {
        reveal_with_fuel(all_ask, 2);
    }
    if second.len() == 0 {
        assert(first + second =~= first);
        assert(all_ask(first, unit) + all_ask(second, unit) =~= all_ask(first, unit));
    } else {
        law_hooks_ask_in_turn(first, second.drop_last(), hook, unit);
        assert((first + second).drop_last() =~= first + second.drop_last());
        assert(all_ask(first + second, unit) =~= all_ask(first, unit) + all_ask(second, unit));
    }
}

/// The hooks ask of one unit after the other: of a list of them as of its first part, and after that of
/// the rest.
pub proof fn law_hooks_ask_of_units_in_turn<H>(
    hooks: Seq<PostInsertHook>,
    first: Seq<UnitView<H>>,
    second: Seq<UnitView<H>>,
    unit: UnitView<H>,
)
    ensures
        all_ask_of(hooks, first + second) == all_ask_of(hooks, first) + all_ask_of(hooks, second),
        all_ask_of(hooks, seq![unit]) == all_ask(hooks, unit),
        all_ask_of(hooks, Seq::<UnitView<H>>::empty()).len() == 0,
    decreases second.len(),
{
    let single = seq![unit];
    assert(single.drop_last() =~= Seq::empty());
    assert(all_ask_of(hooks, single) =~= all_ask(hooks, unit)) by {
        reveal_with_fuel(all_ask_of, 2);
    }
    if second.len() == 0 {
        assert(first + second =~= first);
        assert(all_ask_of(hooks, first) + all_ask_of(hooks, second) =~= all_ask_of(hooks, first));
    } else {
        law_hooks_ask_of_units_in_turn(hooks, first, second.drop_last(), unit);
        assert((first + second).drop_last() =~= first + second.drop_last());
        assert(all_ask_of(hooks, first + second) =~= all_ask_of(hooks, first) + all_ask_of(
            hooks,
            second,
        ));
    }
}

/// A unit whose hash is new goes to the end of the pending ones, without parents, and is in the bag under
/// its hash. One whose hash is known changes nothing. Neither readies a unit, adds one to the DAG or
/// changes the hooks.
pub proof fn law_unit_registered<H>(model: TerminalModel<H>, unit: CHUnitView<H>)
    ensures
        ({
            let after = model.register(unit);
            &&& after.ready == model.ready
            &&& after.dag == model.dag
            &&& after.hooks == model.hooks
            &&& if model.bag.contains_key(unit.hash) {
                &&& after.pending == model.pending
                &&& after.bag == model.bag
            } else {
                let added = after.pending.last();
                &&& after.pending == model.pending.push(added)
                &&& after.bag == model.bag.insert(unit.hash, added)
                &&& added.unit == unit
                &&& added.parents.len() == unit.control_hash.parents.len()
                &&& forall|i: int|
                    0 <= i < added.parents.len() ==> #[trigger] added.parents[i] is None
            }
        }),
{
}

/// Units are taken in one after the other: a list of them as its first part is, and after that the rest.
pub proof fn law_units_registered_in_turn<H>(
    model: TerminalModel<H>,
    first: Seq<CHUnitView<H>>,
    second: Seq<CHUnitView<H>>,
    unit: CHUnitView<H>,
)
    ensures
        model.register_all(first + second) == model.register_all(first).register_all(second),
        model.register_all(seq![unit]) == model.register(unit),
        model.register_all(Seq::empty()) == model,
    decreases second.len(),
{
    assert(seq![unit].drop_last() =~= Seq::empty());
    assert(model.register_all(seq![unit]) == model.register(unit)) by {
        reveal_with_fuel(TerminalModel::register_all, 2);
    }
    if second.len() == 0 {
        assert(first + second =~= first);
    } else {
        law_units_registered_in_turn(model, first, second.drop_last(), unit);
        assert((first + second).drop_last() =~= first + second.drop_last());
    }
}

/// The ready units are added to the DAG after the vertices that are in it, the last of them first, and
/// none stays ready. The pending units, the bag and the hooks stay as they are.
pub proof fn law_ready_units_added<H>(model: TerminalModel<H>)
    ensures
        ({
            let after = model.add_ready();
            let n = model.ready.len();
            &&& after.ready.len() == 0
            &&& after.pending == model.pending
            &&& after.bag == model.bag
            &&& after.hooks == model.hooks
            &&& after.dag.len() == model.dag.len() + n
            &&& forall|i: int|
                0 <= i < model.dag.len() ==> #[trigger] after.dag[i] == model.dag[i]
            &&& forall|i: int|
                0 <= i < n ==> {
                    let unit = #[trigger] model.ready[i];
                    let vertex = after.dag[model.dag.len() + n - 1 - i];
                    &&& vertex.creator == unit.unit.creator
                    &&& vertex.hash == unit.unit.hash
                    &&& vertex.parents == unit.parents
                }
        }),
{
}

/// The contents of lists of units, of actions and of vertices are those of each item, in their order.
pub proof fn law_lists<H: HashT>(
    units: Seq<CHUnit<H>>,
    actions: Seq<TerminalAction<H>>,
    dag: Dag<H>,
)
    ensures
        chunit_views(units).len() == units.len(),
        forall|i: int| 0 <= i < units.len() ==> #[trigger] chunit_views(units)[i] == units[i]@,
        action_views(actions).len() == actions.len(),
        forall|i: int| 0 <= i < actions.len() ==> #[trigger] action_views(actions)[i] == actions[i]@,
        dag@.len() == dag.vertices@.len(),
        forall|i: int|
            0 <= i < dag.vertices@.len() ==> #[trigger] dag@[i] == dag.vertices@[i]@,
{
}

} // verus!
