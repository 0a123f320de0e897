//! The units that a node keeps.

use crate::nodes::NodeIndex;
use crate::traits::{hash_model, Data, Hasher};
use crate::units::{lemma_coord_key, FullUnit, Round, SignedUnit, UnitCoord};
use std::collections::{HashMap, HashSet};
use vstd::prelude::*;

verus! {

/// What a `UnitStore` holds.
#[verifier::ext_equal]
#[verifier::reject_recursive_types(H)]
#[verifier::reject_recursive_types(D)]
#[verifier::reject_recursive_types(S)]
pub struct StoreModel<H: Hasher, D: Data, S> {
    /// The units, by hash.
    pub units: Map<H::Hash, SignedUnit<H, D, S>>,
    /// For each place that a unit was added for, the unit that was added last.
    pub coords: Map<UnitCoord, SignedUnit<H, D, S>>,
    /// The hashes of the parents of the units whose parents are known.
    pub parents: Map<H::Hash, Seq<H::Hash>>,
    /// The nodes that are known to have forked.
    pub forkers: Set<NodeIndex>,
    /// The units that the ordering part of the node has not been told of.
    pub buffer: Seq<SignedUnit<H, D, S>>,
    /// The greatest round that a unit may have.
    pub max_round: Round,
}

/// Of the rounds below `bound`, in increasing order, the units that `creator` has in them.
pub open spec fn units_below<H: Hasher, D: Data, S>(
    coords: Map<UnitCoord, SignedUnit<H, D, S>>,
    creator: NodeIndex,
    bound: nat,
) -> Seq<SignedUnit<H, D, S>>
    decreases bound,
{
    if bound == 0 {
        Seq::empty()
    } else {
        let earlier = units_below(coords, creator, (bound - 1) as nat);
        let coord = UnitCoord { round: (bound - 1) as Round, creator };
        if coords.contains_key(coord) {
            earlier.push(coords[coord])
        } else {
            earlier
        }
    }
}

/// The unit of `creator` with the greatest round below `bound`.
pub open spec fn newest_below<H: Hasher, D: Data, S>(
    coords: Map<UnitCoord, SignedUnit<H, D, S>>,
    creator: NodeIndex,
    bound: nat,
) -> Option<SignedUnit<H, D, S>>
    decreases bound,
{
    if bound == 0 {
        None
    } else {
        let coord = UnitCoord { round: (bound - 1) as Round, creator };
        if coords.contains_key(coord) {
            Some(coords[coord])
        } else {
            newest_below(coords, creator, (bound - 1) as nat)
        }
    }
}

impl<H: Hasher, D: Data, S> StoreModel<H, D, S> {
    /// A store that holds nothing.
    pub open spec fn empty(max_round: Round) -> Self {
        StoreModel {
            units: Map::empty(),
            coords: Map::empty(),
            parents: Map::empty(),
            forkers: Set::empty(),
            buffer: Seq::empty(),
            max_round,
        }
    }

    /// The tables agree: a unit stands under its own hash and place, each place leads to a kept
    /// unit, each kept unit has its place taken, and what is buffered is kept and buffered once.
    pub open spec fn consistent(self) -> bool {
        &&& forall|h: H::Hash| #[trigger]
            self.units.contains_key(h) ==> self.units[h].hash() == h && self.coords.contains_key(
                self.units[h].coord(),
            )
        &&& forall|c: UnitCoord| #[trigger]
            self.coords.contains_key(c) ==> self.coords[c].coord() == c && self.holds(
                self.coords[c],
            )
        &&& forall|i: int|
            0 <= i < self.buffer.len() ==> self.holds(#[trigger] self.buffer[i])
        &&& forall|i: int, j: int|
            0 <= i < j < self.buffer.len() ==> (#[trigger] self.buffer[i]).hash() != (
            #[trigger] self.buffer[j]).hash()
    }

    /// Whether the unit itself is kept.
    pub open spec fn holds(self, unit: SignedUnit<H, D, S>) -> bool {
        self.units.contains_key(unit.hash()) && self.units[unit.hash()] == unit
    }

    /// The unit that is in the place of `unit`, where `unit` is not kept.
    pub open spec fn new_fork(self, unit: FullUnit<H, D>) -> Option<SignedUnit<H, D, S>> {
        if !self.units.contains_key(unit.spec_hash()) && self.coords.contains_key(
            unit.spec_coord(),
        ) {
            Some(self.coords[unit.spec_coord()])
        } else {
            None
        }
    }

    /// The store after `unit` was added. A unit that is kept already changes nothing. A new one is
    /// buffered, unless it is a forker's and comes without an alert.
    pub open spec fn add_unit(self, unit: SignedUnit<H, D, S>, alert: bool) -> Self {
        if self.units.contains_key(unit.hash()) {
            self
        } else {
            StoreModel {
                units: self.units.insert(unit.hash(), unit),
                coords: self.coords.insert(unit.coord(), unit),
                buffer: if alert || !self.forkers.contains(unit.creator()) {
                    self.buffer.push(unit)
                } else {
                    self.buffer
                },
                ..self
            }
        }
    }

    /// The store after `node` became known as a forker.
    pub open spec fn mark_forker(self, node: NodeIndex) -> Self {
        StoreModel { forkers: self.forkers.insert(node), ..self }
    }

    /// The units of `creator` by increasing round, up to the greatest round that is allowed.
    pub open spec fn units_of(self, creator: NodeIndex) -> Seq<SignedUnit<H, D, S>> {
        units_below(self.coords, creator, (self.max_round + 1) as nat)
    }

    /// The unit of `creator` with the greatest round.
    pub open spec fn newest_unit(self, creator: NodeIndex) -> Option<SignedUnit<H, D, S>> {
        newest_below(self.coords, creator, (Round::MAX + 1) as nat)
    }

    /// The store after the parents of `hash` became known.
    pub open spec fn add_parents(self, hash: H::Hash, parents: Seq<H::Hash>) -> Self {
        StoreModel { parents: self.parents.insert(hash, parents), ..self }
    }

    /// The hashes of the parents of `hash`, where they are known.
    pub open spec fn get_parents(self, hash: H::Hash) -> Option<Seq<H::Hash>> {
        if self.parents.contains_key(hash) {
            Some(self.parents[hash])
        } else {
            None
        }
    }

    /// The unit with the hash `hash`, where it is kept.
    pub open spec fn unit_by_hash(self, hash: H::Hash) -> Option<SignedUnit<H, D, S>> {
        if self.units.contains_key(hash) {
            Some(self.units[hash])
        } else {
            None
        }
    }
}

/// Adding a unit keeps the tables in agreement.
pub proof fn lemma_add_unit_consistent<H: Hasher, D: Data, S>(
    store: StoreModel<H, D, S>,
    unit: SignedUnit<H, D, S>,
    alert: bool,
)
    requires
        store.consistent(),
    ensures
        store.add_unit(unit, alert).consistent(),
{
    let after = store.add_unit(unit, alert);
    if !store.units.contains_key(unit.hash()) {
        assert forall|c: UnitCoord| #[trigger] after.coords.contains_key(c) implies after.coords[c].coord()
            == c && after.holds(after.coords[c]) by {
            if c != unit.coord() {
                assert(store.coords.contains_key(c));
            }
        }
        assert forall|h: H::Hash| #[trigger] after.units.contains_key(h) implies after.units[h].hash()
            == h && after.coords.contains_key(after.units[h].coord()) by {
            if h != unit.hash() {
                assert(store.units.contains_key(h));
            }
        }
        assert forall|i: int| 0 <= i < after.buffer.len() implies after.holds(
            #[trigger] after.buffer[i],
        ) by {
            if i < store.buffer.len() {
                assert(after.buffer[i] == store.buffer[i]);
                assert(store.holds(store.buffer[i]));
            }
        }
    }
}

/// `newest_below` finds a unit of `creator` in a round below `bound` unless there is none, and none
/// of those units has a greater round.
pub proof fn lemma_newest_below<H: Hasher, D: Data, S>(
    coords: Map<UnitCoord, SignedUnit<H, D, S>>,
    creator: NodeIndex,
    bound: nat,
)
    requires
        bound <= Round::MAX + 1,
    ensures
        match newest_below(coords, creator, bound) {
            Some(unit) => exists|r: Round|
                r < bound && #[trigger] coords.contains_key(UnitCoord { round: r, creator })
                    && coords[UnitCoord { round: r, creator }] == unit && forall|q: Round|
                    r < q < bound ==> !#[trigger] coords.contains_key(
                        UnitCoord { round: q, creator },
                    ),
            None => forall|q: Round|
                q < bound ==> !#[trigger] coords.contains_key(UnitCoord { round: q, creator }),
        },
    decreases bound,
{
    if bound > 0 {
        let coord = UnitCoord { round: (bound - 1) as Round, creator };
        if !coords.contains_key(coord) {
            lemma_newest_below(coords, creator, (bound - 1) as nat);
            assert forall|q: Round| q < bound && q >= bound - 1 implies !#[trigger] coords.contains_key(
                UnitCoord { round: q, creator },
            ) by {
                assert(q == (bound - 1) as Round);
            }
            if let Some(unit) = newest_below(coords, creator, (bound - 1) as nat) {
                let r = choose|r: Round|
                    r < bound - 1 && #[trigger] coords.contains_key(UnitCoord { round: r, creator })
                        && coords[UnitCoord { round: r, creator }] == unit && forall|q: Round|
                        r < q < bound - 1 ==> !#[trigger] coords.contains_key(
                            UnitCoord { round: q, creator },
                        );
                assert(coords.contains_key(UnitCoord { round: r, creator }));
            }
        } else {
            assert(coords.contains_key(UnitCoord { round: (bound - 1) as Round, creator }));
        }
    }
}

/// A unit that is not kept can be found by its hash and by its place once it is added, and is buffered
/// last, unless it is a known forker's and comes without an alert. One that is kept changes nothing.
pub proof fn law_unit_added<H: Hasher, D: Data, S>(
    store: StoreModel<H, D, S>,
    unit: SignedUnit<H, D, S>,
    alert: bool,
)
    ensures
        ({
            let after = store.add_unit(unit, alert);
            let new = !store.units.contains_key(unit.hash());
            &&& !new ==> after == store
            &&& new ==> after.units == store.units.insert(unit.hash(), unit)
            &&& new ==> after.coords == store.coords.insert(unit.coord(), unit)
            &&& new && (alert || !store.forkers.contains(unit.creator())) ==> after.buffer
                == store.buffer.push(unit)
            &&& !alert && store.forkers.contains(unit.creator()) ==> after.buffer == store.buffer
            &&& after.parents == store.parents
            &&& after.forkers == store.forkers
            &&& after.max_round == store.max_round
        }),
{
}

/// A unit forks with the one in its place, and only where it is not kept itself.
pub proof fn law_new_fork<H: Hasher, D: Data, S>(store: StoreModel<H, D, S>, unit: FullUnit<H, D>)
    ensures
        store.new_fork(unit) matches Some(other) ==> {
            &&& !store.units.contains_key(unit.spec_hash())
            &&& store.coords.contains_key(unit.spec_pre_unit().coord)
            &&& store.coords[unit.spec_pre_unit().coord] == other
        },
        store.new_fork(unit) is None ==> store.units.contains_key(unit.spec_hash())
            || !store.coords.contains_key(unit.spec_pre_unit().coord),
{
}

/// A node that is marked is a known forker, and parents that are recorded are known, from then on; nothing
/// else changes. What is known of parents and units is what was recorded.
pub proof fn law_recorded<H: Hasher, D: Data, S>(
    store: StoreModel<H, D, S>,
    node: NodeIndex,
    hash: H::Hash,
    parents: Seq<H::Hash>,
)
    ensures
        store.mark_forker(node) == (StoreModel { forkers: store.forkers.insert(node), ..store }),
        store.add_parents(hash, parents) == (StoreModel {
            parents: store.parents.insert(hash, parents),
            ..store
        }),
        store.get_parents(hash) == if store.parents.contains_key(hash) {
            Some(store.parents[hash])
        } else {
            None
        },
        store.unit_by_hash(hash) == if store.units.contains_key(hash) {
            Some(store.units[hash])
        } else {
            None
        },
{
}

/// The newest unit of a node is the one in its place at the greatest round at which it has one.
pub proof fn law_newest_unit<H: Hasher, D: Data, S>(store: StoreModel<H, D, S>, creator: NodeIndex)
    ensures
        match store.newest_unit(creator) {
            Some(unit) => exists|round: Round| #[trigger]
                store.coords.contains_key(UnitCoord { round, creator })
                    && store.coords[UnitCoord { round, creator }] == unit && forall|later: Round|
                    round < later ==> !#[trigger] store.coords.contains_key(
                        UnitCoord { round: later, creator },
                    ),
            None => forall|round: Round|
                !#[trigger] store.coords.contains_key(UnitCoord { round, creator }),
        },
{
    lemma_newest_below(store.coords, creator, (Round::MAX + 1) as nat);
    if let Some(unit) = store.newest_unit(creator) {
        let round = choose|r: Round|
            r < Round::MAX + 1 && #[trigger] store.coords.contains_key(
                UnitCoord { round: r, creator },
            ) && store.coords[UnitCoord { round: r, creator }] == unit && forall|q: Round|
                r < q < Round::MAX + 1 ==> !#[trigger] store.coords.contains_key(
                    UnitCoord { round: q, creator },
                );
        assert(store.coords.contains_key(UnitCoord { round, creator }));
    }
}

/// Where no unit of `creator` is in a round from `low` on, rounds from `low` on can be left out.
proof fn lemma_newest_below_skip<H: Hasher, D: Data, S>(
    coords: Map<UnitCoord, SignedUnit<H, D, S>>,
    creator: NodeIndex,
    low: nat,
    high: nat,
)
    requires
        low <= high <= Round::MAX + 1,
        forall|q: Round|
            low <= q < high ==> !#[trigger] coords.contains_key(UnitCoord { round: q, creator }),
    ensures
        newest_below(coords, creator, high) == newest_below(coords, creator, low),
    decreases high - low,
{
    if low < high {
        let q = (high - 1) as Round;
        assert(!coords.contains_key(UnitCoord { round: q, creator }));
        lemma_newest_below_skip(coords, creator, low, (high - 1) as nat);
    }
}

/// The units that a node keeps, the parents that it knows of them, the forkers that it knows, and
/// the units that its ordering part has not been told of.
#[verifier::reject_recursive_types(H)]
#[verifier::reject_recursive_types(D)]
#[verifier::reject_recursive_types(S)]
pub struct UnitStore<H: Hasher, D: Data, S> {
    by_coord: HashMap<u128, SignedUnit<H, D, S>>,
    by_hash: HashMap<H::Hash, SignedUnit<H, D, S>>,
    parents: HashMap<H::Hash, Vec<H::Hash>>,
    is_forker: HashSet<usize>,
    legit_buffer: Vec<SignedUnit<H, D, S>>,
    max_round: Round,
    /// No unit has a greater round.
    top_round: Round,
}

impl<H: Hasher, D: Data, S> View for UnitStore<H, D, S> {
    type V = StoreModel<H, D, S>;

    closed spec fn view(&self) -> StoreModel<H, D, S> {
        StoreModel {
            units: self.by_hash@,
            coords: Map::new(
                |c: UnitCoord| self.by_coord@.contains_key(c.spec_key()),
                |c: UnitCoord| self.by_coord@[c.spec_key()],
            ),
            parents: Map::new(
                |h: H::Hash| self.parents@.contains_key(h),
                |h: H::Hash| self.parents@[h]@,
            ),
            forkers: Set::new(|ix: NodeIndex| self.is_forker@.contains(ix.0)),
            buffer: self.legit_buffer@,
            max_round: self.max_round,
        }
    }
}

impl<H: Hasher, D: Data, S> UnitStore<H, D, S> {
    /// The tables agree.
    pub closed spec fn wf(&self) -> bool {
        &&& hash_model::<H::Hash>()
        &&& self@.consistent()
        &&& forall|c: UnitCoord| #[trigger]
            self@.coords.contains_key(c) ==> c.round <= self.top_round
    }

    pub proof fn lemma_wf(&self)
        requires
            self.wf(),
        ensures
            hash_model::<H::Hash>(),
            self@.consistent(),
    {
    }

    /// A store that holds nothing and takes rounds up to `max_round`.
    pub fn new(max_round: Round) -> (store: Self)
        requires
            hash_model::<H::Hash>(),
        ensures
            store.wf(),
            store@ == StoreModel::<H, D, S>::empty(max_round),
    {
        let store = UnitStore {
            by_coord: HashMap::new(),
            by_hash: HashMap::new(),
            parents: HashMap::new(),
            is_forker: HashSet::new(),
            legit_buffer: Vec::new(),
            max_round,
            top_round: 0,
        };
        assert(store@ =~= StoreModel::<H, D, S>::empty(max_round));
        store
    }

    /// The greatest round that a unit may have.
    pub fn limit_per_node(&self) -> (round: Round)
        ensures
            round == self@.max_round,
    {
        self.max_round
    }

    /// The unit in the place `coord`.
    pub fn unit_by_coord(&self, coord: UnitCoord) -> (unit: Option<&SignedUnit<H, D, S>>)
        requires
            self.wf(),
        ensures
            match unit {
                Some(unit) => self@.coords.contains_key(coord) && self@.coords[coord] == *unit,
                None => !self@.coords.contains_key(coord),
            },
    {
        broadcast use vstd::std_specs::hash::group_hash_axioms;

        self.by_coord.get(&coord.key())
    }

    /// The unit with the hash `hash`.
    pub fn unit_by_hash(&self, hash: &H::Hash) -> (unit: Option<&SignedUnit<H, D, S>>)
        requires
            self.wf(),
        ensures
            match unit {
                Some(unit) => self@.unit_by_hash(*hash) == Some(*unit),
                None => self@.unit_by_hash(*hash) is None,
            },
    {
        broadcast use vstd::std_specs::hash::group_hash_axioms;

        self.by_hash.get(hash)
    }

    /// Tells whether a unit with the hash `hash` is kept.
    pub fn contains_hash(&self, hash: &H::Hash) -> (found: bool)
        requires
            self.wf(),
        ensures
            found == self@.units.contains_key(*hash),
    {
        broadcast use vstd::std_specs::hash::group_hash_axioms;

        self.by_hash.contains_key(hash)
    }

    /// Tells whether the place `coord` is taken.
    pub fn contains_coord(&self, coord: &UnitCoord) -> (found: bool)
        requires
            self.wf(),
        ensures
            found == self@.coords.contains_key(*coord),
    {
        broadcast use vstd::std_specs::hash::group_hash_axioms;

        self.by_coord.contains_key(&coord.key())
    }

    /// Hands out the buffered units and empties the buffer.
    pub fn yield_buffer_units(&mut self) -> (units: Vec<SignedUnit<H, D, S>>)
        requires
            old(self).wf(),
        ensures
            final(self).wf(),
            units@ == old(self)@.buffer,
            final(self)@ == (StoreModel { buffer: Seq::empty(), ..old(self)@ }),
    {
        let mut units: Vec<SignedUnit<H, D, S>> = Vec::new();
        std::mem::swap(&mut units, &mut self.legit_buffer);
        assert(self@ =~= StoreModel { buffer: Seq::empty(), ..old(self)@ });
        units
    }

    /// The unit that `unit` forks with: the one in its place, where `unit` is not kept.
    pub fn is_new_fork(&self, unit: &FullUnit<H, D>) -> (other: Option<SignedUnit<H, D, S>>)
        requires
            self.wf(),
        ensures
            other == self@.new_fork(*unit),
    {
        if self.contains_hash(&unit.hash()) {
            return None;
        }
        match self.unit_by_coord(unit.coord()) {
            Some(other) => Some(other.clone()),
            None => None,
        }
    }

    /// Tells whether `node` is known as a forker.
    pub fn is_forker(&self, node: NodeIndex) -> (forker: bool)
        requires
            self.wf(),
        ensures
            forker == self@.forkers.contains(node),
    {
        broadcast use vstd::std_specs::hash::group_hash_axioms;

        self.is_forker.contains(&node.0)
    }

    /// Marks `forker` as a forker and hands out its units by increasing round.
    pub fn mark_forker(&mut self, forker: NodeIndex) -> (units: Vec<SignedUnit<H, D, S>>)
        requires
            old(self).wf(),
        ensures
            final(self).wf(),
            units@ == old(self)@.units_of(forker),
            final(self)@ == old(self)@.mark_forker(forker),
    {
        broadcast use vstd::std_specs::hash::group_hash_axioms;

        self.is_forker.insert(forker.0);
        assert(self@ =~= old(self)@.mark_forker(forker)) by {
            assert(self@.forkers =~= old(self)@.forkers.insert(forker));
        }
        let mut units: Vec<SignedUnit<H, D, S>> = Vec::new();
        let limit: u32 = self.max_round as u32 + 1;
        let mut round: u32 = 0;
        while round < limit
            invariant
                self.wf(),
                limit == self@.max_round + 1,
                round <= limit,
                units@ == units_below(self@.coords, forker, round as nat),
            decreases limit - round,
        {
            if let Some(unit) = self.unit_by_coord(UnitCoord::new(round as Round, forker)) {
                units.push(unit.clone());
            }
            round = round + 1;
        }
        units
    }

    /// Keeps `unit` and buffers it, unless it is kept already. A forker's unit is buffered only
    /// where it comes with an alert.
    pub fn add_unit(&mut self, unit: SignedUnit<H, D, S>, alert: bool)
        requires
            old(self).wf(),
        ensures
            final(self).wf(),
            final(self)@ == old(self)@.add_unit(unit, alert),
    {
        broadcast use vstd::std_specs::hash::group_hash_axioms;

        let hash = unit.as_signable().hash();
        let coord = unit.as_signable().coord();
        if self.contains_hash(&hash) {
            return;
        }
        let buffered = alert || !self.is_forker(coord.creator());
        self.by_hash.insert(hash, unit.clone());
        self.by_coord.insert(coord.key(), unit.clone());
        if coord.round() > self.top_round {
            self.top_round = coord.round();
        }
        if buffered {
            self.legit_buffer.push(unit);
        }
        proof {
            lemma_add_unit_consistent(old(self)@, unit, alert);
            let expected = old(self)@.add_unit(unit, alert);
            assert forall|c: UnitCoord|
                self@.coords.contains_key(c) == expected.coords.contains_key(c) && (
                self@.coords.contains_key(c) ==> self@.coords[c] == expected.coords[c]) by {
                lemma_coord_key(c, coord);
            }
            assert(self@.coords =~= expected.coords);
            assert(self@.parents =~= expected.parents);
            assert(self@.forkers =~= expected.forkers);
            assert(self@ =~= expected);
            assert forall|c: UnitCoord| #[trigger] self@.coords.contains_key(c) implies c.round
                <= self.top_round by {
                if c != coord {
                    assert(old(self)@.coords.contains_key(c));
                }
            }
        }
    }

    /// Records the parents of the unit with the hash `hash`.
    pub fn add_parents(&mut self, hash: H::Hash, parents: Vec<H::Hash>)
        requires
            old(self).wf(),
        ensures
            final(self).wf(),
            final(self)@ == old(self)@.add_parents(hash, parents@),
    {
        broadcast use vstd::std_specs::hash::group_hash_axioms;

        self.parents.insert(hash, parents);
        assert(self@.parents =~= old(self)@.parents.insert(hash, parents@));
        assert(self@ =~= old(self)@.add_parents(hash, parents@));
    }

    /// The hashes of the parents of the unit with the hash `hash`.
    pub fn get_parents(&self, hash: H::Hash) -> (parents: Option<&Vec<H::Hash>>)
        requires
            self.wf(),
        ensures
            match parents {
                Some(parents) => self@.get_parents(hash) == Some(parents@),
                None => self@.get_parents(hash) is None,
            },
    {
        broadcast use vstd::std_specs::hash::group_hash_axioms;

        self.parents.get(&hash)
    }

    /// The unit of `creator` with the greatest round.
    pub fn newest_unit(&self, creator: NodeIndex) -> (unit: Option<SignedUnit<H, D, S>>)
        requires
            self.wf(),
        ensures
            unit == self@.newest_unit(creator),
    {
        let mut bound: u32 = self.top_round as u32 + 1;
        proof {
            lemma_newest_below_skip(
                self@.coords,
                creator,
                bound as nat,
                (Round::MAX + 1) as nat,
            );
        }
        while bound > 0
            invariant
                self.wf(),
                bound <= Round::MAX + 1,
                self@.newest_unit(creator) == newest_below(self@.coords, creator, bound as nat),
            decreases bound,
        {
            bound = bound - 1;
            if let Some(unit) = self.unit_by_coord(UnitCoord::new(bound as Round, creator)) {
                return Some(unit.clone());
            }
        }
        None
    }
}

} // verus!
