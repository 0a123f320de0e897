//! Node indices, node counts and maps with one entry per node.

use vstd::prelude::*;

verus! {

/// Position of a node in the committee.
#[derive(Clone, Copy, Debug, PartialEq, Eq, Hash, Structural)]
pub struct NodeIndex(pub usize);

impl Default for NodeIndex {
    fn default() -> (ix: Self)
        ensures
            ix == NodeIndex(0),
    {
        NodeIndex(0)
    }
}

/// A number of nodes.
#[derive(Clone, Copy, Debug, PartialEq, Eq, Hash, Structural)]
pub struct NodeCount(pub usize);

/// How many entries of a mask are set.
pub open spec fn count_set(mask: Seq<bool>) -> nat
    decreases mask.len(),
{
    if mask.len() == 0 {
        0
    } else {
        count_set(mask.drop_last()) + if mask.last() { 1nat } else { 0nat }
    }
}

/// The indices of the set entries of a mask, in increasing order.
pub open spec fn set_indices(mask: Seq<bool>) -> Seq<NodeIndex>
    decreases mask.len(),
{
    if mask.len() == 0 {
        Seq::empty()
    } else if mask.last() {
        set_indices(mask.drop_last()).push(NodeIndex((mask.len() - 1) as usize))
    } else {
        set_indices(mask.drop_last())
    }
}

/// The values that a partial map holds, in the order of their nodes.
pub open spec fn present<T>(entries: Seq<Option<T>>) -> Seq<T>
    decreases entries.len(),
{
    if entries.len() == 0 {
        Seq::empty()
    } else {
        match entries.last() {
            Some(value) => present(entries.drop_last()).push(value),
            None => present(entries.drop_last()),
        }
    }
}

/// As many indices are listed as entries are set; each lies inside the mask, names a set entry and
/// is listed once, in increasing order, and no set entry is left out.
pub proof fn lemma_set_indices(mask: Seq<bool>)
    requires
        mask.len() <= usize::MAX,
    ensures
        set_indices(mask).len() == count_set(mask),
        count_set(mask) <= mask.len(),
        forall|k: int|
            0 <= k < set_indices(mask).len() ==> (#[trigger] set_indices(mask)[k]).0 < mask.len()
                && mask[set_indices(mask)[k].0 as int],
        forall|k: int, l: int|
            0 <= k < l < set_indices(mask).len() ==> (#[trigger] set_indices(mask)[k]).0 < (
            #[trigger] set_indices(mask)[l]).0,
        forall|j: int|
            0 <= j < mask.len() && #[trigger] mask[j] ==> exists|k: int|
                0 <= k < set_indices(mask).len() && #[trigger] set_indices(mask)[k] == NodeIndex(
                    j as usize,
                ),
    decreases mask.len(),
{
    if mask.len() > 0 {
        let rest = mask.drop_last();
        lemma_set_indices(rest);
        assert forall|j: int| 0 <= j < mask.len() && #[trigger] mask[j] implies exists|k: int|
            0 <= k < set_indices(mask).len() && #[trigger] set_indices(mask)[k] == NodeIndex(
                j as usize,
            ) by {
            if j < rest.len() {
                assert(rest[j]);
                let k = choose|k: int|
                    0 <= k < set_indices(rest).len() && #[trigger] set_indices(rest)[k]
                        == NodeIndex(j as usize);
                assert(set_indices(mask)[k] == NodeIndex(j as usize));
            } else {
                assert(set_indices(mask)[set_indices(rest).len() as int] == NodeIndex(j as usize));
            }
        }
    }
}

/// As many entries of a mask are counted as there are indices at which it is set.
pub proof fn law_count_set(mask: Seq<bool>)
    ensures
        Set::new(|i: int| 0 <= i < mask.len() && mask[i]).finite(),
        Set::new(|i: int| 0 <= i < mask.len() && mask[i]).len() == count_set(mask),
    decreases mask.len(),
{
    let set = Set::new(|i: int| 0 <= i < mask.len() && mask[i]);
    if mask.len() == 0 {
        assert(set =~= Set::empty());
    } else {
        let rest = mask.drop_last();
        let fewer = Set::new(|i: int| 0 <= i < rest.len() && rest[i]);
        law_count_set(rest);
        if mask.last() {
            assert(set =~= fewer.insert(mask.len() - 1));
            assert(!fewer.contains(mask.len() - 1));
        } else {
            assert(set =~= fewer);
        }
    }
}

/// The values that a partial map holds are those of its entries that are there, each once and in their
/// order.
pub proof fn law_present<T>(entries: Seq<Option<T>>)
    ensures
        present(entries) == entries.filter(|entry: Option<T>| entry is Some).map_values(
            |entry: Option<T>| entry->0,
        ),
    decreases entries.len(),
{
    reveal(Seq::filter);
    let there = |entry: Option<T>| entry is Some;
    if entries.len() > 0 {
        law_present(entries.drop_last());
        let fewer = entries.drop_last().filter(there);
        if let Some(value) = entries.last() {
            assert(entries.filter(there) =~= fewer.push(entries.last()));
        }
    }
    assert(present(entries) =~= entries.filter(there).map_values(|entry: Option<T>| entry->0));
}

/// One entry for each node of the committee.
#[derive(Debug, PartialEq)]
pub struct NodeMap<T> {
    values: Vec<T>,
}

impl<T> View for NodeMap<T> {
    type V = Seq<T>;

    closed spec fn view(&self) -> Seq<T> {
        self.values@
    }
}

impl<T> NodeMap<T> {
    /// The number of entries is a machine integer.
    pub proof fn lemma_len(&self)
        ensures
            self@.len() <= usize::MAX,
    {
        assert(self.values.len() == self.values@.len());
    }

    /// The map whose entry for node `i` is `values[i]`.
    pub fn from_vec(values: Vec<T>) -> (map: Self)
        ensures
            map@ == values@,
    {
        NodeMap { values }
    }

    /// A map with a default entry for each of `len` nodes.
    pub fn new_with_len(len: NodeCount) -> (map: Self) where T: Default
        ensures
            map@.len() == len.0,
            forall|i: int|
                0 <= i < len.0 ==> call_ensures(T::default, (), #[trigger] map@[i]),
    {
        let mut values: Vec<T> = Vec::new();
        let mut i: usize = 0;
        while i < len.0
            invariant
                i <= len.0,
                values@.len() == i,
                forall|j: int| 0 <= j < i ==> call_ensures(T::default, (), #[trigger] values@[j]),
            decreases len.0 - i,
        {
            values.push(T::default());
            i = i + 1;
        }
        NodeMap { values }
    }

    /// The number of nodes that have an entry.
    pub fn size(&self) -> (count: NodeCount)
        ensures
            count.0 == self@.len(),
    {
        NodeCount(self.values.len())
    }

    /// The entry for node `ix`.
    pub fn get(&self, ix: NodeIndex) -> (value: &T)
        requires
            ix.0 < self@.len(),
        ensures
            *value == self@[ix.0 as int],
    {
        &self.values[ix.0]
    }

    /// Replaces the entry for node `ix`.
    pub fn set(&mut self, ix: NodeIndex, value: T)
        requires
            ix.0 < old(self)@.len(),
        ensures
            final(self)@ == old(self)@.update(ix.0 as int, value),
    {
        self.values.set(ix.0, value);
    }
}

impl<T> Default for NodeMap<T> {
    fn default() -> (map: Self)
        ensures
            map@ == Seq::<T>::empty(),
    {
        NodeMap { values: Vec::new() }
    }
}

impl<T: Copy> Clone for NodeMap<T> {
    fn clone(&self) -> (copy: Self)
        ensures
            copy@ == self@,
    {
        let mut values: Vec<T> = Vec::new();
        let mut i: usize = 0;
        while i < self.values.len()
            invariant
                i <= self.values@.len(),
                values@ == self.values@.take(i as int),
            decreases self.values@.len() - i,
        {
            values.push(self.values[i]);
            i = i + 1;
            assert(self.values@.take(i as int) == self.values@.take(i - 1).push(
                self.values@[i - 1],
            ));
        }
        NodeMap { values }
    }
}

impl<T> NodeMap<Option<T>> {
    /// A map of `size` nodes that holds no value.
    pub fn with_size(size: NodeCount) -> (map: Self)
        ensures
            map@ == Seq::new(size.0 as nat, |i: int| None::<T>),
    {
        let map: NodeMap<Option<T>> = NodeMap::new_with_len(size);
        assert(map@ =~= Seq::new(size.0 as nat, |i: int| None::<T>));
        map
    }

    /// Makes `value` the value for node `ix`.
    pub fn insert(&mut self, ix: NodeIndex, value: T)
        requires
            ix.0 < old(self)@.len(),
        ensures
            final(self)@ == old(self)@.update(ix.0 as int, Some(value)),
    {
        self.set(ix, Some(value));
    }
}

impl<T: Copy> NodeMap<Option<T>> {
    /// The values that the map holds, in the order of their nodes.
    pub fn into_values(self) -> (values: Vec<T>)
        ensures
            values@ == present(self@),
    {
        let mut values: Vec<T> = Vec::new();
        let mut i: usize = 0;
        while i < self.values.len()
            invariant
                i <= self.values@.len(),
                values@ == present(self.values@.take(i as int)),
            decreases self.values@.len() - i,
        {
            assert(self.values@.take(i + 1).drop_last() == self.values@.take(i as int));
            if let Some(value) = self.values[i] {
                values.push(value);
            }
            i = i + 1;
        }
        assert(self.values@.take(i as int) == self.values@);
        values
    }
}

impl NodeMap<bool> {
    /// The number of set entries.
    pub fn n_set(&self) -> (count: NodeCount)
        ensures
            count.0 == count_set(self@),
    {
        let mut count: usize = 0;
        let mut i: usize = 0;
        while i < self.values.len()
            invariant
                count <= i <= self.values@.len(),
                count == count_set(self.values@.take(i as int)),
            decreases self.values@.len() - i,
        {
            assert(self.values@.take(i + 1).drop_last() == self.values@.take(i as int));
            if self.values[i] {
                count = count + 1;
            }
            i = i + 1;
        }
        assert(self.values@.take(i as int) == self.values@);
        NodeCount(count)
    }

    /// The nodes whose entries are set, in increasing order.
    pub fn elements(&self) -> (elements: Vec<NodeIndex>)
        ensures
            elements@ == set_indices(self@),
    {
        let mut elements: Vec<NodeIndex> = Vec::new();
        let mut i: usize = 0;
        while i < self.values.len()
            invariant
                i <= self.values@.len(),
                elements@ == set_indices(self.values@.take(i as int)),
            decreases self.values@.len() - i,
        {
            assert(self.values@.take(i + 1).drop_last() == self.values@.take(i as int));
            if self.values[i] {
                elements.push(NodeIndex(i));
            }
            i = i + 1;
        }
        assert(self.values@.take(i as int) == self.values@);
        elements
    }
}

} // verus!
