//! The namespace a session serves: nodes and the value each holds, kept in
//! memory.

use vstd::prelude::*;

use crate::node::{NodeId, NodeIdView};
use crate::wire::{DataValue, DataValueView};

verus! {

/// Nodes and the value each holds. No node occurs twice.
pub struct Values {
    entries: Vec<(NodeId, DataValue)>,
}

/// That no node occurs twice.
spec fn distinct(entries: Seq<(NodeId, DataValue)>) -> bool {
    forall|i: int, j: int|
        0 <= i < j < entries.len() ==> (#[trigger] entries[i]).0@ != (#[trigger] entries[j]).0@
}

/// That the entry at `at` is that of `node`.
spec fn stands_at(entries: Seq<(NodeId, DataValue)>, node: NodeIdView, at: int) -> bool {
    0 <= at < entries.len() && entries[at].0@ == node
}

/// The value each node holds.
spec fn values_of(entries: Seq<(NodeId, DataValue)>) -> Map<NodeIdView, DataValueView> {
    Map::new(
        |node: NodeIdView| exists|at: int| stands_at(entries, node, at),
        |node: NodeIdView| entries[choose|at: int| stands_at(entries, node, at)].1@,
    )
}

impl View for Values {
    type V = Map<NodeIdView, DataValueView>;

    closed spec fn view(&self) -> Map<NodeIdView, DataValueView> {
        values_of(self.entries@)
    }
}

impl Values {
    #[verifier::type_invariant]
    closed spec fn no_node_twice(self) -> bool {
        distinct(self.entries@)
    }

    /// No nodes.
    pub fn new() -> (values: Self)
        ensures
            values@ == Map::<NodeIdView, DataValueView>::empty(),
    {
        let entries: Vec<(NodeId, DataValue)> = Vec::new();
        assert(values_of(entries@) =~= Map::empty());
        Values { entries }
    }

    /// Where `node` stands among `entries`, or their number.
    fn place(entries: &Vec<(NodeId, DataValue)>, node: &NodeId) -> (place: usize)
        ensures
            place <= entries@.len(),
            place < entries@.len() ==> stands_at(entries@, node@, place as int),
            place == entries@.len() ==> forall|at: int| !stands_at(entries@, node@, at),
    {
        let mut place: usize = 0;
        while place < entries.len()
            invariant
                place <= entries@.len(),
                forall|at: int| 0 <= at < place ==> (#[trigger] entries@[at]).0@ != node@,
            decreases entries@.len() - place,
        {
            if entries[place].0.same(node) {
                return place;
            }
            place += 1;
        }
        place
    }

    /// The value `node` holds.
    pub fn get(&self, node: &NodeId) -> (value: Option<&DataValue>)
        ensures
            match value {
                Some(value) => self@.contains_key(node@) && value@ == self@[node@],
                None => !self@.contains_key(node@),
            },
    {
        proof {
            use_type_invariant(self);
        }
        let place = Self::place(&self.entries, node);
        if place == self.entries.len() {
            return None;
        }
        Some(&self.entries[place].1)
    }

    /// Let `node` hold `value`, whatever it held before.
    pub fn insert(&mut self, node: NodeId, value: DataValue)
        ensures
            final(self)@ == old(self)@.insert(node@, value@),
    {
        proof {
            use_type_invariant(&*self);
        }
        let ghost before = self.entries@;
        let ghost key = node@;
        let ghost held = value@;
        let mut entries: Vec<(NodeId, DataValue)> = Vec::new();
        std::mem::swap(&mut entries, &mut self.entries);
        let place = Self::place(&entries, &node);
        if place == entries.len() {
            entries.push((node, value));
        } else {
            entries[place] = (node, value);
        }
        proof {
            lemma_inserted(before, entries@, key, held, place as int);
        }
        self.entries = entries;
    }
}

/// Where the entry of `node` is replaced, or is put behind the others where
/// it has none, still no node occurs twice, and `node` alone holds another
/// value.
proof fn lemma_inserted(
    before: Seq<(NodeId, DataValue)>,
    after: Seq<(NodeId, DataValue)>,
    node: NodeIdView,
    value: DataValueView,
    place: int,
)
    requires
        distinct(before),
        0 <= place < after.len(),
        after.len() == if place < before.len() {
            before.len()
        } else {
            before.len() + 1
        },
        place < before.len() ==> stands_at(before, node, place),
        place == before.len() ==> forall|at: int| !stands_at(before, node, at),
        after[place].0@ == node,
        after[place].1@ == value,
        forall|at: int| 0 <= at < before.len() && at != place ==> #[trigger] after[at] == before[at],
    ensures
        distinct(after),
        values_of(after) == values_of(before).insert(node, value),
{
    assert forall|at: int| 0 <= at < before.len() && at != place implies (
    #[trigger] before[at]).0@ != node by {
        assert(!stands_at(before, node, at));
    }
    assert(stands_at(after, node, place));
    assert forall|other: NodeIdView, at: int| other != node implies #[trigger] stands_at(
        after,
        other,
        at,
    ) == stands_at(before, other, at) by {}
    let expected = values_of(before).insert(node, value);
    assert forall|other: NodeIdView| #[trigger]
        values_of(after).contains_key(other) == expected.contains_key(other) by {
        if other != node && expected.contains_key(other) {
            let at = choose|at: int| stands_at(before, other, at);
            assert(stands_at(after, other, at));
        }
    }
    assert forall|other: NodeIdView| #[trigger]
        values_of(after).contains_key(other) implies values_of(after)[other]
        == expected[other] by {
        let at = choose|at: int| stands_at(after, other, at);
        if other == node {
            assert(at == place);
        } else {
            let was = choose|at: int| stands_at(before, other, at);
            assert(stands_at(before, other, at));
            assert(at == was);
        }
    }
    assert(values_of(after) =~= expected);
}

} // verus!
