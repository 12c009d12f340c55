//! The table of proposals in flight, keyed by shard hash. At most one
//! proposal stands under a key; a later one takes the place of an earlier.

use crate::proto::{FullProposal, FullProposalView};
use crate::types::{ShardHash, ShardHashView};
use vstd::prelude::*;

verus! {

/// A proposal under its key.
pub struct Slot {
    pub key: ShardHash,
    pub proposal: FullProposal,
}

impl View for Slot {
    type V = (ShardHashView, FullProposalView);

    open spec fn view(&self) -> (ShardHashView, FullProposalView) {
        (self.key@, self.proposal@)
    }
}

/// The slots as pairs of views.
pub open spec fn slot_views(s: Seq<Slot>) -> Seq<(ShardHashView, FullProposalView)> {
    Seq::new(s.len(), |i: int| s[i]@)
}

/// The map that a list of slots stands for.
pub open spec fn as_map(s: Seq<(ShardHashView, FullProposalView)>) -> Map<
    ShardHashView,
    FullProposalView,
>
    decreases s.len(),
{
    if s.len() == 0 {
        Map::empty()
    } else {
        as_map(s.drop_last()).insert(s.last().0, s.last().1)
    }
}

/// Whether no key stands in two slots.
pub open spec fn distinct_keys(s: Seq<(ShardHashView, FullProposalView)>) -> bool {
    forall|i: int, j: int| 0 <= i < j < s.len() ==> (#[trigger] s[i]).0 != (#[trigger] s[j]).0
}

/// A key is in the map exactly where it stands in a slot.
pub proof fn lemma_as_map_dom(s: Seq<(ShardHashView, FullProposalView)>, k: ShardHashView)
    ensures
        as_map(s).dom().contains(k) <==> exists|i: int| 0 <= i < s.len() && (#[trigger] s[i]).0 == k,
    decreases s.len(),
{
    if s.len() > 0 {
        let t = s.drop_last();
        lemma_as_map_dom(t, k);
        if as_map(s).dom().contains(k) {
            if s.last().0 == k {
                assert(s[s.len() - 1].0 == k);
            } else {
                let i = choose|i: int| 0 <= i < t.len() && (#[trigger] t[i]).0 == k;
                assert(s[i].0 == k);
            }
        }
        if exists|i: int| 0 <= i < s.len() && (#[trigger] s[i]).0 == k {
            let i = choose|i: int| 0 <= i < s.len() && (#[trigger] s[i]).0 == k;
            if i < t.len() {
                assert(t[i].0 == k);
            }
        }
    }
}

/// Where no key stands twice, the map gives each key the proposal in its
/// slot.
pub proof fn lemma_as_map_index(s: Seq<(ShardHashView, FullProposalView)>, i: int)
    requires
        distinct_keys(s),
        0 <= i < s.len(),
    ensures
        as_map(s).dom().contains(s[i].0),
        as_map(s)[s[i].0] == s[i].1,
    decreases s.len(),
{
    let t = s.drop_last();
    if i < s.len() - 1 {
        assert forall|a: int, b: int| 0 <= a < b < t.len() implies (#[trigger] t[a]).0 != (
        #[trigger] t[b]).0 by {
            assert(t[a] == s[a] && t[b] == s[b]);
        }
        lemma_as_map_index(t, i);
        assert(t[i] == s[i]);
        assert(s[i].0 != s[s.len() - 1].0);
    }
}

/// Taking a slot out takes its key out of the map, and leaves no key twice.
pub proof fn lemma_as_map_remove(s: Seq<(ShardHashView, FullProposalView)>, i: int)
    requires
        distinct_keys(s),
        0 <= i < s.len(),
    ensures
        as_map(s.remove(i)) == as_map(s).remove(s[i].0),
        distinct_keys(s.remove(i)),
    decreases s.len(),
{
    let r = s.remove(i);
    assert forall|a: int, b: int| 0 <= a < b < r.len() implies (#[trigger] r[a]).0 != (
    #[trigger] r[b]).0 by {
        let a2 = if a < i {
            a
        } else {
            a + 1
        };
        let b2 = if b < i {
            b
        } else {
            b + 1
        };
        assert(r[a] == s[a2] && r[b] == s[b2]);
    }
    let t = s.drop_last();
    if i == s.len() - 1 {
        assert(r =~= t);
        lemma_as_map_dom(t, s[i].0);
        if as_map(t).dom().contains(s[i].0) {
            let j = choose|j: int| 0 <= j < t.len() && (#[trigger] t[j]).0 == s[i].0;
            assert(t[j] == s[j]);
        }
        assert(as_map(t) =~= as_map(s).remove(s[i].0));
    } else {
        assert forall|a: int, b: int| 0 <= a < b < t.len() implies (#[trigger] t[a]).0 != (
        #[trigger] t[b]).0 by {
            assert(t[a] == s[a] && t[b] == s[b]);
        }
        lemma_as_map_remove(t, i);
        assert(t[i] == s[i]);
        assert(r.drop_last() =~= t.remove(i));
        assert(r.last() == s.last());
        assert(s[i].0 != s[s.len() - 1].0);
        assert(as_map(r) =~= as_map(s).remove(s[i].0));
    }
}

/// The proposals in flight.
pub struct ProposalTable {
    slots: Vec<Slot>,
}

impl View for ProposalTable {
    type V = Map<ShardHashView, FullProposalView>;

    closed spec fn view(&self) -> Map<ShardHashView, FullProposalView> {
        as_map(slot_views(self.slots@))
    }
}

impl ProposalTable {
    #[verifier::type_invariant]
    spec fn no_key_twice(&self) -> bool {
        distinct_keys(slot_views(self.slots@))
    }

    pub fn new() -> (table: ProposalTable)
        ensures
            table@ == Map::<ShardHashView, FullProposalView>::empty(),
    {
        ProposalTable { slots: Vec::new() }
    }

    /// The slot in which `key` stands.
    fn find(&self, key: &ShardHash) -> (r: Option<usize>)
        ensures
            match r {
                Some(i) => i < self.slots.len() && self.slots@[i as int].key@ == key@,
                None => forall|j: int| 0 <= j < self.slots.len() ==> (#[trigger] self.slots@[j]).key@
                    != key@,
            },
    {
        let mut i: usize = 0;
        while i < self.slots.len()
            invariant
                i <= self.slots.len(),
                forall|j: int| 0 <= j < i ==> (#[trigger] self.slots@[j]).key@ != key@,
            decreases self.slots.len() - i,
        {
            if self.slots[i].key.same(key) {
                return Some(i);
            }
            i += 1;
        }
        None
    }

    /// The proposal under `key`.
    pub fn get(&self, key: &ShardHash) -> (r: Option<FullProposal>)
        ensures
            match r {
                Some(p) => self@.dom().contains(key@) && p@ == self@[key@],
                None => !self@.dom().contains(key@),
            },
    {
        let ghost views = slot_views(self.slots@);
        proof {
            use_type_invariant(self);
            lemma_as_map_dom(views, key@);
        }
        match self.find(key) {
            Some(i) => {
                proof {
                    lemma_as_map_index(views, i as int);
                }
                Some(self.slots[i].proposal.clone())
            },
            None => {
                proof {
                    if self@.dom().contains(key@) {
                        let j = choose|j: int| 0 <= j < views.len() && (#[trigger] views[j]).0
                            == key@;
                        assert(self.slots@[j].key@ == key@);
                    }
                }
                None
            },
        }
    }

    /// Takes the proposal under `key` out of the table.
    pub fn remove(&mut self, key: &ShardHash)
        ensures
            final(self)@ == old(self)@.remove(key@),
    {
        let ghost views = slot_views(self.slots@);
        proof {
            use_type_invariant(&*self);
            lemma_as_map_dom(views, key@);
        }
        match self.find(key) {
            Some(i) => {
                let mut slots: Vec<Slot> = Vec::new();
                core::mem::swap(&mut self.slots, &mut slots);
                proof {
                    lemma_as_map_remove(views, i as int);
                    assert(slot_views(slots@.remove(i as int)) =~= views.remove(i as int));
                }
                slots.remove(i);
                self.slots = slots;
            },
            None => {
                proof {
                    if old(self)@.dom().contains(key@) {
                        let j = choose|j: int| 0 <= j < views.len() && (#[trigger] views[j]).0
                            == key@;
                        assert(self.slots@[j].key@ == key@);
                    }
                    assert(old(self)@.remove(key@) =~= old(self)@);
                }
            },
        }
    }

    /// Puts `proposal` under `key`, in place of what stood there.
    pub fn insert(&mut self, key: ShardHash, proposal: FullProposal)
        ensures
            final(self)@ == old(self)@.insert(key@, proposal@),
    {
        self.remove(&key);
        let ghost views = slot_views(self.slots@);
        proof {
            use_type_invariant(&*self);
            lemma_as_map_dom(views, key@);
        }
        let mut slots: Vec<Slot> = Vec::new();
        core::mem::swap(&mut self.slots, &mut slots);
        proof {
            let after = views.push((key@, proposal@));
            assert(slot_views(slots@.push(Slot { key, proposal })) =~= after);
            assert(after.drop_last() =~= views);
            assert forall|a: int, b: int| 0 <= a < b < after.len() implies (#[trigger] after[a]).0
                != (#[trigger] after[b]).0 by {
                assert(after[a] == views[a]);
                if b < views.len() {
                    assert(after[b] == views[b]);
                }
            }
            assert(as_map(after) =~= old(self)@.insert(key@, proposal@));
        }
        slots.push(Slot { key, proposal });
        self.slots = slots;
    }
}

} // verus!
