//! The index from hardware address to network.

use vstd::prelude::*;
use crate::config_drive::network_info::{Network, NetworkView};

verus! {

/// A map from hardware address to network, in which every address stands
/// once and a later entry for an address replaces the earlier one.
#[derive(Debug)]
pub struct InterfaceMap {
    entries: Vec<(String, Network)>,
}

/// The map that a run of entries builds up, the later entry winning.
pub open spec fn entries_map(entries: Seq<(String, Network)>) -> Map<Seq<char>, NetworkView>
    decreases entries.len(),
{
    if entries.len() == 0 {
        Map::empty()
    } else {
        entries_map(entries.drop_last()).insert(entries.last().0@, entries.last().1@)
    }
}

/// No key stands twice among `entries`.
pub open spec fn distinct_keys(entries: Seq<(String, Network)>) -> bool {
    forall|i: int, j: int|
        0 <= i < j < entries.len() ==> (#[trigger] entries[i]).0@ != (#[trigger] entries[j]).0@
}

/// A key is in the map exactly if an entry has it.
pub proof fn lemma_entries_domain(entries: Seq<(String, Network)>, key: Seq<char>)
    ensures
        entries_map(entries).contains_key(key) <==> exists|i: int|
            0 <= i < entries.len() && (#[trigger] entries[i]).0@ == key,
    decreases entries.len(),
{
    if entries.len() > 0 {
        let front = entries.drop_last();
        lemma_entries_domain(front, key);
        if entries_map(entries).contains_key(key) {
            if entries.last().0@ == key {
                assert(entries[entries.len() - 1].0@ == key);
            } else {
                let i = choose|i: int| 0 <= i < front.len() && (#[trigger] front[i]).0@ == key;
                assert(entries[i].0@ == key);
            }
        }
        if exists|i: int| 0 <= i < entries.len() && (#[trigger] entries[i]).0@ == key {
            let i = choose|i: int| 0 <= i < entries.len() && (#[trigger] entries[i]).0@ == key;
            if i < entries.len() - 1 {
                assert(front[i].0@ == key);
            }
        }
    }
}

/// Where no key stands twice, the map gives each key the network of its
/// entry.
pub proof fn lemma_entries_value(entries: Seq<(String, Network)>, i: int)
    requires
        distinct_keys(entries),
        0 <= i < entries.len(),
    ensures
        entries_map(entries).contains_key(entries[i].0@),
        entries_map(entries)[entries[i].0@] == entries[i].1@,
    decreases entries.len(),
{
    let front = entries.drop_last();
    if i < entries.len() - 1 {
        assert(distinct_keys(front)) by {
            assert forall|a: int, b: int| 0 <= a < b < front.len() implies (#[trigger] front[a]).0@
                != (#[trigger] front[b]).0@ by {
                assert(front[a] == entries[a]);
                assert(front[b] == entries[b]);
            }
        }
        lemma_entries_value(front, i);
        assert(front[i] == entries[i]);
        assert(entries[i].0@ != entries[entries.len() - 1].0@);
    }
}

/// Where no key stands twice, the map holds as many keys as there are
/// entries.
pub proof fn lemma_entries_len(entries: Seq<(String, Network)>)
    requires
        distinct_keys(entries),
    ensures
        entries_map(entries).dom().finite(),
        entries_map(entries).len() == entries.len(),
    decreases entries.len(),
{
    if entries.len() > 0 {
        let front = entries.drop_last();
        assert(distinct_keys(front)) by {
            assert forall|a: int, b: int| 0 <= a < b < front.len() implies (#[trigger] front[a]).0@
                != (#[trigger] front[b]).0@ by {
                assert(front[a] == entries[a]);
                assert(front[b] == entries[b]);
            }
        }
        lemma_entries_len(front);
        lemma_entries_domain(front, entries.last().0@);
        if entries_map(front).contains_key(entries.last().0@) {
            let i = choose|i: int| 0 <= i < front.len() && (#[trigger] front[i]).0@ == entries.last().0@;
            assert(front[i] == entries[i]);
            assert(entries[i].0@ != entries[entries.len() - 1].0@);
        }
    }
}

/// Entries with the same keys and the same networks build the same map.
pub proof fn lemma_entries_alike(first: Seq<(String, Network)>, second: Seq<(String, Network)>)
    requires
        first.len() == second.len(),
        forall|i: int|
            0 <= i < first.len() ==> (#[trigger] first[i]).0@ == second[i].0@ && first[i].1@
                == second[i].1@,
    ensures
        entries_map(first) == entries_map(second),
    decreases first.len(),
{
    if first.len() > 0 {
        assert(first.last() == first[first.len() - 1]);
        assert forall|i: int| 0 <= i < first.drop_last().len() implies (
        #[trigger] first.drop_last()[i]).0@ == second.drop_last()[i].0@ && first.drop_last()[i].1@
            == second.drop_last()[i].1@ by {
            assert(first.drop_last()[i] == first[i]);
        }
        lemma_entries_alike(first.drop_last(), second.drop_last());
    }
}

impl View for InterfaceMap {
    type V = Map<Seq<char>, NetworkView>;

    closed spec fn view(&self) -> Map<Seq<char>, NetworkView> {
        entries_map(self.entries@)
    }
}

impl InterfaceMap {
    /// Every address stands once.
    #[verifier::type_invariant]
    spec fn distinct(&self) -> bool {
        distinct_keys(self.entries@)
    }

    /// The empty map.
    pub fn new() -> (map: InterfaceMap)
        ensures
            map@ == Map::<Seq<char>, NetworkView>::empty(),
    {
        InterfaceMap { entries: Vec::new() }
    }

    /// The position of the entry for `key`.
    fn position(&self, key: &String) -> (found: Option<usize>)
        ensures
            match found {
                Some(i) => i < self.entries@.len() && self.entries@[i as int].0@ == key@,
                None => forall|i: int|
                    0 <= i < self.entries@.len() ==> (#[trigger] self.entries@[i]).0@ != key@,
            },
    {
        let mut i: usize = 0;
        while i < self.entries.len()
            invariant
                i <= self.entries@.len(),
                forall|k: int| 0 <= k < i ==> (#[trigger] self.entries@[k]).0@ != key@,
            decreases self.entries@.len() - i,
        {
            if self.entries[i].0 == *key {
                return Some(i);
            }
            i = i + 1;
        }
        None
    }

    /// Puts `network` under `key`, in place of what stood there.
    pub fn insert(&mut self, key: String, network: Network)
        ensures
            final(self)@ == old(self)@.insert(key@, network@),
    {
        let ghost before = self.entries@;
        let ghost k = key@;
        let ghost v = network@;
        proof {
            use_type_invariant(&*self);
            lemma_entries_domain(before, k);
        }
        let found = self.position(&key);
        let mut entries: Vec<(String, Network)> = Vec::new();
        core::mem::swap(&mut self.entries, &mut entries);
        match found {
            Some(i) => {
                entries[i] = (key, network);
                proof {
                    let after = entries@;
                    assert(after == before.update(i as int, after[i as int]));
                    assert(distinct_keys(after)) by {
                        assert forall|a: int, b: int| 0 <= a < b < after.len() implies (
                        #[trigger] after[a]).0@ != (#[trigger] after[b]).0@ by {
                            assert(after[a].0@ == before[a].0@);
                            assert(after[b].0@ == before[b].0@);
                        }
                    }
                    assert(before[i as int].0@ == k);
                    assert forall|q: Seq<char>|
                        entries_map(after).contains_key(q) <==> entries_map(before).insert(
                            k,
                            v,
                        ).contains_key(q) by {
                        lemma_entries_domain(before, q);
                        lemma_entries_domain(after, q);
                        if entries_map(after).contains_key(q) {
                            let j = choose|j: int|
                                0 <= j < after.len() && (#[trigger] after[j]).0@ == q;
                            assert(before[j].0@ == q);
                        }
                        if entries_map(before).contains_key(q) {
                            let j = choose|j: int|
                                0 <= j < before.len() && (#[trigger] before[j]).0@ == q;
                            assert(after[j].0@ == q);
                        }
                        if q == k {
                            assert(after[i as int].0@ == q);
                        }
                    }
                    assert forall|q: Seq<char>| entries_map(after).contains_key(q) implies (
                    #[trigger] entries_map(after)[q]) == entries_map(before).insert(k, v)[q] by {
                        lemma_entries_domain(after, q);
                        let j = choose|j: int| 0 <= j < after.len() && (#[trigger] after[j]).0@ == q;
                        lemma_entries_value(after, j);
                        if j != i {
                            lemma_entries_value(before, j);
                            assert(before[j] == after[j]);
                        }
                    }
                    assert(entries_map(after) =~= entries_map(before).insert(k, v));
                }
            },
            None => {
                entries.push((key, network));
                proof {
                    let after = entries@;
                    assert(after.drop_last() == before);
                    assert(distinct_keys(after)) by {
                        assert forall|a: int, b: int| 0 <= a < b < after.len() implies (
                        #[trigger] after[a]).0@ != (#[trigger] after[b]).0@ by {
                            if b < before.len() {
                                assert(after[a] == before[a]);
                                assert(after[b] == before[b]);
                            } else {
                                assert(after[a] == before[a]);
                            }
                        }
                    }
                }
            },
        }
        core::mem::swap(&mut self.entries, &mut entries);
    }

    /// The network under `key`.
    pub fn get(&self, key: &String) -> (found: Option<&Network>)
        ensures
            match found {
                Some(network) => self@.contains_key(key@) && self@[key@] == network@,
                None => !self@.contains_key(key@),
            },
    {
        proof {
            use_type_invariant(self);
            lemma_entries_domain(self.entries@, key@);
        }
        match self.position(key) {
            Some(i) => {
                proof {
                    lemma_entries_value(self.entries@, i as int);
                }
                Some(&self.entries[i].1)
            },
            None => None,
        }
    }

    /// Whether the map holds `key`.
    pub fn contains_key(&self, key: &String) -> (held: bool)
        ensures
            held == self@.contains_key(key@),
    {
        self.get(key).is_some()
    }

    /// How many addresses the map holds.
    pub fn len(&self) -> (n: usize)
        ensures
            self@.dom().finite(),
            n == self@.len(),
    {
        proof {
            use_type_invariant(self);
            lemma_entries_len(self.entries@);
        }
        self.entries.len()
    }
}

impl Clone for InterfaceMap {
    fn clone(&self) -> (copy: InterfaceMap)
        ensures
            copy@ == self@,
    {
        let mut entries: Vec<(String, Network)> = Vec::new();
        let mut i: usize = 0;
        while i < self.entries.len()
            invariant
                i <= self.entries@.len(),
                entries@.len() == i,
                forall|k: int|
                    0 <= k < i ==> (#[trigger] entries@[k]).0@ == self.entries@[k].0@
                        && entries@[k].1@ == self.entries@[k].1@,
            decreases self.entries@.len() - i,
        {
            entries.push((self.entries[i].0.clone(), self.entries[i].1.clone()));
            i = i + 1;
        }
        proof {
            use_type_invariant(self);
            lemma_entries_alike(entries@, self.entries@);
            assert forall|a: int, b: int| 0 <= a < b < entries@.len() implies (
            #[trigger] entries@[a]).0@ != (#[trigger] entries@[b]).0@ by {
                assert(self.entries@[a].0@ != self.entries@[b].0@);
            }
        }
        InterfaceMap { entries }
    }
}

} // verus!
