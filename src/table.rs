//! A table keyed by hardware address: one value per address, kept in the
//! order in which the addresses were first inserted.

use vstd::prelude::*;

use crate::mac::MacAddr;

verus! {

/// The map that a sequence of pairs describes when inserted in order:
/// a later pair for an address overwrites an earlier one.
pub open spec fn pairs_map<V>(s: Seq<(MacAddr, V)>) -> Map<MacAddr, V>
    decreases s.len(),
{
    if s.len() == 0 {
        Map::empty()
    } else {
        pairs_map(s.drop_last()).insert(s.last().0, s.last().1)
    }
}

/// No address occurs twice among the pairs.
pub open spec fn keys_unique<V>(s: Seq<(MacAddr, V)>) -> bool {
    forall|i: int, j: int|
        0 <= i < s.len() && 0 <= j < s.len() && i != j ==> #[trigger] s[i].0 != #[trigger] s[j].0
}

pub proof fn lemma_pairs_map_absent<V>(s: Seq<(MacAddr, V)>, k: MacAddr)
    requires
        forall|i: int| 0 <= i < s.len() ==> #[trigger] s[i].0 != k,
    ensures
        !pairs_map(s).contains_key(k),
    decreases s.len(),
{
    if s.len() > 0 {
        let d = s.drop_last();
        assert forall|i: int| 0 <= i < d.len() implies #[trigger] d[i].0 != k by {
            assert(d[i] == s[i]);
        }
        lemma_pairs_map_absent(d, k);
    }
}

pub proof fn lemma_pairs_map_has<V>(s: Seq<(MacAddr, V)>, k: MacAddr)
    requires
        pairs_map(s).contains_key(k),
    ensures
        exists|i: int| 0 <= i < s.len() && #[trigger] s[i].0 == k,
    decreases s.len(),
{
    if s.last().0 != k {
        let d = s.drop_last();
        lemma_pairs_map_has(d, k);
        let i = choose|i: int| 0 <= i < d.len() && #[trigger] d[i].0 == k;
        assert(s[i] == d[i]);
    } else {
        assert(s[s.len() - 1].0 == k);
    }
}

pub proof fn lemma_pairs_map_index<V>(s: Seq<(MacAddr, V)>, i: int)
    requires
        keys_unique(s),
        0 <= i < s.len(),
    ensures
        pairs_map(s).contains_key(s[i].0),
        pairs_map(s)[s[i].0] == s[i].1,
    decreases s.len(),
{
    if i < s.len() - 1 {
        let d = s.drop_last();
        assert(d[i] == s[i]);
        assert forall|a: int, b: int|
            0 <= a < d.len() && 0 <= b < d.len() && a != b implies #[trigger] d[a].0
            != #[trigger] d[b].0 by {
            assert(d[a] == s[a] && d[b] == s[b]);
        }
        lemma_pairs_map_index(d, i);
        assert(s[s.len() - 1].0 != s[i].0);
    }
}

/// Every address of the map has exactly the value of its one pair.
pub proof fn lemma_pairs_map_lookup<V>(s: Seq<(MacAddr, V)>, k: MacAddr)
    requires
        keys_unique(s),
    ensures
        pairs_map(s).contains_key(k) <==> exists|i: int| 0 <= i < s.len() && #[trigger] s[i].0 == k,
        forall|i: int| 0 <= i < s.len() && #[trigger] s[i].0 == k ==> pairs_map(s)[k] == s[i].1,
{
    if pairs_map(s).contains_key(k) {
        lemma_pairs_map_has(s, k);
    }
    assert forall|i: int| 0 <= i < s.len() && #[trigger] s[i].0 == k implies pairs_map(s).contains_key(k)
        && pairs_map(s)[k] == s[i].1 by {
        lemma_pairs_map_index(s, i);
    }
}

pub proof fn lemma_pairs_map_len<V>(s: Seq<(MacAddr, V)>)
    requires
        keys_unique(s),
    ensures
        pairs_map(s).dom().finite(),
        pairs_map(s).dom().len() == s.len(),
    decreases s.len(),
{
    if s.len() > 0 {
        let d = s.drop_last();
        assert forall|a: int, b: int|
            0 <= a < d.len() && 0 <= b < d.len() && a != b implies #[trigger] d[a].0
            != #[trigger] d[b].0 by {
            assert(d[a] == s[a] && d[b] == s[b]);
        }
        lemma_pairs_map_len(d);
        assert forall|i: int| 0 <= i < d.len() implies #[trigger] d[i].0 != s.last().0 by {
            assert(d[i] == s[i]);
        }
        lemma_pairs_map_absent(d, s.last().0);
    }
}

proof fn lemma_pairs_map_update<V>(s: Seq<(MacAddr, V)>, i: int, v: V)
    requires
        keys_unique(s),
        0 <= i < s.len(),
    ensures
        pairs_map(s.update(i, (s[i].0, v))) == pairs_map(s).insert(s[i].0, v),
    decreases s.len(),
{
    let t = s.update(i, (s[i].0, v));
    let d = s.drop_last();
    if i == s.len() - 1 {
        assert(t.drop_last() =~= d);
        assert(pairs_map(t) =~= pairs_map(s).insert(s[i].0, v));
    } else {
        assert(t.drop_last() =~= d.update(i, (d[i].0, v)));
        assert forall|a: int, b: int|
            0 <= a < d.len() && 0 <= b < d.len() && a != b implies #[trigger] d[a].0
            != #[trigger] d[b].0 by {
            assert(d[a] == s[a] && d[b] == s[b]);
        }
        lemma_pairs_map_update(d, i, v);
        assert(s[s.len() - 1].0 != s[i].0);
        assert(pairs_map(t) =~= pairs_map(s).insert(s[i].0, v));
    }
}

/// A table from hardware address to a value, with at most one entry per
/// address.
pub struct MacTable<V> {
    entries: Vec<(MacAddr, V)>,
}

impl<V> View for MacTable<V> {
    type V = Map<MacAddr, V>;

    open spec fn view(&self) -> Map<MacAddr, V> {
        pairs_map(self.pairs())
    }
}

impl<V> MacTable<V> {
    #[verifier::type_invariant]
    spec fn inv(&self) -> bool {
        keys_unique(self.entries@)
    }

    /// The entries in the order in which their addresses were first inserted.
    pub closed spec fn pairs(&self) -> Seq<(MacAddr, V)> {
        self.entries@
    }

    pub fn new() -> (r: MacTable<V>)
        ensures
            r@ == Map::<MacAddr, V>::empty(),
            r.pairs().len() == 0,
    {
        MacTable { entries: Vec::new() }
    }

    /// The number of addresses in the table.
    pub fn len(&self) -> (r: usize)
        ensures
            r == self@.dom().len(),
            r == self.pairs().len(),
    {
        proof {
            use_type_invariant(self);
            lemma_pairs_map_len(self.pairs());
        }
        self.entries.len()
    }

    /// The entries in the order in which their addresses were first inserted.
    pub fn entries(&self) -> (r: &Vec<(MacAddr, V)>)
        ensures
            r@ == self.pairs(),
            keys_unique(r@),
    {
        proof {
            use_type_invariant(self);
        }
        &self.entries
    }

    fn find(&self, mac: &MacAddr) -> (r: Option<usize>)
        ensures
            match r {
                Some(i) => i < self.pairs().len() && self.pairs()[i as int].0 == *mac,
                None => forall|i: int| 0 <= i < self.pairs().len() ==> #[trigger] self.pairs()[i].0 != *mac,
            },
    {
        let mut i: usize = 0;
        while i < self.entries.len()
            invariant
                i <= self.entries@.len(),
                forall|j: int| 0 <= j < i ==> #[trigger] self.entries@[j].0 != *mac,
            decreases self.entries@.len() - i,
        {
            if self.entries[i].0 == *mac {
                return Some(i);
            }
            i = i + 1;
        }
        None
    }

    /// Whether the address has an entry.
    pub fn contains(&self, mac: &MacAddr) -> (r: bool)
        ensures
            r == self@.contains_key(*mac),
    {
        proof {
            use_type_invariant(self);
            lemma_pairs_map_lookup(self.pairs(), *mac);
        }
        self.find(mac).is_some()
    }

    /// The value held for the address, if any.
    pub fn get(&self, mac: &MacAddr) -> (r: Option<&V>)
        ensures
            r.is_some() == self@.contains_key(*mac),
            r.is_some() ==> *r.unwrap() == self@[*mac],
    {
        proof {
            use_type_invariant(self);
            lemma_pairs_map_lookup(self.pairs(), *mac);
        }
        match self.find(mac) {
            Some(i) => Some(&self.entries[i].1),
            None => None,
        }
    }

    /// Sets the value for the address; an earlier value for it is replaced
    /// and the entry keeps its place.
    pub fn insert(&mut self, mac: MacAddr, value: V)
        ensures
            final(self)@ == old(self)@.insert(mac, value),
            old(self)@.contains_key(mac) ==> final(self).pairs().len() == old(self).pairs().len(),
            !old(self)@.contains_key(mac) ==> final(self).pairs() == old(self).pairs().push(
                (mac, value),
            ),
    {
        proof {
            use_type_invariant(&*self);
            lemma_pairs_map_lookup(self.pairs(), mac);
        }
        let found = self.find(&mac);
        let mut entries: Vec<(MacAddr, V)> = Vec::new();
        std::mem::swap(&mut self.entries, &mut entries);
        match found {
            Some(i) => {
                proof {
                    lemma_pairs_map_update(entries@, i as int, value);
                }
                entries.set(i, (mac, value));
            },
            None => {
                proof {
                    let s = entries@;
                    let t = s.push((mac, value));
                    assert(t.drop_last() =~= s);
                    assert forall|a: int, b: int|
                        0 <= a < t.len() && 0 <= b < t.len() && a != b implies #[trigger] t[a].0
                        != #[trigger] t[b].0 by {
                        if a < s.len() {
                            assert(t[a] == s[a]);
                        }
                        if b < s.len() {
                            assert(t[b] == s[b]);
                        }
                    }
                }
                entries.push((mac, value));
            },
        }
        self.entries = entries;
    }
}

} // verus!
