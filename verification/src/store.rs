//! The account data store: addresses mapped to raw account bytes, held in
//! ascending address order so that traversal is deterministic.
//!
//! The store's model is a map from address characters to byte sequences;
//! `spec_entries` exposes the traversal order, which the well-formedness
//! invariant pins to strictly ascending code-point order.

use vstd::prelude::*;
use vstd::map::*;
use crate::reader::spec_str_lt;

verus! {

/// The map a sequence of entries holds; meaningful when keys are distinct.
pub closed spec fn spec_map_of(s: Seq<(String, Vec<u8>)>) -> Map<Seq<char>, Seq<u8>> {
    Map::new(
        |k: Seq<char>| exists|i: int| 0 <= i < s.len() && (#[trigger] s[i]).0@ == k,
        |k: Seq<char>|
            s[choose|i: int| 0 <= i < s.len() && (#[trigger] s[i]).0@ == k].1@,
    )
}

/// No two entries share an address.
pub open spec fn spec_distinct_entry_keys(s: Seq<(String, Vec<u8>)>) -> bool {
    forall|i: int, j: int| 0 <= i < j < s.len() ==> (#[trigger] s[i]).0@ != (#[trigger] s[j]).0@
}

/// Every entry is in the map, at its own bytes.
pub proof fn lemma_map_of_index(s: Seq<(String, Vec<u8>)>, i: int)
    requires
        spec_distinct_entry_keys(s),
        0 <= i < s.len(),
    ensures
        spec_map_of(s).contains_key(s[i].0@),
        spec_map_of(s)[s[i].0@] == s[i].1@,
{
    let k = s[i].0@;
    let w = choose|j: int| 0 <= j < s.len() && (#[trigger] s[j]).0@ == k;
    assert(s[i].0@ == k);
    assert(w == i);
}

/// A present address names some entry.
pub proof fn lemma_map_of_witness(s: Seq<(String, Vec<u8>)>, k: Seq<char>) -> (i: int)
    requires
        spec_map_of(s).contains_key(k),
    ensures
        0 <= i < s.len(),
        s[i].0@ == k,
{
    choose|i: int| 0 <= i < s.len() && (#[trigger] s[i]).0@ == k
}

/// The store's map is the map its entries hold.
pub proof fn lemma_view_is_map_of(s: AccountDataStore)
    ensures
        s@ == spec_map_of(s.spec_entries()),
{
}

/// A missing address is not in the map.
pub proof fn lemma_map_of_absent(s: Seq<(String, Vec<u8>)>, k: Seq<char>)
    requires
        forall|i: int| 0 <= i < s.len() ==> (#[trigger] s[i]).0@ != k,
    ensures
        !spec_map_of(s).contains_key(k),
{
}

/// Inserting an entry with a fresh address inserts into the map.
proof fn lemma_map_of_insert(s: Seq<(String, Vec<u8>)>, p: int, e: (String, Vec<u8>))
    requires
        spec_distinct_entry_keys(s),
        0 <= p <= s.len(),
        forall|i: int| 0 <= i < s.len() ==> (#[trigger] s[i]).0@ != e.0@,
    ensures
        spec_distinct_entry_keys(s.insert(p, e)),
        spec_map_of(s.insert(p, e)) == spec_map_of(s).insert(e.0@, e.1@),
{
    let t = s.insert(p, e);
    assert(t.len() == s.len() + 1);
    assert(forall|q: int| 0 <= q < p ==> t[q] == s[q]);
    assert(t[p] == e);
    assert(forall|q: int| p < q < t.len() ==> t[q] == s[q - 1]);
    assert(spec_distinct_entry_keys(t));
    assert_maps_equal!(spec_map_of(t), spec_map_of(s).insert(e.0@, e.1@), k => {
        if k == e.0@ {
            lemma_map_of_index(t, p);
        } else {
            if spec_map_of(s).contains_key(k) {
                let i = choose|i: int| 0 <= i < s.len() && (#[trigger] s[i]).0@ == k;
                lemma_map_of_index(s, i);
                let q = if i < p { i } else { i + 1 };
                assert(t[q].0@ == k);
                lemma_map_of_index(t, q);
            }
            if spec_map_of(t).contains_key(k) {
                let j = choose|j: int| 0 <= j < t.len() && (#[trigger] t[j]).0@ == k;
                lemma_map_of_index(t, j);
                let q = if j < p { j } else { j - 1 };
                assert(s[q].0@ == k);
                lemma_map_of_index(s, q);
            }
        }
    });
}

/// Replacing an entry's bytes overwrites the address in the map.
proof fn lemma_map_of_update(s: Seq<(String, Vec<u8>)>, p: int, e: (String, Vec<u8>))
    requires
        spec_distinct_entry_keys(s),
        0 <= p < s.len(),
        s[p].0@ == e.0@,
    ensures
        spec_distinct_entry_keys(s.update(p, e)),
        spec_map_of(s.update(p, e)) == spec_map_of(s).insert(e.0@, e.1@),
{
    let t = s.update(p, e);
    assert(spec_distinct_entry_keys(t));
    assert_maps_equal!(spec_map_of(t), spec_map_of(s).insert(e.0@, e.1@), k => {
        if k == e.0@ {
            lemma_map_of_index(t, p);
            lemma_map_of_index(s, p);
        } else {
            if spec_map_of(s).contains_key(k) {
                let i = choose|i: int| 0 <= i < s.len() && (#[trigger] s[i]).0@ == k;
                lemma_map_of_index(s, i);
                assert(t[i].0@ == k);
                lemma_map_of_index(t, i);
            }
            if spec_map_of(t).contains_key(k) {
                let j = choose|j: int| 0 <= j < t.len() && (#[trigger] t[j]).0@ == k;
                lemma_map_of_index(t, j);
                assert(s[j].0@ == k);
                lemma_map_of_index(s, j);
            }
        }
    });
}

/// Removing an entry removes its address from the map.
pub proof fn lemma_map_of_remove(s: Seq<(String, Vec<u8>)>, p: int)
    requires
        spec_distinct_entry_keys(s),
        0 <= p < s.len(),
    ensures
        spec_distinct_entry_keys(s.remove(p)),
        spec_map_of(s.remove(p)) == spec_map_of(s).remove(s[p].0@),
{
    let t = s.remove(p);
    assert(forall|q: int| 0 <= q < p ==> t[q] == s[q]);
    assert(forall|q: int| p <= q < t.len() ==> t[q] == s[q + 1]);
    assert(spec_distinct_entry_keys(t));
    assert_maps_equal!(spec_map_of(t), spec_map_of(s).remove(s[p].0@), k => {
        if k != s[p].0@ {
            if spec_map_of(s).contains_key(k) {
                let i = choose|i: int| 0 <= i < s.len() && (#[trigger] s[i]).0@ == k;
                lemma_map_of_index(s, i);
                let q = if i < p { i } else { i - 1 };
                assert(t[q].0@ == k);
                lemma_map_of_index(t, q);
            }
            if spec_map_of(t).contains_key(k) {
                let j = choose|j: int| 0 <= j < t.len() && (#[trigger] t[j]).0@ == k;
                lemma_map_of_index(t, j);
                let q = if j < p { j } else { j + 1 };
                assert(s[q].0@ == k);
                lemma_map_of_index(s, q);
            }
        } else {
            if spec_map_of(t).contains_key(k) {
                let j = choose|j: int| 0 <= j < t.len() && (#[trigger] t[j]).0@ == k;
                let q = if j < p { j } else { j + 1 };
                assert(s[q].0@ == k && q != p);
            }
        }
    });
}

/// A keyed store of account bytes with ordered traversal.
pub struct AccountDataStore {
    entries: Vec<(String, Vec<u8>)>,
}

impl View for AccountDataStore {
    type V = Map<Seq<char>, Seq<u8>>;

    closed spec fn view(&self) -> Map<Seq<char>, Seq<u8>> {
        spec_map_of(self.entries@)
    }
}

impl AccountDataStore {
    /// The entries in traversal order.
    pub closed spec fn spec_entries(self) -> Seq<(String, Vec<u8>)> {
        self.entries@
    }

    /// Well-formed: addresses strictly ascend in code-point order.
    pub open spec fn inv(self) -> bool {
        forall|i: int, j: int|
            0 <= i < j < self.spec_entries().len() ==> spec_str_lt(
                (#[trigger] self.spec_entries()[i]).0@,
                (#[trigger] self.spec_entries()[j]).0@,
            )
    }

    /// Strictly ascending addresses are distinct.
    pub proof fn lemma_inv_distinct(self)
        requires
            self.inv(),
        ensures
            spec_distinct_entry_keys(self.spec_entries()),
    {
        crate::reader::lemma_str_order_properties();
        assert forall|i: int, j: int|
            0 <= i < j < self.spec_entries().len() implies (#[trigger] self.spec_entries()[i]).0@
            != (#[trigger] self.spec_entries()[j]).0@ by {
            assert(spec_str_lt(self.spec_entries()[i].0@, self.spec_entries()[j].0@));
        }
    }

    /// Every entry holds its address's bytes; the traversal shows exactly
    /// the map, each address once, in ascending order.
    pub proof fn lemma_entries_view(self, i: int)
        requires
            self.inv(),
            0 <= i < self.spec_entries().len(),
        ensures
            self@.contains_key(self.spec_entries()[i].0@),
            self@[self.spec_entries()[i].0@] == self.spec_entries()[i].1@,
    {
        self.lemma_inv_distinct();
        lemma_map_of_index(self.spec_entries(), i);
    }

    /// An empty in-memory store. An embedded on-disk backing behind the
    /// same interface would come through the replay engine's store crate,
    /// which the registry does not carry, so this build keeps the one
    /// backing.
    pub fn new_on_memory() -> (r: AccountDataStore)
        ensures
            r@ == Map::<Seq<char>, Seq<u8>>::empty(),
            r.inv(),
            r.spec_entries().len() == 0,
    {
        let r = AccountDataStore { entries: Vec::new() };
        proof {
            assert(r@ =~= Map::<Seq<char>, Seq<u8>>::empty());
        }
        r
    }

    /// How many accounts the store holds.
    pub fn len(&self) -> (r: usize)
        ensures
            r == self.spec_entries().len(),
    {
        self.entries.len()
    }

    /// The entry at a traversal position.
    pub fn entry_at(&self, i: usize) -> (r: (&String, &Vec<u8>))
        requires
            i < self.spec_entries().len(),
        ensures
            *r.0 == self.spec_entries()[i as int].0,
            *r.1 == self.spec_entries()[i as int].1,
    {
        let e = &self.entries[i];
        (&e.0, &e.1)
    }

    /// The bytes stored for an address, if any.
    pub fn get(&self, pubkey: &str) -> (r: Option<&Vec<u8>>)
        requires
            self.inv(),
        ensures
            r is Some <==> self@.contains_key(pubkey@),
            r is Some ==> r->0@ == self@[pubkey@],
    {
        let n = self.entries.len();
        let mut i: usize = 0;
        while i < n
            invariant
                n == self.spec_entries().len(),
                i <= n,
                self.inv(),
                forall|k: int| 0 <= k < i ==> (#[trigger] self.spec_entries()[k]).0@ != pubkey@,
            decreases n - i,
        {
            if crate::reader::str_eq(self.entries[i].0.as_str(), pubkey) {
                proof {
                    self.lemma_entries_view(i as int);
                }
                return Some(&self.entries[i].1);
            }
            i = i + 1;
        }
        proof {
            lemma_map_of_absent(self.spec_entries(), pubkey@);
        }
        None
    }

    /// Insert or replace an address's bytes.
    pub fn upsert(&mut self, pubkey: String, data: Vec<u8>)
        requires
            old(self).inv(),
        ensures
            final(self).inv(),
            final(self)@ == old(self)@.insert(pubkey@, data@),
    {
        proof {
            self.lemma_inv_distinct();
            crate::reader::lemma_str_order_properties();
        }
        let n = self.entries.len();
        let mut i: usize = 0;
        while i < n && crate::reader::str_lt(self.entries[i].0.as_str(), pubkey.as_str())
            invariant
                n == self.spec_entries().len(),
                i <= n,
                self.inv(),
                forall|k: int|
                    0 <= k < i ==> spec_str_lt((#[trigger] self.spec_entries()[k]).0@, pubkey@),
            decreases n - i,
        {
            i = i + 1;
        }
        let ghost s0 = self.entries@;
        let found = i < n && crate::reader::str_eq(self.entries[i].0.as_str(), pubkey.as_str());
        if found {
            self.entries.set(i, (pubkey, data));
            proof {
                lemma_map_of_update(s0, i as int, self.entries@[i as int]);
                assert(self.entries@ =~= s0.update(i as int, self.entries@[i as int]));
            }
        } else {
            proof {
                if i < n {
                    assert(!spec_str_lt(s0[i as int].0@, pubkey@));
                    assert(s0[i as int].0@ != pubkey@);
                    assert(spec_str_lt(pubkey@, s0[i as int].0@));
                }
                assert forall|k: int| 0 <= k < s0.len() implies (#[trigger] s0[k]).0@ != pubkey@ by {
                    if k < i {
                        assert(spec_str_lt(s0[k].0@, pubkey@));
                    } else {
                        assert(spec_str_lt(pubkey@, s0[i as int].0@));
                        if k > i {
                            assert(spec_str_lt(s0[i as int].0@, s0[k].0@));
                        }
                    }
                }
            }
            self.entries.insert(i, (pubkey, data));
            proof {
                lemma_map_of_insert(s0, i as int, self.entries@[i as int]);
                assert(self.entries@ =~= s0.insert(i as int, self.entries@[i as int]));
                // sortedness around the insertion point
                let t = self.entries@;
                assert forall|p: int, q: int| 0 <= p < q < t.len() implies spec_str_lt(
                    (#[trigger] t[p]).0@,
                    (#[trigger] t[q]).0@,
                ) by {
                    if q == i {
                        assert(t[p] == s0[p]);
                    } else if p == i {
                        assert(t[q] == s0[q - 1]);
                        if q - 1 > i {
                            assert(spec_str_lt(s0[i as int].0@, s0[q - 1].0@));
                            assert(spec_str_lt(pubkey@, s0[i as int].0@));
                        }
                    } else if p < i && q > i {
                        assert(t[p] == s0[p] && t[q] == s0[q - 1]);
                        if q - 1 == p {
                            assert(spec_str_lt(s0[p].0@, pubkey@));
                            assert(i < s0.len() ==> spec_str_lt(pubkey@, s0[i as int].0@));
                        }
                    } else if q < i {
                        assert(t[p] == s0[p] && t[q] == s0[q]);
                    } else {
                        assert(t[p] == s0[p - 1] && t[q] == s0[q - 1]);
                    }
                }
            }
        }
    }

    /// Remove an address; removing an absent address changes nothing.
    pub fn delete(&mut self, pubkey: &str)
        requires
            old(self).inv(),
        ensures
            final(self).inv(),
            final(self)@ == old(self)@.remove(pubkey@),
    {
        proof {
            self.lemma_inv_distinct();
        }
        let n = self.entries.len();
        let mut i: usize = 0;
        while i < n
            invariant
                *self == *old(self),
                n == self.spec_entries().len(),
                i <= n,
                self.inv(),
                forall|k: int| 0 <= k < i ==> (#[trigger] self.spec_entries()[k]).0@ != pubkey@,
            decreases n - i,
        {
            if crate::reader::str_eq(self.entries[i].0.as_str(), pubkey) {
                let ghost s0 = self.entries@;
                proof {
                    self.lemma_inv_distinct();
                }
                self.entries.remove(i);
                proof {
                    lemma_map_of_remove(s0, i as int);
                    assert(self.entries@ =~= s0.remove(i as int));
                    let t = self.entries@;
                    assert forall|p: int, q: int| 0 <= p < q < t.len() implies spec_str_lt(
                        (#[trigger] t[p]).0@,
                        (#[trigger] t[q]).0@,
                    ) by {
                        if q < i {
                        } else if p < i {
                            assert(t[p] == s0[p] && t[q] == s0[q + 1]);
                        } else {
                            assert(t[p] == s0[p + 1] && t[q] == s0[q + 1]);
                        }
                    }
                }
                return ;
            }
            i = i + 1;
        }
        proof {
            lemma_map_of_absent(self.spec_entries(), pubkey@);
            assert(self@ =~= self@.remove(pubkey@));
        }
    }
}

} // verus!
