//! The replay driver's state machine: a slot cursor, the program blob and
//! the account store, advanced in strict slot order, with the rule that
//! decides when a daily checkpoint must be written.

use vstd::prelude::*;
use crate::date::{
    is_next_date, spec_truncated_date, truncate_unixtime_to_date, MAX_CONVERTIBLE_UNIXTIME,
};
use crate::schema::Slot;
use crate::store::AccountDataStore;

verus! {

/// A slot transition the driver must refuse; both are fatal.
#[derive(Debug, Clone, Copy, PartialEq, Eq, Structural)]
pub enum ReplayError {
    /// The next slot's height is not the current height plus one.
    NonSequentialBlockHeight,
    /// The day changes by more than one day at once.
    NonSequentialDate,
}

/// What the driver does before applying the next slot: go straight on, or
/// first persist a checkpoint for the day that ends, identified by the
/// Unix time of that day's first second.
#[derive(Debug, Clone, Copy, PartialEq, Eq, Structural)]
pub enum SlotPlan {
    Advance,
    CheckpointThenAdvance { date_unixtime: i64 },
}

/// The driver's decision for one slot transition.
pub open spec fn spec_plan_slot_transition(current: Slot, next: Slot, bootstrap_slot: u64) -> Result<
    SlotPlan,
    ReplayError,
> {
    if next.block_height != current.block_height + 1 {
        Err(ReplayError::NonSequentialBlockHeight)
    } else {
        let cd = spec_truncated_date(current.block_time);
        let nd = spec_truncated_date(next.block_time);
        if cd == nd || current.slot <= bootstrap_slot {
            Ok(SlotPlan::Advance)
        } else if nd != cd + 86400 {
            Err(ReplayError::NonSequentialDate)
        } else {
            Ok(SlotPlan::CheckpointThenAdvance { date_unixtime: cd as i64 })
        }
    }
}

/// Decide what to do before applying the next slot: refuse a non-sequential
/// height; refuse a day gap; ask for a checkpoint exactly when the day
/// changes and the engine has advanced past the bootstrap slot.
pub fn plan_slot_transition(current: Slot, next: Slot, bootstrap_slot: u64) -> (r: Result<
    SlotPlan,
    ReplayError,
>)
    requires
        0 <= current.block_time <= MAX_CONVERTIBLE_UNIXTIME,
        0 <= next.block_time <= MAX_CONVERTIBLE_UNIXTIME,
    ensures
        r == spec_plan_slot_transition(current, next, bootstrap_slot),
{
    if next.block_height == 0 || next.block_height - 1 != current.block_height {
        return Err(ReplayError::NonSequentialBlockHeight);
    }
    let cd = truncate_unixtime_to_date(current.block_time);
    let nd = truncate_unixtime_to_date(next.block_time);
    if cd == nd || current.slot <= bootstrap_slot {
        Ok(SlotPlan::Advance)
    } else if !is_next_date(cd, nd) {
        Err(ReplayError::NonSequentialDate)
    } else {
        Ok(SlotPlan::CheckpointThenAdvance { date_unixtime: cd })
    }
}

/// Pre-images of the accounts one instruction may write: a read-only
/// capture taken before the instruction is applied.
pub struct WritableAccountSnapshot {
    pre: AccountDataStore,
}

impl View for WritableAccountSnapshot {
    type V = Map<Seq<char>, Seq<u8>>;

    closed spec fn view(&self) -> Map<Seq<char>, Seq<u8>> {
        self.pre@
    }
}

impl WritableAccountSnapshot {
    /// The captured bytes of an address, if the account existed.
    pub fn get(&self, pubkey: &str) -> (r: Option<&Vec<u8>>)
        requires
            self.inv(),
        ensures
            r is Some <==> self@.contains_key(pubkey@),
            r is Some ==> r->0@ == self@[pubkey@],
    {
        self.pre.get(pubkey)
    }

    /// Well-formed like the store it captures.
    pub closed spec fn inv(self) -> bool {
        self.pre.inv()
    }
}

/// The replay engine: the slot cursor, the program blob and the accounts.
pub struct ReplayEngine {
    slot: Slot,
    program_data: Vec<u8>,
    accounts: AccountDataStore,
}

impl ReplayEngine {
    /// The engine's slot cursor.
    pub closed spec fn spec_slot(self) -> Slot {
        self.slot
    }

    /// The deployed program's bytes.
    pub closed spec fn spec_program_data(self) -> Seq<u8> {
        self.program_data@
    }

    /// The account store.
    pub closed spec fn spec_accounts(self) -> AccountDataStore {
        self.accounts
    }

    /// Well-formed: the account store is.
    pub open spec fn inv(self) -> bool {
        self.spec_accounts().inv()
    }

    /// Start from a checkpoint's slot, program and accounts.
    pub fn new(slot: Slot, program_data: Vec<u8>, accounts: AccountDataStore) -> (r: ReplayEngine)
        requires
            accounts.inv(),
        ensures
            r.inv(),
            r.spec_slot() == slot,
            r.spec_program_data() == program_data@,
            r.spec_accounts() == accounts,
    {
        ReplayEngine { slot, program_data, accounts }
    }

    /// The slot cursor.
    pub fn get_slot(&self) -> (r: Slot)
        ensures
            r == self.spec_slot(),
    {
        self.slot
    }

    /// The program blob.
    pub fn get_program_data(&self) -> (r: &Vec<u8>)
        ensures
            r@ == self.spec_program_data(),
    {
        &self.program_data
    }

    /// The account store, read-only.
    pub fn get_accounts(&self) -> (r: &AccountDataStore)
        ensures
            *r == self.spec_accounts(),
    {
        &self.accounts
    }

    /// Advance the slot cursor; heights must stay dense.
    pub fn update_slot(&mut self, slot: u64, block_height: u64, block_time: i64)
        requires
            old(self).inv(),
            block_height == old(self).spec_slot().block_height + 1,
        ensures
            final(self).inv(),
            final(self).spec_slot() == (Slot { slot, block_height, block_time }),
            final(self).spec_program_data() == old(self).spec_program_data(),
            final(self).spec_accounts() == old(self).spec_accounts(),
    {
        self.slot = Slot { slot, block_height, block_time };
    }

    /// Replace the program blob atomically, for a program deploy.
    pub fn update_program_data(&mut self, program_data: Vec<u8>)
        requires
            old(self).inv(),
        ensures
            final(self).inv(),
            final(self).spec_program_data() == program_data@,
            final(self).spec_slot() == old(self).spec_slot(),
            final(self).spec_accounts() == old(self).spec_accounts(),
    {
        self.program_data = program_data;
    }

    /// Write an instruction's new bytes for an account.
    pub fn upsert_account(&mut self, pubkey: String, data: Vec<u8>)
        requires
            old(self).inv(),
        ensures
            final(self).inv(),
            final(self).spec_accounts()@ == old(self).spec_accounts()@.insert(pubkey@, data@),
            final(self).spec_slot() == old(self).spec_slot(),
            final(self).spec_program_data() == old(self).spec_program_data(),
    {
        self.accounts.upsert(pubkey, data);
    }

    /// Remove an account an instruction closed.
    pub fn delete_account(&mut self, pubkey: &str)
        requires
            old(self).inv(),
        ensures
            final(self).inv(),
            final(self).spec_accounts()@ == old(self).spec_accounts()@.remove(pubkey@),
            final(self).spec_slot() == old(self).spec_slot(),
            final(self).spec_program_data() == old(self).spec_program_data(),
    {
        self.accounts.delete(pubkey);
    }

    /// Capture the pre-images of the given addresses before an instruction
    /// is applied: exactly the listed accounts that exist, at their current
    /// bytes.
    pub fn capture_snapshot(&self, keys: &Vec<String>) -> (r: WritableAccountSnapshot)
        requires
            self.inv(),
        ensures
            r.inv(),
            forall|k: Seq<char>|
                r@.contains_key(k) <==> (spec_key_set(keys@).contains(k)
                    && self.spec_accounts()@.contains_key(k)),
            forall|k: Seq<char>| r@.contains_key(k) ==> r@[k] == self.spec_accounts()@[k],
    {
        let mut pre = AccountDataStore::new_on_memory();
        let n = keys.len();
        let mut i: usize = 0;
        while i < n
            invariant
                self.inv(),
                n == keys@.len(),
                i <= n,
                pre.inv(),
                forall|k: Seq<char>|
                    pre@.contains_key(k) <==> (spec_key_set(keys@.take(i as int)).contains(k)
                        && self.spec_accounts()@.contains_key(k)),
                forall|k: Seq<char>| pre@.contains_key(k) ==> pre@[k] == self.spec_accounts()@[k],
            decreases n - i,
        {
            let key = &keys[i];
            match self.accounts.get(key.as_str()) {
                Some(data) => {
                    let d = clone_bytes(data);
                    let k = clone_string(key);
                    pre.upsert(k, d);
                },
                None => {
                },
            }
            proof {
                assert forall|k: Seq<char>|
                    spec_key_set(keys@.take(i as int + 1)).contains(k) implies (spec_key_set(
                    keys@.take(i as int),
                ).contains(k) || k == keys@[i as int]@) by {
                    let j = choose|j: int|
                        0 <= j < i + 1 && (#[trigger] keys@.take(i as int + 1)[j])@ == k;
                    if j < i {
                        assert(keys@.take(i as int)[j]@ == k);
                    }
                }
                assert forall|k: Seq<char>|
                    spec_key_set(keys@.take(i as int)).contains(k) implies spec_key_set(
                    keys@.take(i as int + 1),
                ).contains(k) by {
                    let j = choose|j: int| 0 <= j < i && (#[trigger] keys@.take(i as int)[j])@ == k;
                    assert(keys@.take(i as int + 1)[j]@ == k);
                }
                assert(keys@.take(i as int + 1)[i as int]@ == keys@[i as int]@);
            }
            i = i + 1;
        }
        proof {
            assert(keys@.take(n as int) =~= keys@);
        }
        WritableAccountSnapshot { pre }
    }
}

/// The set of addresses a key list names.
pub open spec fn spec_key_set(keys: Seq<String>) -> Set<Seq<char>> {
    Set::new(|k: Seq<char>| exists|i: int| 0 <= i < keys.len() && (#[trigger] keys[i])@ == k)
}

/// Copy a byte vector; the clone of every byte is that byte.
fn clone_bytes(v: &Vec<u8>) -> (r: Vec<u8>)
    ensures
        r@ == v@,
{
    let r = v.clone();
    proof {
        assert forall|i: int| 0 <= i < v@.len() implies r@[i] == v@[i] by {
            assert(cloned::<u8>(v@[i], r@[i]));
        }
        assert(r@ =~= v@);
    }
    r
}

/// Copy a string.
fn clone_string(s: &String) -> (r: String)
    ensures
        r@ == s@,
{
    s.clone()
}

} // verus!
