//! The request handlers: one per operation, stateless, with every policy
//! decision made here against the slot store's current state.
//!
//! A policy rejection is an expected, user-facing outcome: the caller gets a
//! reply with `success = false` and a message, never a fault. The handlers
//! never panic; every input the wire can carry is handled.

use vstd::prelude::*;
use crate::item::Item;
use crate::store::{
    record_stale, record_status, stored_record, cleared_record, view_of_status, SlotStatus,
    SlotView, Store,
};
use crate::time::{date_le, spec_capacity, Date, Moment};

verus! {

/// The reasons an operation is refused by policy.
#[derive(Clone, Copy, PartialEq, Eq, Structural, Debug)]
pub enum VaultError {
    /// The slot index lies at or beyond the player's capacity.
    SlotNotUnlocked,
    /// The slot already holds an item.
    AlreadyInSlot,
    /// The slot's cooldown has not yet lapsed.
    SlotOnCooldown,
    /// There is nothing in the slot to remove.
    NoItemInSlot,
}

impl VaultError {
    /// The user-facing message for this rejection.
    pub open spec fn spec_message(&self) -> Seq<char> {
        match self {
            VaultError::SlotNotUnlocked => "Slot not unlocked."@,
            VaultError::AlreadyInSlot => "Item already in slot."@,
            VaultError::SlotOnCooldown => "Slot on cooldown."@,
            VaultError::NoItemInSlot => "No Item in the slot."@,
        }
    }

    /// Renders the user-facing message.
    pub fn message(&self) -> (s: String)
        ensures
            s@ == self.spec_message(),
    {
        match self {
            VaultError::SlotNotUnlocked => String::from_str("Slot not unlocked."),
            VaultError::AlreadyInSlot => String::from_str("Item already in slot."),
            VaultError::SlotOnCooldown => String::from_str("Slot on cooldown."),
            VaultError::NoItemInSlot => String::from_str("No Item in the slot."),
        }
    }
}

/// The capacity a lookup at `today` hands out: derived from the recorded
/// signup date, or one for a player not yet on record.
pub open spec fn capacity_of(db: Store, p: Seq<char>, today: Date) -> int {
    match db.spec_created(p) {
        Some(c) => spec_capacity(c, today),
        None => 1,
    }
}

/// The store-item policy over a slot's observable state: the index must lie
/// below the capacity, and the slot must be neither occupied nor on
/// cooldown. Checked in this order, first failure wins.
pub open spec fn store_decision(cap: int, slot: int, st: SlotStatus) -> Result<(), VaultError> {
    if slot >= cap {
        Err(VaultError::SlotNotUnlocked)
    } else if st is Occupied {
        Err(VaultError::AlreadyInSlot)
    } else if st is OnCooldown {
        Err(VaultError::SlotOnCooldown)
    } else {
        Ok(())
    }
}

/// Applies the store-item policy to a capacity, a target index and the view
/// the slot read returned.
pub fn check_store(size: i64, slot: i32, existing: &SlotView) -> (r: Result<(), VaultError>)
    ensures
        r == (if slot as int >= size as int {
            Err::<(), VaultError>(VaultError::SlotNotUnlocked)
        } else if existing@.item is Some {
            Err(VaultError::AlreadyInSlot)
        } else if existing@.cooldown_seconds > 0 {
            Err(VaultError::SlotOnCooldown)
        } else {
            Ok(())
        }),
{
    if slot as i64 >= size {
        Err(VaultError::SlotNotUnlocked)
    } else if existing.item.is_some() {
        Err(VaultError::AlreadyInSlot)
    } else if existing.cooldown_seconds > 0 {
        Err(VaultError::SlotOnCooldown)
    } else {
        Ok(())
    }
}

/// Applies the remove-item policy to the view the slot read returned: only
/// an occupied slot has something to remove.
pub fn check_remove(existing: &SlotView) -> (r: Result<(), VaultError>)
    ensures
        r == (if existing@.item is Some {
            Ok::<(), VaultError>(())
        } else {
            Err(VaultError::NoItemInSlot)
        }),
{
    if existing.item.is_some() {
        Ok(())
    } else {
        Err(VaultError::NoItemInSlot)
    }
}

/// Handles a store-item request: looks up the capacity (putting a
/// never-before-seen player on record), reads the target slot, applies the
/// store policy and, when every check passes, writes the item with no
/// cooldown. On a rejection the slot's record is left exactly as it was.
pub fn store(db: &mut Store, player: &String, slot: i32, item: &Item, now: Moment) -> (r: Result<
    (),
    VaultError,
>)
    requires
        old(db).wf(),
        now.wf(),
    ensures
        final(db).wf(),
        r == store_decision(
            capacity_of(*old(db), player@, now.date),
            slot as int,
            record_status(old(db).spec_record(player@, slot as int), now.secs as int),
        ),
        r is Ok ==> final(db).spec_record(player@, slot as int) == Some(stored_record(item@)),
        r is Err ==> final(db).spec_record(player@, slot as int) == old(db).spec_record(
            player@,
            slot as int,
        ),
        forall|q: Seq<char>, s: int|
            !(q == player@ && s == slot as int) ==> final(db).spec_record(q, s) == old(
                db,
            ).spec_record(q, s),
        final(db).spec_created(player@) == (if old(db).spec_created(player@) is Some {
            old(db).spec_created(player@)
        } else {
            Some(now.date)
        }),
        forall|q: Seq<char>|
            q != player@ ==> final(db).spec_created(q) == old(db).spec_created(q),
{
    let size = db.vault_size(player, now.date);
    if slot as i64 >= size {
        return Err(VaultError::SlotNotUnlocked);
    }
    let existing = db.get_slot(player, slot, now.secs);
    let ghost st = record_status(old(db).spec_record(player@, slot as int), now.secs as int);
    match check_store(size, slot, &existing) {
        Err(e) => {
            proof {
                assert(existing@ == view_of_status(st, now.secs as int));
                assert(st is Occupied ==> existing@.item is Some);
                assert(st is OnCooldown ==> existing@.item is None && existing@.cooldown_seconds
                    > 0);
                assert(st is Empty ==> existing@.item is None && existing@.cooldown_seconds == 0);
            }
            Err(e)
        },
        Ok(_) => {
            proof {
                assert(existing@ == view_of_status(st, now.secs as int));
                assert(!(st is Occupied) && !(st is OnCooldown));
            }
            db.store_item(player, slot, item);
            Ok(())
        },
    }
}

/// Handles a remove-item request: the slot must be occupied; its record is
/// overwritten with the empty marker and a cooldown running `cooldown_sec`
/// seconds from `now`. An empty slot is reported back without any mutation
/// and without setting a cooldown.
pub fn remove(db: &mut Store, player: &String, slot: i32, cooldown_sec: i64, now: Moment) -> (r:
    Result<(), VaultError>)
    requires
        old(db).wf(),
        now.wf(),
        0 <= now.secs + cooldown_sec <= i64::MAX,
    ensures
        final(db).wf(),
        r == (if record_status(
            old(db).spec_record(player@, slot as int),
            now.secs as int,
        ) is Occupied {
            Ok::<(), VaultError>(())
        } else {
            Err(VaultError::NoItemInSlot)
        }),
        r is Ok ==> final(db).spec_record(player@, slot as int) == Some(
            cleared_record(now.secs + cooldown_sec),
        ),
        r is Err ==> final(db).spec_record(player@, slot as int) == (if record_stale(
            old(db).spec_record(player@, slot as int),
            now.secs as int,
        ) {
            None::<crate::store::RecordModel>
        } else {
            old(db).spec_record(player@, slot as int)
        }),
        forall|q: Seq<char>, s: int|
            !(q == player@ && s == slot as int) ==> final(db).spec_record(q, s) == old(
                db,
            ).spec_record(q, s),
        forall|q: Seq<char>| final(db).spec_created(q) == old(db).spec_created(q),
{
    let existing = db.get_slot(player, slot, now.secs);
    let ghost st = record_status(old(db).spec_record(player@, slot as int), now.secs as int);
    proof {
        assert(existing@ == view_of_status(st, now.secs as int));
    }
    if let Err(e) = check_remove(&existing) {
        return Err(e);
    }
    let expire = now.secs + cooldown_sec;
    db.remove_item(player, slot, expire);
    Ok(())
}

/// Handles a get-vault request: looks up the capacity (putting a
/// never-before-seen player on record) and reads every slot from index zero
/// up to it, in index order. Stale records met along the way are lazily
/// deleted; every view reports the state the vault had when the request
/// arrived.
pub fn get(db: &mut Store, player: &String, now: Moment) -> (r: Vec<SlotView>)
    requires
        old(db).wf(),
        now.wf(),
        capacity_of(*old(db), player@, now.date) <= i32::MAX,
    ensures
        final(db).wf(),
        r@.len() == (if capacity_of(*old(db), player@, now.date) >= 0 {
            capacity_of(*old(db), player@, now.date)
        } else {
            0
        }),
        forall|k: int|
            0 <= k < r@.len() ==> r@[k]@ == view_of_status(
                record_status(old(db).spec_record(player@, k), now.secs as int),
                now.secs as int,
            ),
        forall|q: Seq<char>, s: int|
            final(db).spec_record(q, s) == (if q == player@ && 0 <= s < r@.len() && record_stale(
                old(db).spec_record(player@, s),
                now.secs as int,
            ) {
                None::<crate::store::RecordModel>
            } else {
                old(db).spec_record(q, s)
            }),
        final(db).spec_created(player@) == (if old(db).spec_created(player@) is Some {
            old(db).spec_created(player@)
        } else {
            Some(now.date)
        }),
        forall|q: Seq<char>|
            q != player@ ==> final(db).spec_created(q) == old(db).spec_created(q),
{
    let size = db.vault_size(player, now.date);
    let ghost cap = capacity_of(*old(db), player@, now.date);
    let mut out: Vec<SlotView> = Vec::new();
    let mut k: i64 = 0;
    while k < size
        invariant
            old(db).wf(),
            now.wf(),
            db.wf(),
            size == cap,
            cap <= i32::MAX,
            0 <= k,
            k <= (if cap >= 0 {
                cap
            } else {
                0
            }),
            out@.len() == k,
            forall|j: int|
                0 <= j < k ==> out@[j]@ == view_of_status(
                    record_status(old(db).spec_record(player@, j), now.secs as int),
                    now.secs as int,
                ),
            forall|q: Seq<char>, s: int|
                db.spec_record(q, s) == (if q == player@ && 0 <= s < k && record_stale(
                    old(db).spec_record(player@, s),
                    now.secs as int,
                ) {
                    None::<crate::store::RecordModel>
                } else {
                    old(db).spec_record(q, s)
                }),
            db.spec_created(player@) == (if old(db).spec_created(player@) is Some {
                old(db).spec_created(player@)
            } else {
                Some(now.date)
            }),
            forall|q: Seq<char>| q != player@ ==> db.spec_created(q) == old(db).spec_created(q),
        decreases size - k,
    {
        let v = db.get_slot(player, k as i32, now.secs);
        out.push(v);
        k = k + 1;
    }
    out
}

/// For a fixed player already on record, the capacity the lookup hands out
/// never decreases as days pass, and is always at least one; a player not
/// yet on record is always handed exactly one.
pub proof fn lemma_capacity_of_monotone(db: Store, p: Seq<char>, d1: Date, d2: Date)
    requires
        db.wf(),
        d1.wf(),
        d2.wf(),
        date_le(d1, d2),
        db.spec_created(p) matches Some(c) ==> date_le(c, d1),
    ensures
        1 <= capacity_of(db, p, d1) <= capacity_of(db, p, d2),
{
    if db.spec_created(p) is Some {
        db.lemma_created_wf(p);
        crate::time::lemma_capacity_monotone(db.spec_created(p)->Some_0, d1, d2);
    }
}

} // verus!
