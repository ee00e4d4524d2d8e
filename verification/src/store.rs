//! The slot store: durable state for player capacity records and slot records.
//!
//! The store is a plain data-access layer keyed by player identifier and slot
//! index. It applies no policy: bounds, occupancy and cooldown decisions all
//! live in the request handlers. A slot's observable state is derived from
//! its record and the time of the read: no record or a logically empty one is
//! `Empty`, a record whose cooldown expiry lies in the future is `OnCooldown`,
//! and a record bearing a real item is `Occupied`. A record whose item is the
//! empty marker and whose cooldown has lapsed is stale; reading it deletes it.

use vstd::prelude::*;
use vstd::pervasive::VecAdditionalExecFns;
use crate::item::{is_marker, marker_item, marker_item_model, Item, ItemModel};
use crate::time::Date;

verus! {

/// One slot record as persisted: an optional item and an optional cooldown
/// expiry, in whole seconds since the epoch.
#[derive(Debug)]
pub struct SlotRecord {
    pub item: Option<Item>,
    pub cooldown_until: Option<i64>,
}

/// The model of a slot record.
pub struct RecordModel {
    pub item: Option<ItemModel>,
    pub cooldown_until: Option<int>,
}

impl View for SlotRecord {
    type V = RecordModel;

    open spec fn view(&self) -> RecordModel {
        RecordModel {
            item: self.item.deep_view(),
            cooldown_until: match self.cooldown_until {
                Some(t) => Some(t as int),
                None => None,
            },
        }
    }
}

/// The record a store operation writes: the item itself and no cooldown.
pub open spec fn stored_record(it: ItemModel) -> RecordModel {
    RecordModel { item: Some(it), cooldown_until: None }
}

/// The record a remove operation leaves behind: the empty marker and the
/// cooldown expiry. The row is kept, distinguishing "cleared, awaiting
/// cooldown" from "never touched".
pub open spec fn cleared_record(until: int) -> RecordModel {
    RecordModel { item: Some(marker_item_model()), cooldown_until: Some(until) }
}

/// A record is well formed when its cooldown expiry is not before the epoch
/// and a real (non-marker) item never carries a cooldown: a slot is never
/// simultaneously occupied and on cooldown.
pub open spec fn record_wf(r: RecordModel) -> bool {
    &&& (r.cooldown_until matches Some(t) ==> t >= 0)
    &&& ((r.item matches Some(it) && !is_marker(it)) ==> r.cooldown_until is None)
}

/// The observable state of one slot.
pub enum SlotStatus {
    Empty,
    OnCooldown { until: int },
    Occupied { item: ItemModel },
}

/// Derives the observable state of a slot from its record and the time of
/// the read: a future cooldown expiry wins, a real item means occupied, and
/// everything else - no record, a bare record, or one holding the empty
/// marker - is empty.
pub open spec fn record_status(rec: Option<RecordModel>, now: int) -> SlotStatus {
    match rec {
        None => SlotStatus::Empty,
        Some(r) => if r.cooldown_until is Some && r.cooldown_until->Some_0 > now {
            SlotStatus::OnCooldown { until: r.cooldown_until->Some_0 }
        } else if r.item is Some && !is_marker(r.item->Some_0) {
            SlotStatus::Occupied { item: r.item->Some_0 }
        } else {
            SlotStatus::Empty
        },
    }
}

/// A stale record: kept on disk, holding the empty marker, with no cooldown
/// still running. Reading such a slot lazily deletes the record.
pub open spec fn record_stale(rec: Option<RecordModel>, now: int) -> bool {
    &&& rec matches Some(r)
    &&& !(r.cooldown_until matches Some(t) && t > now)
    &&& r.item matches Some(it) && is_marker(it)
}

/// The reply for one slot: whether it is locked (never, in practice), the
/// remaining cooldown in whole seconds, and the stored item if any.
#[derive(Debug)]
pub struct SlotView {
    pub is_locked: bool,
    pub cooldown_seconds: i64,
    pub item: Option<Item>,
}

/// The model of a slot view.
pub struct SlotViewModel {
    pub is_locked: bool,
    pub cooldown_seconds: int,
    pub item: Option<ItemModel>,
}

impl View for SlotView {
    type V = SlotViewModel;

    open spec fn view(&self) -> SlotViewModel {
        SlotViewModel {
            is_locked: self.is_locked,
            cooldown_seconds: self.cooldown_seconds as int,
            item: self.item.deep_view(),
        }
    }
}

/// The view a read returns for a slot in the given state.
pub open spec fn view_of_status(st: SlotStatus, now: int) -> SlotViewModel {
    match st {
        SlotStatus::Empty => SlotViewModel { is_locked: false, cooldown_seconds: 0, item: None },
        SlotStatus::OnCooldown { until } => SlotViewModel {
            is_locked: false,
            cooldown_seconds: until - now,
            item: None,
        },
        SlotStatus::Occupied { item } => SlotViewModel {
            is_locked: false,
            cooldown_seconds: 0,
            item: Some(item),
        },
    }
}

/// One row of the player table: the identifier and the signup date.
struct PlayerRow {
    player: String,
    created: Date,
}

/// One row of the item table, keyed by player identifier and slot index.
struct ItemRow {
    player: String,
    slot: i32,
    record: SlotRecord,
}

spec fn player_matches(r: PlayerRow, p: Seq<char>) -> bool {
    r.player@ == p
}

spec fn item_matches(r: ItemRow, p: Seq<char>, s: int) -> bool {
    r.player@ == p && r.slot as int == s
}

/// The first player row with identifier `p`, if any.
spec fn find_player(rows: Seq<PlayerRow>, p: Seq<char>) -> Option<PlayerRow>
    decreases rows.len(),
{
    if rows.len() == 0 {
        None
    } else if player_matches(rows[0], p) {
        Some(rows[0])
    } else {
        find_player(rows.drop_first(), p)
    }
}

/// The first item row with key `(p, s)`, if any.
spec fn find_item(rows: Seq<ItemRow>, p: Seq<char>, s: int) -> Option<ItemRow>
    decreases rows.len(),
{
    if rows.len() == 0 {
        None
    } else if item_matches(rows[0], p, s) {
        Some(rows[0])
    } else {
        find_item(rows.drop_first(), p, s)
    }
}

proof fn lemma_find_player_push(rows: Seq<PlayerRow>, r: PlayerRow, p: Seq<char>)
    ensures
        find_player(rows.push(r), p) == (if find_player(rows, p) is Some {
            find_player(rows, p)
        } else if player_matches(r, p) {
            Some(r)
        } else {
            None
        }),
    decreases rows.len(),
{
    if rows.len() == 0 {
        assert(rows.push(r)[0] == r);
        assert(rows.push(r).drop_first() =~= Seq::<PlayerRow>::empty());
    } else {
        assert(rows.push(r)[0] == rows[0]);
        assert(rows.push(r).drop_first() =~= rows.drop_first().push(r));
        lemma_find_player_push(rows.drop_first(), r, p);
    }
}

proof fn lemma_find_item_push(rows: Seq<ItemRow>, r: ItemRow, p: Seq<char>, s: int)
    ensures
        find_item(rows.push(r), p, s) == (if find_item(rows, p, s) is Some {
            find_item(rows, p, s)
        } else if item_matches(r, p, s) {
            Some(r)
        } else {
            None
        }),
    decreases rows.len(),
{
    if rows.len() == 0 {
        assert(rows.push(r)[0] == r);
        assert(rows.push(r).drop_first() =~= Seq::<ItemRow>::empty());
    } else {
        assert(rows.push(r)[0] == rows[0]);
        assert(rows.push(r).drop_first() =~= rows.drop_first().push(r));
        lemma_find_item_push(rows.drop_first(), r, p, s);
    }
}

/// Replacing the first row of a key by a row of the same key changes what is
/// found for that key and nothing else.
proof fn lemma_find_item_update(rows: Seq<ItemRow>, i: int, r: ItemRow, p: Seq<char>, s: int)
    requires
        0 <= i < rows.len(),
        r.player@ == rows[i].player@,
        r.slot == rows[i].slot,
        forall|j: int| 0 <= j < i ==> !item_matches(rows[j], rows[i].player@, rows[i].slot as int),
    ensures
        find_item(rows.update(i, r), p, s) == (if p == rows[i].player@ && s == rows[i].slot as int {
            Some(r)
        } else {
            find_item(rows, p, s)
        }),
    decreases i,
{
    let u = rows.update(i, r);
    if i == 0 {
        assert(u[0] == r);
        assert(u.drop_first() =~= rows.drop_first());
    } else {
        assert(u[0] == rows[0]);
        assert(!item_matches(rows[0], rows[i].player@, rows[i].slot as int));
        assert(u.drop_first() =~= rows.drop_first().update(i - 1, r));
        assert(rows.drop_first()[i - 1] == rows[i]);
        assert(forall|j: int|
            0 <= j < i - 1 ==> rows.drop_first()[j] == rows[j + 1]);
        lemma_find_item_update(rows.drop_first(), i - 1, r, p, s);
    }
}

/// Removing the only row of a key makes that key unbound and leaves every
/// other key as it was.
proof fn lemma_find_item_remove(rows: Seq<ItemRow>, i: int, p: Seq<char>, s: int)
    requires
        0 <= i < rows.len(),
        forall|j: int|
            0 <= j < rows.len() && j != i ==> !item_matches(
                rows[j],
                rows[i].player@,
                rows[i].slot as int,
            ),
    ensures
        find_item(rows.remove(i), p, s) == (if p == rows[i].player@ && s == rows[i].slot as int {
            None::<ItemRow>
        } else {
            find_item(rows, p, s)
        }),
    decreases i,
{
    let u = rows.remove(i);
    if i == 0 {
        assert(u =~= rows.drop_first());
        if p == rows[0].player@ && s == rows[0].slot as int {
            lemma_find_no_match(rows.drop_first(), p, s);
        }
    } else {
        assert(u[0] == rows[0]);
        assert(!item_matches(rows[0], rows[i].player@, rows[i].slot as int));
        assert(u.drop_first() =~= rows.drop_first().remove(i - 1));
        assert(rows.drop_first()[i - 1] == rows[i]);
        assert(forall|j: int|
            0 <= j < rows.len() - 1 ==> rows.drop_first()[j] == rows[j + 1]);
        lemma_find_item_remove(rows.drop_first(), i - 1, p, s);
    }
}

/// A key matched by no row is not found.
proof fn lemma_find_no_match(rows: Seq<ItemRow>, p: Seq<char>, s: int)
    requires
        forall|j: int| 0 <= j < rows.len() ==> !item_matches(rows[j], p, s),
    ensures
        find_item(rows, p, s) is None,
    decreases rows.len(),
{
    if rows.len() > 0 {
        assert(forall|j: int|
            0 <= j < rows.len() - 1 ==> rows.drop_first()[j] == rows[j + 1]);
        lemma_find_no_match(rows.drop_first(), p, s);
    }
}

/// The slot store. Owns the player capacity records and the slot records;
/// exposes capacity lookup, one-slot read, one-slot write and one-slot clear.
pub struct Store {
    players: Vec<PlayerRow>,
    items: Vec<ItemRow>,
}

impl Store {
    /// The signup date on record for a player.
    pub closed spec fn spec_created(&self, p: Seq<char>) -> Option<Date> {
        match find_player(self.players@, p) {
            Some(r) => Some(r.created),
            None => None,
        }
    }

    /// The record stored for one slot of one player.
    pub closed spec fn spec_record(&self, p: Seq<char>, s: int) -> Option<RecordModel> {
        match find_item(self.items@, p, s) {
            Some(r) => Some(r.record@),
            None => None,
        }
    }

    /// The store's invariant: one row per player, one row per slot, real
    /// signup dates, and well-formed records.
    pub closed spec fn wf(&self) -> bool {
        &&& (forall|i: int, j: int|
            0 <= i < j < self.players@.len() ==> self.players@[i].player@ != self.players@[j].player@)
        &&& (forall|i: int, j: int|
            0 <= i < j < self.items@.len() ==> !(self.items@[i].player@ == self.items@[j].player@
                && self.items@[i].slot == self.items@[j].slot))
        &&& (forall|i: int| 0 <= i < self.players@.len() ==> (#[trigger] self.players@[i]).created.wf())
        &&& (forall|i: int| 0 <= i < self.items@.len() ==> record_wf((#[trigger] self.items@[i]).record@))
    }

    /// A signup date on record is a real calendar date.
    pub proof fn lemma_created_wf(&self, p: Seq<char>)
        requires
            self.wf(),
            self.spec_created(p) is Some,
        ensures
            self.spec_created(p)->Some_0.wf(),
    {
        lemma_find_player_index(self.players@, p);
    }

    /// An empty store: no players and no records.
    pub fn new() -> (s: Store)
        ensures
            s.wf(),
            forall|p: Seq<char>| s.spec_created(p) is None,
            forall|p: Seq<char>, i: int| s.spec_record(p, i) is None,
    {
        Store { players: Vec::new(), items: Vec::new() }
    }
}

/// A found player row is one of the rows.
proof fn lemma_find_player_index(rows: Seq<PlayerRow>, p: Seq<char>)
    ensures
        find_player(rows, p) matches Some(r) ==> exists|i: int|
            0 <= i < rows.len() && rows[i] == r,
    decreases rows.len(),
{
    if rows.len() > 0 && !player_matches(rows[0], p) {
        lemma_find_player_index(rows.drop_first(), p);
        if find_player(rows.drop_first(), p) is Some {
            let i = choose|i: int|
                0 <= i < rows.drop_first().len() && rows.drop_first()[i] == find_player(
                    rows.drop_first(),
                    p,
                )->Some_0;
            assert(rows[i + 1] == rows.drop_first()[i]);
        }
    }
}

impl Store {
    /// Finds the index of the player's row, if one exists.
    #[verifier::loop_isolation(false)]
    fn find_player_idx(&self, player: &String) -> (r: Option<usize>)
        ensures
            match r {
                Some(i) => i < self.players@.len() && player_matches(self.players@[i as int], player@)
                    && find_player(self.players@, player@) == Some(self.players@[i as int]),
                None => find_player(self.players@, player@) is None
                    && forall|j: int| 0 <= j < self.players@.len() ==> !player_matches(
                    self.players@[j],
                    player@,
                ),
            },
    {
        let n = self.players.len();
        let mut i: usize = 0;
        proof {
            assert(self.players@.skip(0) =~= self.players@);
        }
        while i < n
            invariant
                0 <= i <= n,
                forall|j: int| 0 <= j < i ==> !player_matches(self.players@[j], player@),
                find_player(self.players@, player@) == find_player(
                    self.players@.skip(i as int),
                    player@,
                ),
            decreases n - i,
        {
            if self.players[i].player == *player {
                proof {
                    assert(self.players@.skip(i as int)[0] == self.players@[i as int]);
                }
                return Some(i);
            }
            proof {
                assert(self.players@.skip(i as int)[0] == self.players@[i as int]);
                assert(self.players@.skip(i as int).drop_first() =~= self.players@.skip(i + 1));
            }
            i = i + 1;
        }
        proof {
            assert(self.players@.skip(n as int) =~= Seq::<PlayerRow>::empty());
        }
        None
    }

    /// Finds the index of the row for one slot of one player, if one exists.
    #[verifier::loop_isolation(false)]
    fn find_item_idx(&self, player: &String, slot: i32) -> (r: Option<usize>)
        ensures
            match r {
                Some(i) => i < self.items@.len() && item_matches(
                    self.items@[i as int],
                    player@,
                    slot as int,
                ) && find_item(self.items@, player@, slot as int) == Some(self.items@[i as int])
                    && forall|j: int| 0 <= j < i ==> !item_matches(
                    self.items@[j],
                    player@,
                    slot as int,
                ),
                None => find_item(self.items@, player@, slot as int) is None
                    && forall|j: int| 0 <= j < self.items@.len() ==> !item_matches(
                    self.items@[j],
                    player@,
                    slot as int,
                ),
            },
    {
        let n = self.items.len();
        let mut i: usize = 0;
        proof {
            assert(self.items@.skip(0) =~= self.items@);
        }
        while i < n
            invariant
                0 <= i <= n,
                forall|j: int| 0 <= j < i ==> !item_matches(self.items@[j], player@, slot as int),
                find_item(self.items@, player@, slot as int) == find_item(
                    self.items@.skip(i as int),
                    player@,
                    slot as int,
                ),
            decreases n - i,
        {
            if self.items[i].player == *player && self.items[i].slot == slot {
                proof {
                    assert(self.items@.skip(i as int)[0] == self.items@[i as int]);
                }
                return Some(i);
            }
            proof {
                assert(self.items@.skip(i as int)[0] == self.items@[i as int]);
                assert(self.items@.skip(i as int).drop_first() =~= self.items@.skip(i + 1));
            }
            i = i + 1;
        }
        proof {
            assert(self.items@.skip(n as int) =~= Seq::<ItemRow>::empty());
        }
        None
    }

    /// Looks up the player's capacity as of `today`: one slot plus one per
    /// elapsed calendar month of account age. A never-before-seen player is
    /// given a capacity record with `created = today` and a capacity of one.
    pub fn vault_size(&mut self, player: &String, today: Date) -> (n: i64)
        requires
            old(self).wf(),
            today.wf(),
        ensures
            final(self).wf(),
            match old(self).spec_created(player@) {
                Some(c) => n == crate::time::spec_capacity(c, today) && *final(self) == *old(self),
                None => n == 1 && final(self).spec_created(player@) == Some(today) && (forall|
                    q: Seq<char>,
                |
                    q != player@ ==> final(self).spec_created(q) == old(self).spec_created(q))
                    && (forall|q: Seq<char>, i: int|
                    final(self).spec_record(q, i) == old(self).spec_record(q, i)),
            },
    {
        match self.find_player_idx(player) {
            Some(i) => crate::time::capacity_value(self.players[i].created, today),
            None => {
                let row = PlayerRow { player: player.clone(), created: today };
                proof {
                    assert forall|q: Seq<char>|
                        find_player(self.players@.push(row), q) == (if q == player@ {
                            Some(row)
                        } else {
                            find_player(self.players@, q)
                        }) by {
                        lemma_find_player_push(self.players@, row, q);
                        if find_player(self.players@, q) is Some {
                            lemma_find_player_index(self.players@, q);
                        }
                    }
                    assert(forall|k: int|
                        0 <= k < self.players@.len() ==> self.players@.push(row)[k]
                            == self.players@[k]);
                    assert(self.players@.push(row)[self.players@.len() as int] == row);
                }
                self.players.push(row);
                1
            },
        }
    }

    /// Reads one slot and returns its derived view. A stale record - the
    /// empty marker with no cooldown still running - is deleted as a side
    /// effect of the read; nothing else changes.
    pub fn get_slot(&mut self, player: &String, slot: i32, now: i64) -> (v: SlotView)
        requires
            old(self).wf(),
            now >= 0,
        ensures
            final(self).wf(),
            v@ == view_of_status(
                record_status(old(self).spec_record(player@, slot as int), now as int),
                now as int,
            ),
            record_stale(old(self).spec_record(player@, slot as int), now as int) ==> {
                &&& final(self).spec_record(player@, slot as int) is None
                &&& (forall|q: Seq<char>, i: int|
                    !(q == player@ && i == slot as int) ==> final(self).spec_record(q, i) == old(
                        self,
                    ).spec_record(q, i))
                &&& (forall|q: Seq<char>| final(self).spec_created(q) == old(self).spec_created(q))
            },
            !record_stale(old(self).spec_record(player@, slot as int), now as int) ==> *final(self)
                == *old(self),
    {
        match self.find_item_idx(player, slot) {
            None => SlotView { is_locked: false, cooldown_seconds: 0, item: None },
            Some(i) => {
                proof {
                    assert(record_wf(self.items@[i as int].record@));
                }
                let (v, stale) = derive_view_of(&self.items[i].record, now);
                if stale {
                    self.delete_at(i);
                }
                v
            },
        }
    }

    /// Removes the row at index `i`; the first and only row of its key.
    fn delete_at(&mut self, i: usize)
        requires
            old(self).wf(),
            i < old(self).items@.len(),
            forall|j: int|
                0 <= j < old(self).items@.len() && j != i ==> !item_matches(
                    old(self).items@[j],
                    old(self).items@[i as int].player@,
                    old(self).items@[i as int].slot as int,
                ),
        ensures
            final(self).wf(),
            final(self).spec_record(
                old(self).items@[i as int].player@,
                old(self).items@[i as int].slot as int,
            ) is None,
            forall|q: Seq<char>, s: int|
                !(q == old(self).items@[i as int].player@ && s == old(self).items@[
                    i as int
                ].slot as int) ==> final(self).spec_record(q, s) == old(self).spec_record(q, s),
            final(self).players@ == old(self).players@,
            forall|q: Seq<char>| final(self).spec_created(q) == old(self).spec_created(q),
    {
        proof {
            assert forall|q: Seq<char>, s: int|
                find_item(old(self).items@.remove(i as int), q, s) == (if q == old(self).items@[
                    i as int
                ].player@ && s == old(self).items@[i as int].slot as int {
                    None::<ItemRow>
                } else {
                    find_item(old(self).items@, q, s)
                }) by {
                lemma_find_item_remove(old(self).items@, i as int, q, s);
            }
            assert(forall|k: int|
                0 <= k < old(self).items@.len() - 1 ==> old(self).items@.remove(i as int)[k]
                    == (if k < i {
                    old(self).items@[k]
                } else {
                    old(self).items@[k + 1]
                }));
        }
        self.items.remove(i);
    }

    /// Writes `item` into the record for `(player, slot)`, inserting or
    /// overwriting unconditionally and clearing any cooldown. Whether the
    /// write is allowed is the caller's concern, not the store's.
    pub fn store_item(&mut self, player: &String, slot: i32, item: &Item)
        requires
            old(self).wf(),
        ensures
            final(self).wf(),
            final(self).spec_record(player@, slot as int) == Some(stored_record(item@)),
            forall|q: Seq<char>, s: int|
                !(q == player@ && s == slot as int) ==> final(self).spec_record(q, s) == old(
                    self,
                ).spec_record(q, s),
            forall|q: Seq<char>| final(self).spec_created(q) == old(self).spec_created(q),
    {
        let row = ItemRow {
            player: player.clone(),
            slot,
            record: SlotRecord { item: Some(item.clone()), cooldown_until: None },
        };
        self.put_row(player, slot, row);
    }

    /// Overwrites the record for `(player, slot)` with the empty marker and
    /// the given cooldown expiry, keeping the row. A slot that has no row is
    /// left without one.
    pub fn remove_item(&mut self, player: &String, slot: i32, cooldown_expires: i64)
        requires
            old(self).wf(),
            cooldown_expires >= 0,
        ensures
            final(self).wf(),
            old(self).spec_record(player@, slot as int) is Some ==> {
                &&& final(self).spec_record(player@, slot as int) == Some(
                    cleared_record(cooldown_expires as int),
                )
                &&& (forall|q: Seq<char>, s: int|
                    !(q == player@ && s == slot as int) ==> final(self).spec_record(q, s) == old(
                        self,
                    ).spec_record(q, s))
                &&& (forall|q: Seq<char>| final(self).spec_created(q) == old(self).spec_created(q))
            },
            old(self).spec_record(player@, slot as int) is None ==> *final(self) == *old(self),
    {
        match self.find_item_idx(player, slot) {
            None => {},
            Some(i) => {
                let row = ItemRow {
                    player: player.clone(),
                    slot,
                    record: SlotRecord {
                        item: Some(marker_item()),
                        cooldown_until: Some(cooldown_expires),
                    },
                };
                proof {
                    assert forall|q: Seq<char>, s: int|
                        find_item(self.items@.update(i as int, row), q, s) == (if q == player@ && s
                            == slot as int {
                            Some(row)
                        } else {
                            find_item(self.items@, q, s)
                        }) by {
                        lemma_find_item_update(self.items@, i as int, row, q, s);
                    }
                    assert(forall|k: int|
                        0 <= k < self.items@.len() && k != i ==> self.items@.update(
                            i as int,
                            row,
                        )[k] == self.items@[k]);
                }
                self.items.set(i, row);
            },
        }
    }

    /// Inserts or overwrites the row for `(player, slot)`.
    fn put_row(&mut self, player: &String, slot: i32, row: ItemRow)
        requires
            old(self).wf(),
            row.player@ == player@,
            row.slot == slot,
            record_wf(row.record@),
        ensures
            final(self).wf(),
            final(self).spec_record(player@, slot as int) == Some(row.record@),
            forall|q: Seq<char>, s: int|
                !(q == player@ && s == slot as int) ==> final(self).spec_record(q, s) == old(
                    self,
                ).spec_record(q, s),
            final(self).players@ == old(self).players@,
            forall|q: Seq<char>| final(self).spec_created(q) == old(self).spec_created(q),
    {
        match self.find_item_idx(player, slot) {
            Some(i) => {
                proof {
                    assert forall|q: Seq<char>, s: int|
                        find_item(self.items@.update(i as int, row), q, s) == (if q == player@ && s
                            == slot as int {
                            Some(row)
                        } else {
                            find_item(self.items@, q, s)
                        }) by {
                        lemma_find_item_update(self.items@, i as int, row, q, s);
                    }
                    assert(forall|k: int|
                        0 <= k < self.items@.len() && k != i ==> self.items@.update(
                            i as int,
                            row,
                        )[k] == self.items@[k]);
                }
                self.items.set(i, row);
            },
            None => {
                proof {
                    assert forall|q: Seq<char>, s: int|
                        find_item(self.items@.push(row), q, s) == (if q == player@ && s
                            == slot as int {
                            Some(row)
                        } else {
                            find_item(self.items@, q, s)
                        }) by {
                        lemma_find_item_push(self.items@, row, q, s);
                        if find_item(self.items@, q, s) is Some {
                            lemma_find_item_index(self.items@, q, s);
                        }
                    }
                    assert(forall|k: int|
                        0 <= k < self.items@.len() ==> self.items@.push(row)[k] == self.items@[k]);
                    assert(self.items@.push(row)[self.items@.len() as int] == row);
                }
                self.items.push(row);
            },
        }
    }
}

/// Derives the reply view of an existing record as of `now`, together with
/// whether the record is stale - holding the empty marker with no cooldown
/// still running - and so due for deletion from storage. This is the whole
/// read path of a slot row, shared by every way a row is read.
pub fn derive_view_of(rec: &SlotRecord, now: i64) -> (r: (SlotView, bool))
    requires
        now >= 0,
        rec@.cooldown_until matches Some(t) ==> t >= 0,
    ensures
        r.0@ == view_of_status(record_status(Some(rec@), now as int), now as int),
        r.1 == record_stale(Some(rec@), now as int),
{
    let on_cooldown: bool = match rec.cooldown_until {
        Some(t) => t > now,
        None => false,
    };
    if on_cooldown {
        let t = match rec.cooldown_until {
            Some(t) => t,
            None => 0,
        };
        (SlotView { is_locked: false, cooldown_seconds: t - now, item: None }, false)
    } else {
        match &rec.item {
            None => (SlotView { is_locked: false, cooldown_seconds: 0, item: None }, false),
            Some(it) => {
                if crate::item::is_marker_item(it) {
                    (SlotView { is_locked: false, cooldown_seconds: 0, item: None }, true)
                } else {
                    (
                        SlotView {
                            is_locked: false,
                            cooldown_seconds: 0,
                            item: Some(it.clone()),
                        },
                        false,
                    )
                }
            },
        }
    }
}

/// Storing an item writes its record with no cooldown, so an immediate read
/// - at any time - sees the slot occupied by exactly the item written, field
/// for field, with no cooldown reported.
pub proof fn lemma_store_read_round_trip(it: ItemModel, now: int)
    requires
        !is_marker(it),
    ensures
        record_status(Some(stored_record(it)), now) == (SlotStatus::Occupied { item: it }),
        view_of_status(record_status(Some(stored_record(it)), now), now) == (SlotViewModel {
            is_locked: false,
            cooldown_seconds: 0,
            item: Some(it),
        }),
{
}

/// After a clear with expiry `until`, a read before `until` sees the slot on
/// cooldown with the exact remaining seconds - positive, and strictly
/// decreasing as the clock advances - and a read at or past `until` sees the
/// slot empty with no cooldown left.
pub proof fn lemma_cooldown_window(until: int, n1: int, n2: int)
    requires
        n1 < n2,
    ensures
        n1 < until ==> record_status(Some(cleared_record(until)), n1) == (SlotStatus::OnCooldown {
            until,
        }) && view_of_status(record_status(Some(cleared_record(until)), n1), n1).cooldown_seconds
            == until - n1,
        n1 < n2 < until ==> view_of_status(
            record_status(Some(cleared_record(until)), n1),
            n1,
        ).cooldown_seconds > view_of_status(
            record_status(Some(cleared_record(until)), n2),
            n2,
        ).cooldown_seconds > 0,
        n1 >= until ==> record_status(Some(cleared_record(until)), n1) is Empty && view_of_status(
            record_status(Some(cleared_record(until)), n1),
            n1,
        ).cooldown_seconds == 0,
{
}

/// A found item row is one of the rows.
proof fn lemma_find_item_index(rows: Seq<ItemRow>, p: Seq<char>, s: int)
    ensures
        find_item(rows, p, s) matches Some(r) ==> exists|i: int|
            0 <= i < rows.len() && rows[i] == r,
    decreases rows.len(),
{
    if rows.len() > 0 && !item_matches(rows[0], p, s) {
        lemma_find_item_index(rows.drop_first(), p, s);
        if find_item(rows.drop_first(), p, s) is Some {
            let i = choose|i: int|
                0 <= i < rows.drop_first().len() && rows.drop_first()[i] == find_item(
                    rows.drop_first(),
                    p,
                    s,
                )->Some_0;
            assert(rows[i + 1] == rows.drop_first()[i]);
        }
    }
}

} // verus!
