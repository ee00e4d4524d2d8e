//! Vault operations end to end, against an in-memory store with an
//! explicitly supplied clock.

use vault_store::handlers::{check_store, get, remove, store, VaultError};
use vault_store::item::{Enchantment, Item};
use vault_store::store::{derive_view_of, SlotRecord, Store};
use vault_store::time::{Date, Moment};

fn at(secs: i64) -> Moment {
    Moment { date: Date { year: 2024, month: 6, day: 10 }, secs }
}

fn player(tag: u8) -> String {
    format!("00000000-0000-0000-0000-0000000000{:02x}", tag)
}

fn sword() -> Item {
    Item {
        type_id: String::from("DIAMOND_SWORD"),
        amount: 1,
        durability: 1561,
        display_name: Some(String::from("Oathkeeper")),
        custom_model_data: Some(77),
        lore: vec![String::from("First line"), String::from("Second line")],
        enchants: vec![
            Enchantment { name: String::from("sharpness"), level: 3 },
            Enchantment { name: String::from("unbreaking"), level: 1 },
        ],
        flags: vec![String::from("HIDE_ATTRIBUTES")],
    }
}

#[test]
fn store_then_read_returns_the_exact_item() {
    let mut db = Store::new();
    let p = player(1);
    assert_eq!(store(&mut db, &p, 0, &sword(), at(100)), Ok(()));
    let view = db.get_slot(&p, 0, 100);
    assert!(!view.is_locked);
    assert_eq!(view.cooldown_seconds, 0);
    let it = view.item.expect("occupied");
    let want = sword();
    assert_eq!(it.type_id, want.type_id);
    assert_eq!(it.amount, want.amount);
    assert_eq!(it.durability, want.durability);
    assert_eq!(it.display_name, want.display_name);
    assert_eq!(it.custom_model_data, want.custom_model_data);
    assert_eq!(it.lore, want.lore);
    assert_eq!(it.flags, want.flags);
    assert_eq!(it.enchants.len(), 2);
    assert_eq!(it.enchants[0].name, "sharpness");
    assert_eq!(it.enchants[0].level, 3);
    assert_eq!(it.enchants[1].name, "unbreaking");
    assert_eq!(it.enchants[1].level, 1);
}

#[test]
fn store_into_occupied_slot_fails_and_keeps_the_item() {
    let mut db = Store::new();
    let p = player(2);
    assert_eq!(store(&mut db, &p, 0, &sword(), at(100)), Ok(()));
    let mut other = sword();
    other.type_id = String::from("DIRT");
    assert_eq!(store(&mut db, &p, 0, &other, at(101)), Err(VaultError::AlreadyInSlot));
    let view = db.get_slot(&p, 0, 102);
    assert_eq!(view.item.expect("occupied").type_id, "DIAMOND_SWORD");
}

#[test]
fn store_beyond_capacity_fails_whatever_the_slot_holds() {
    let mut db = Store::new();
    let p = player(3);
    assert_eq!(store(&mut db, &p, 1, &sword(), at(100)), Err(VaultError::SlotNotUnlocked));
    assert_eq!(store(&mut db, &p, 1000, &sword(), at(100)), Err(VaultError::SlotNotUnlocked));
    let v = get(&mut db, &p, at(100));
    assert_eq!(v.len(), 1);
    assert!(v[0].item.is_none());
}

#[test]
fn remove_from_empty_slot_fails_and_sets_no_cooldown() {
    let mut db = Store::new();
    let p = player(4);
    assert_eq!(remove(&mut db, &p, 0, 60, at(100)), Err(VaultError::NoItemInSlot));
    let view = db.get_slot(&p, 0, 101);
    assert_eq!(view.cooldown_seconds, 0);
    assert!(view.item.is_none());
}

#[test]
fn remove_starts_a_decreasing_cooldown_window() {
    let mut db = Store::new();
    let p = player(5);
    assert_eq!(store(&mut db, &p, 0, &sword(), at(100)), Ok(()));
    assert_eq!(remove(&mut db, &p, 0, 60, at(100)), Ok(()));
    let view = db.get_slot(&p, 0, 100);
    assert!(view.item.is_none());
    assert_eq!(view.cooldown_seconds, 60);
    let view = db.get_slot(&p, 0, 130);
    assert_eq!(view.cooldown_seconds, 30);
    let view = db.get_slot(&p, 0, 159);
    assert_eq!(view.cooldown_seconds, 1);
    let view = db.get_slot(&p, 0, 160);
    assert_eq!(view.cooldown_seconds, 0);
    assert!(view.item.is_none());
}

#[test]
fn store_into_cooling_slot_fails() {
    let mut db = Store::new();
    let p = player(6);
    assert_eq!(store(&mut db, &p, 0, &sword(), at(100)), Ok(()));
    assert_eq!(remove(&mut db, &p, 0, 60, at(100)), Ok(()));
    assert_eq!(store(&mut db, &p, 0, &sword(), at(159)), Err(VaultError::SlotOnCooldown));
    assert_eq!(store(&mut db, &p, 0, &sword(), at(160)), Ok(()));
}

#[test]
fn enchantment_order_survives_store_and_read() {
    let mut db = Store::new();
    let p = player(7);
    assert_eq!(store(&mut db, &p, 0, &sword(), at(100)), Ok(()));
    let v = get(&mut db, &p, at(100));
    let it = v[0].item.as_ref().expect("occupied");
    let names: Vec<&str> = it.enchants.iter().map(|e| e.name.as_str()).collect();
    assert_eq!(names, ["sharpness", "unbreaking"]);
    assert_eq!(it.enchants[0].level, 3);
    assert_eq!(it.enchants[1].level, 1);
}

#[test]
fn storing_the_marker_type_reads_back_as_empty() {
    let mut db = Store::new();
    let p = player(8);
    let mut air = sword();
    air.type_id = String::from("AIR");
    assert_eq!(store(&mut db, &p, 0, &air, at(100)), Ok(()));
    let view = db.get_slot(&p, 0, 101);
    assert!(view.item.is_none());
    assert_eq!(view.cooldown_seconds, 0);
    // The stale record was lazily deleted, so the slot accepts a store.
    assert_eq!(store(&mut db, &p, 0, &sword(), at(102)), Ok(()));
}

#[test]
fn remove_from_cooling_slot_finds_no_item() {
    let mut db = Store::new();
    let p = player(12);
    assert_eq!(store(&mut db, &p, 0, &sword(), at(100)), Ok(()));
    assert_eq!(remove(&mut db, &p, 0, 60, at(100)), Ok(()));
    assert_eq!(remove(&mut db, &p, 0, 60, at(110)), Err(VaultError::NoItemInSlot));
}

#[test]
fn cooldown_reads_the_same_for_marker_and_absent_item() {
    // A record on cooldown may carry the empty marker or no item at all;
    // both read as on-cooldown, and a store into either is refused.
    let marker = SlotRecord {
        item: Some(vault_store::item::marker_item()),
        cooldown_until: Some(200),
    };
    let absent = SlotRecord { item: None, cooldown_until: Some(200) };
    for rec in [&marker, &absent] {
        let (view, stale) = derive_view_of(rec, 150);
        assert!(!stale);
        assert!(view.item.is_none());
        assert_eq!(view.cooldown_seconds, 50);
        assert_eq!(check_store(1, 0, &view), Err(VaultError::SlotOnCooldown));
    }
    // Once the window has lapsed, only the marker representation is stale.
    let (view, stale) = derive_view_of(&marker, 200);
    assert_eq!(view.cooldown_seconds, 0);
    assert!(stale);
    let (view, stale) = derive_view_of(&absent, 200);
    assert_eq!(view.cooldown_seconds, 0);
    assert!(!stale);
}

#[test]
fn vault_views_come_in_slot_order() {
    let mut db = Store::new();
    let p = player(13);
    // Put the player on record two months before the reads below.
    assert_eq!(db.vault_size(&p, Date { year: 2024, month: 4, day: 10 }), 1);
    assert_eq!(store(&mut db, &p, 2, &sword(), at(100)), Ok(()));
    assert_eq!(remove(&mut db, &p, 2, 60, at(100)), Ok(()));
    assert_eq!(store(&mut db, &p, 1, &sword(), at(100)), Ok(()));
    let v = get(&mut db, &p, at(130));
    assert_eq!(v.len(), 3);
    assert!(v[0].item.is_none());
    assert_eq!(v[0].cooldown_seconds, 0);
    assert!(v[1].item.is_some());
    assert!(v[2].item.is_none());
    assert_eq!(v[2].cooldown_seconds, 30);
}

#[test]
fn error_messages_match_the_wire_strings() {
    assert_eq!(VaultError::SlotNotUnlocked.message(), "Slot not unlocked.");
    assert_eq!(VaultError::AlreadyInSlot.message(), "Item already in slot.");
    assert_eq!(VaultError::SlotOnCooldown.message(), "Slot on cooldown.");
    assert_eq!(VaultError::NoItemInSlot.message(), "No Item in the slot.");
}

#[test]
fn clock_hands_out_a_well_formed_moment() {
    let m = vault_store::clock::read_clock().expect("clock after the epoch");
    assert!(m.secs > 0);
    assert!((1..=12).contains(&m.date.month));
    assert!((1..=31).contains(&m.date.day));
    assert!(m.date.year >= 2024);
}

#[test]
fn end_to_end_scenario() {
    let mut db = Store::new();
    let p = player(9);

    // A new player has capacity one: get-vault shows one empty slot.
    let v = get(&mut db, &p, at(1000));
    assert_eq!(v.len(), 1);
    assert!(v[0].item.is_none());
    assert_eq!(v[0].cooldown_seconds, 0);
    assert!(!v[0].is_locked);

    // Store at slot zero succeeds; a second store fails.
    assert_eq!(store(&mut db, &p, 0, &sword(), at(1001)), Ok(()));
    assert_eq!(store(&mut db, &p, 0, &sword(), at(1002)), Err(VaultError::AlreadyInSlot));

    // Remove with a ten-second cooldown; the vault shows the cooling slot.
    assert_eq!(remove(&mut db, &p, 0, 10, at(1003)), Ok(()));
    let v = get(&mut db, &p, at(1003));
    assert_eq!(v.len(), 1);
    assert!(v[0].item.is_none());
    assert_eq!(v[0].cooldown_seconds, 10);

    // Storing during the window fails; after it, the slot is empty again.
    assert_eq!(store(&mut db, &p, 0, &sword(), at(1004)), Err(VaultError::SlotOnCooldown));
    let v = get(&mut db, &p, at(1013));
    assert_eq!(v.len(), 1);
    assert!(v[0].item.is_none());
    assert_eq!(v[0].cooldown_seconds, 0);
    assert_eq!(store(&mut db, &p, 0, &sword(), at(1013)), Ok(()));
}

#[test]
fn vaults_of_different_players_are_independent() {
    let mut db = Store::new();
    let a = player(10);
    let b = player(11);
    assert_eq!(store(&mut db, &a, 0, &sword(), at(100)), Ok(()));
    let v = get(&mut db, &b, at(100));
    assert_eq!(v.len(), 1);
    assert!(v[0].item.is_none());
    assert_eq!(remove(&mut db, &b, 0, 60, at(100)), Err(VaultError::NoItemInSlot));
    let v = get(&mut db, &a, at(100));
    assert!(v[0].item.is_some());
}
