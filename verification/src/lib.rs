//! A per-player vault of item storage slots.
//!
//! A vault is an array of slots, each holding at most one item record. The
//! number of usable slots (the capacity) grows with the age of the player's
//! account, one slot per elapsed calendar month. Removing an item puts the
//! slot on a cooldown during which nothing can be stored into it.
//!
//! The store itself is a plain data-access layer over player capacity records
//! and slot records; all policy (bounds, occupancy and cooldown checks) lives
//! in the request handlers.

pub mod clock;
pub mod codec;
pub mod handlers;
pub mod item;
pub mod store;
pub mod time;
