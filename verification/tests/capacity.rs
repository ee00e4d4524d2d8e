//! Capacity rule: one slot plus one per elapsed calendar month.

use vault_store::store::Store;
use vault_store::time::{capacity_value, Date};

fn d(year: i32, month: i32, day: i32) -> Date {
    Date { year, month, day }
}

#[test]
fn new_player_has_capacity_one() {
    let mut db = Store::new();
    let p = String::from("9b2f4c1e-0000-0000-0000-000000000001");
    let n = db.vault_size(&p, d(2024, 3, 15));
    assert_eq!(n, 1);
}

#[test]
fn capacity_same_day_is_one() {
    assert_eq!(capacity_value(d(2024, 3, 15), d(2024, 3, 15)), 1);
}

#[test]
fn capacity_one_month_later_is_two() {
    assert_eq!(capacity_value(d(2024, 3, 15), d(2024, 4, 15)), 2);
}

#[test]
fn capacity_day_before_anniversary_is_still_one() {
    assert_eq!(capacity_value(d(2024, 3, 15), d(2024, 4, 14)), 1);
}

#[test]
fn capacity_increments_exactly_on_each_anniversary() {
    let created = d(2024, 1, 31);
    assert_eq!(capacity_value(created, d(2024, 2, 28)), 1);
    assert_eq!(capacity_value(created, d(2024, 3, 30)), 2);
    assert_eq!(capacity_value(created, d(2024, 3, 31)), 3);
    assert_eq!(capacity_value(created, d(2024, 4, 1)), 3);
}

#[test]
fn capacity_across_year_boundary() {
    assert_eq!(capacity_value(d(2023, 12, 10), d(2024, 1, 10)), 2);
    assert_eq!(capacity_value(d(2023, 12, 10), d(2024, 12, 10)), 13);
    assert_eq!(capacity_value(d(2023, 12, 10), d(2024, 12, 9)), 12);
}

#[test]
fn capacity_is_monotone_over_a_year_of_reads() {
    let created = d(2024, 5, 17);
    let mut prev = 0i64;
    for month in 5..=12 {
        for day in [1i32, 17, 28] {
            let now = d(2024, month, day);
            if now.year > created.year
                || (now.year == created.year && now.month > created.month)
                || (now.year == created.year
                    && now.month == created.month
                    && now.day >= created.day)
            {
                let c = capacity_value(created, now);
                assert!(c >= 1);
                assert!(c >= prev);
                prev = c;
            }
        }
    }
}

#[test]
fn recorded_player_keeps_its_creation_date() {
    let mut db = Store::new();
    let p = String::from("9b2f4c1e-0000-0000-0000-000000000002");
    assert_eq!(db.vault_size(&p, d(2024, 3, 15)), 1);
    assert_eq!(db.vault_size(&p, d(2024, 5, 15)), 3);
    assert_eq!(db.vault_size(&p, d(2024, 5, 14)), 2);
}
