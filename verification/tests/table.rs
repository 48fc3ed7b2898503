//! The QPACK dynamic table.

use bytes::Bytes;
use vibeio_http::h3::qpack::table::{DynamicTable, InsertError};

fn insert(table: &mut DynamicTable, name: &str, value: &str) -> Result<(), InsertError> {
    table.insert(
        Bytes::copy_from_slice(name.as_bytes()),
        Bytes::copy_from_slice(value.as_bytes()),
    )
}

#[test]
fn entry_size_is_name_plus_value_plus_32() {
    assert_eq!(DynamicTable::entry_size(b"foo", b"bar"), 38);
    assert_eq!(DynamicTable::entry_size(b"", b""), 32);
}

#[test]
fn insert_assigns_increasing_absolute_indices() {
    let mut table = DynamicTable::new(1000);
    assert!(table.is_empty());
    assert_eq!(table.inserted(), 0);
    assert_eq!(table.next_absolute(), 0);

    insert(&mut table, ":method", "GET").unwrap();
    assert_eq!(table.inserted(), 1);
    assert_eq!(table.last_absolute(), 0);

    insert(&mut table, ":path", "/").unwrap();
    assert_eq!(table.inserted(), 2);
    assert_eq!(table.last_absolute(), 1);
    assert_eq!(table.get_absolute(0), Some((&b":method"[..], &b"GET"[..])));
    assert_eq!(table.get_absolute(1), Some((&b":path"[..], &b"/"[..])));
    assert_eq!(table.get_absolute(2), None);
}

#[test]
fn relative_index_zero_is_most_recent() {
    let mut table = DynamicTable::new(1000);
    insert(&mut table, "a", "1").unwrap();
    insert(&mut table, "b", "2").unwrap();
    insert(&mut table, "c", "3").unwrap();

    assert_eq!(table.get_relative(0), Some((&b"c"[..], &b"3"[..])));
    assert_eq!(table.get_relative(1), Some((&b"b"[..], &b"2"[..])));
    assert_eq!(table.get_relative(2), Some((&b"a"[..], &b"1"[..])));
    assert_eq!(table.get_relative(3), None);
}

#[test]
fn insert_evicts_oldest_first() {
    // capacity 100: entry size 1+1+32 = 34; three entries = 102 > 100,
    // so inserting the third evicts the first.
    let mut table = DynamicTable::new(100);
    insert(&mut table, "a", "a").unwrap();
    insert(&mut table, "b", "b").unwrap();
    assert_eq!(table.size(), 68);
    assert_eq!(table.len(), 2);

    insert(&mut table, "c", "c").unwrap();
    assert_eq!(table.size(), 68);
    assert_eq!(table.len(), 2);
    assert_eq!(table.get_absolute(0), None, "oldest entry evicted");
    assert_eq!(table.get_absolute(1), Some((&b"b"[..], &b"b"[..])));
    assert_eq!(table.get_absolute(2), Some((&b"c"[..], &b"c"[..])));
    // Absolute indices of evicted entries are never reused.
    assert_eq!(table.inserted(), 3);
}

#[test]
fn insert_rejects_oversized_entry() {
    let mut table = DynamicTable::new(10);
    assert_eq!(
        insert(&mut table, "a", "a"),
        Err(InsertError::EntryTooLarge)
    );
    assert!(table.is_empty());
    assert_eq!(table.inserted(), 0);
}

#[test]
fn set_capacity_evicts_and_can_clear() {
    let mut table = DynamicTable::new(1000);
    for i in 0..5 {
        insert(&mut table, &format!("h{i}"), "v").unwrap();
    }
    assert_eq!(table.len(), 5);

    // Shrink below the size of the two newest entries.
    table.set_capacity(80);
    assert!(table.size() <= 80);
    assert_eq!(table.len(), 2);

    // Setting 0 clears the table; a later increase works with an empty
    // table.
    table.set_capacity(0);
    assert!(table.is_empty());
    assert_eq!(table.size(), 0);
    table.set_capacity(1000);
    insert(&mut table, "fresh", "entry").unwrap();
    assert_eq!(table.len(), 1);
    assert_eq!(table.get_absolute(5), Some((&b"fresh"[..], &b"entry"[..])));
}

#[test]
fn field_section_relative_and_post_base_indexing() {
    // Recreates the RFC 9204 Figure 3/4 scenario: 10 insertions, 3
    // evictions (alive absolute indices 3..=9), Base = 8.
    let mut table = DynamicTable::new(1000);
    for i in 0..10u8 {
        let bytes = Bytes::copy_from_slice(&[b'a' + i]);
        table.insert(bytes.clone(), bytes).unwrap();
    }
    // Evict the three oldest (absolute 0..=2) by shrinking capacity and
    // restoring it: 7 entries x 34 bytes each.
    table.set_capacity(7 * 34);
    table.set_capacity(1000);
    assert_eq!(table.len(), 7);
    assert_eq!(table.last_absolute(), 9);

    let base = 8;
    // Relative: index 0 -> absolute 7, increasing indices go older.
    assert_eq!(table.get_base_relative(base, 0), table.get_absolute(7));
    assert_eq!(table.get_base_relative(base, 3), table.get_absolute(4));
    assert_eq!(table.get_base_relative(base, 5), table.get_absolute(2));
    assert_eq!(table.get_base_relative(base, 5), None, "evicted entry");
    assert_eq!(table.get_base_relative(base, 8), None, "index >= base");

    // Post-base: index 0 -> absolute 8, increasing indices go newer.
    assert_eq!(table.get_post_base(base, 0), table.get_absolute(8));
    assert_eq!(table.get_post_base(base, 1), table.get_absolute(9));
    assert_eq!(table.get_post_base(base, 2), None, "beyond newest entry");
}

#[test]
fn duplicate_entries_are_allowed() {
    let mut table = DynamicTable::new(1000);
    insert(&mut table, "cookie", "a=b").unwrap();
    insert(&mut table, "cookie", "a=b").unwrap();
    assert_eq!(table.len(), 2);
    assert_eq!(table.get_absolute(0), Some((&b"cookie"[..], &b"a=b"[..])));
    assert_eq!(table.get_absolute(1), Some((&b"cookie"[..], &b"a=b"[..])));
}

#[test]
fn empty_table_lookups_return_none() {
    let table = DynamicTable::new(1000);
    assert_eq!(table.get_absolute(0), None);
    assert_eq!(table.get_relative(0), None);
    assert_eq!(table.get_base_relative(0, 0), None);
    assert_eq!(table.get_post_base(0, 0), None);
}

#[test]
fn emptied_table_has_no_last_entry() {
    let mut table = DynamicTable::new(100);
    insert(&mut table, "a", "a").unwrap();
    insert(&mut table, "b", "b").unwrap();
    assert_eq!(table.last_absolute(), 1);
    table.set_capacity(0);
    assert!(table.is_empty());
    assert_eq!(table.last_absolute(), 0);
    assert_eq!(table.inserted(), 2);
}
