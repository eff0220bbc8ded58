use pobj::hashing::{hash_key, HASH_OFFSET};
use pobj::table::{Table, TableError, DEFAULT_SIZE};

#[test]
fn hash_key_adds_twice_each_code_to_the_offset() {
    assert_eq!(HASH_OFFSET, 4096);
    assert_eq!(hash_key("", 16), 0);
    assert_eq!(hash_key("", 1000), 96);
    assert_eq!(hash_key("a", 16), 2);
    assert_eq!(hash_key("a", 5000), 4290);
    assert_eq!(hash_key("b", 16), 4);
    assert_eq!(hash_key("first", 16), 0);
    assert_eq!(hash_key("second", 16), 8);
    assert_eq!(hash_key("first", 100000), 5200);
    assert_eq!(hash_key("second", 100000), 5368);
}

#[test]
fn hash_key_counts_characters_not_bytes() {
    assert_eq!(hash_key("\u{e9}", 16), 2);
    assert_eq!(hash_key("\u{e9}", 100000), 4096 + 2 * 233);
    assert_eq!(
        hash_key("\u{10FFFF}\u{10FFFF}\u{10FFFF}", 1000),
        (4096 + 2 * 0x10FFFF * 3) % 1000
    );
}

#[test]
fn hash_key_with_one_slot_is_zero() {
    assert_eq!(hash_key("anything", 1), 0);
}

#[test]
fn hash_key_takes_long_keys_and_many_slots() {
    let long = "z".repeat(100000);
    assert_eq!(hash_key(&long, 7), (4096 + 2 * 122 * 100000) % 7);
    assert_eq!(hash_key("a", usize::MAX), 4290);
}

#[test]
fn new_table_has_the_default_slots_and_no_entries() {
    let table: Table<i32> = Table::new();
    assert_eq!(DEFAULT_SIZE, 16);
    assert_eq!(table.len(), 16);
    assert_eq!(table.size(), 0);
    assert!(table.items().is_empty());
    assert_eq!(table.get("first"), None);
}

#[test]
fn table_hash_is_the_slot_of_the_key() {
    let table: Table<u8> = Table::new();
    assert_eq!(table.hash("first"), 0);
    assert_eq!(table.hash("second"), 8);
    assert_eq!(table.hash("a"), 2);
    assert_eq!(table.hash("i"), 2);
}

#[test]
fn put_then_get_returns_the_value() {
    let mut table = Table::new();
    assert!(table.put("first", 1).is_ok());
    assert!(table.put("second", 2).is_ok());
    assert_eq!(table.get("first"), Some(1));
    assert_eq!(table.get("second"), Some(2));
    assert_eq!(table.get("third"), None);
    assert_eq!(table.get_ref("first"), Some(&1));
}

#[test]
fn size_counts_puts_and_len_stays() {
    let mut table = Table::new();
    let keys = ["a", "b", "c", "d", "e", "f", "g", "h", "i", "j"];
    for (n, key) in keys.iter().enumerate() {
        assert_eq!(table.size(), n);
        assert!(table.put(key, n).is_ok());
        assert_eq!(table.len(), 16);
    }
    assert_eq!(table.size(), 10);
    for (n, key) in keys.iter().enumerate() {
        assert_eq!(table.get(key), Some(n));
    }
}

#[test]
fn last_put_under_a_key_wins_and_both_are_kept() {
    let mut table = Table::new();
    table.put("k", 1).unwrap();
    table.put("k", 2).unwrap();
    assert_eq!(table.get("k"), Some(2));
    assert_eq!(table.size(), 2);
    assert_eq!(
        table.items(),
        vec![(String::from("k"), 2), (String::from("k"), 1)]
    );
}

#[test]
fn colliding_keys_share_a_chain_and_stay_apart() {
    let mut table = Table::new();
    table.put("a", 1).unwrap();
    table.put("i", 2).unwrap();
    assert_eq!(table.get("a"), Some(1));
    assert_eq!(table.get("i"), Some(2));
    assert_eq!(table.get("q"), None);
    let chain = table.get_read_bucket(2).unwrap();
    assert_eq!(
        chain.to_vec(),
        vec![(String::from("i"), 2), (String::from("a"), 1)]
    );
}

#[test]
fn items_go_slot_by_slot_newest_first() {
    let mut table = Table::new();
    table.put("b", 1).unwrap();
    table.put("a", 2).unwrap();
    table.put("second", 3).unwrap();
    table.put("i", 4).unwrap();
    table.put("first", 5).unwrap();
    assert_eq!(
        table.items(),
        vec![
            (String::from("first"), 5),
            (String::from("i"), 4),
            (String::from("a"), 2),
            (String::from("b"), 1),
            (String::from("second"), 3)
        ]
    );
}

#[test]
fn iter_items_hands_out_what_items_lists() {
    let mut table = Table::new();
    table.put("b", 1).unwrap();
    table.put("a", 2).unwrap();
    table.put("i", 4).unwrap();
    let mut cursor = table.iter_items();
    let mut seen = Vec::new();
    while let Some(pair) = cursor.next() {
        seen.push(pair);
    }
    assert_eq!(seen, table.items());
    assert_eq!(cursor.next(), None);
    assert_eq!(seen.len(), 3);
}

#[test]
fn iter_items_of_an_empty_table_is_none() {
    let table: Table<i32> = Table::new();
    let mut cursor = table.iter_items();
    assert_eq!(cursor.next(), None);
    assert_eq!(cursor.next(), None);
}

#[test]
fn put_at_writes_to_the_slot_given() {
    let mut table = Table::new();
    assert!(table.put_at(3, "a", 9).is_ok());
    assert_eq!(table.size(), 1);
    assert_eq!(table.get("a"), None);
    let chain = table.get_read_bucket(3).unwrap();
    assert_eq!(chain.to_vec(), vec![(String::from("a"), 9)]);
}

#[test]
fn put_at_without_such_a_slot_fails_and_writes_nothing() {
    let mut table = Table::new();
    let failed = table.put_at(16, "a", 9);
    match failed {
        Err(TableError::WriteFailed(reason)) => {
            assert_eq!(reason, "Could not grab bucket from hash table!")
        }
        Ok(()) => panic!("a write to a slot that is not there succeeded"),
    }
    assert_eq!(table.size(), 0);
    assert!(table.put_at(usize::MAX, "a", 9).is_err());
    assert_eq!(table.size(), 0);
}

#[test]
fn get_read_bucket_is_a_snapshot() {
    let mut table = Table::new();
    table.put("a", 1).unwrap();
    let before = table.get_read_bucket(2).unwrap();
    table.put("i", 2).unwrap();
    let after = table.get_read_bucket(2).unwrap();
    assert_eq!(before.len(), 1);
    assert_eq!(before.get_value_from_key("i"), None);
    assert_eq!(after.len(), 2);
    assert_eq!(after.get_value_from_key("i"), Some(&2));
    assert!(table.get_read_bucket(16).is_none());
}

#[test]
fn table_error_text() {
    let err = TableError::new("no slot");
    match &err {
        TableError::WriteFailed(reason) => assert_eq!(reason, "no slot"),
    }
    assert_eq!(err.to_text(), "Write failed: no slot");
    assert_eq!(TableError::new("").to_text(), "Write failed: ");
}

#[test]
fn the_empty_key_is_a_key() {
    let mut table = Table::new();
    assert_eq!(table.get(""), None);
    table.put("", 7).unwrap();
    assert_eq!(table.get(""), Some(7));
    assert_eq!(table.size(), 1);
    assert_eq!(
        table.get_read_bucket(0).unwrap().to_vec(),
        vec![(String::new(), 7)]
    );
}
