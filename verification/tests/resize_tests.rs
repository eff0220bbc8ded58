use pobj::bucket::Bucket;
use pobj::pobj::Pobj;
use pobj::table::Table;
use pobj::traits::ErasedValue;

fn filled() -> Table<usize> {
    let mut table = Table::new();
    let keys = ["a", "b", "c", "i", "q", "a", "first", "second", "y"];
    for (n, key) in keys.iter().enumerate() {
        table.put(key, n).unwrap();
    }
    table
}

fn named(pairs: &[(&str, usize)]) -> Vec<(String, usize)> {
    pairs.iter().map(|(k, v)| (k.to_string(), *v)).collect()
}

#[test]
fn resize_moves_each_entry_to_its_new_slot_in_order() {
    let mut table = filled();
    assert_eq!(
        table.items(),
        named(&[
            ("first", 6),
            ("y", 8),
            ("a", 5),
            ("q", 4),
            ("i", 3),
            ("a", 0),
            ("b", 1),
            ("c", 2),
            ("second", 7)
        ])
    );
    table.resize(3);
    assert_eq!(table.len(), 3);
    assert_eq!(table.size(), 9);
    assert_eq!(
        table.items(),
        named(&[
            ("y", 8),
            ("a", 5),
            ("a", 0),
            ("first", 6),
            ("i", 3),
            ("c", 2),
            ("second", 7),
            ("q", 4),
            ("b", 1)
        ])
    );
    assert_eq!(table.get_read_bucket(0).unwrap().len(), 3);
    assert_eq!(table.get_read_bucket(1).unwrap().len(), 4);
    assert_eq!(table.get_read_bucket(2).unwrap().len(), 2);
}

#[test]
fn resize_keeps_every_lookup() {
    let mut table = filled();
    for slots in [1usize, 3, 32, 16, 7] {
        table.resize(slots);
        assert_eq!(table.len(), slots);
        assert_eq!(table.size(), 9);
        assert_eq!(table.get("a"), Some(5));
        assert_eq!(table.get("b"), Some(1));
        assert_eq!(table.get("c"), Some(2));
        assert_eq!(table.get("i"), Some(3));
        assert_eq!(table.get("q"), Some(4));
        assert_eq!(table.get("first"), Some(6));
        assert_eq!(table.get("second"), Some(7));
        assert_eq!(table.get("y"), Some(8));
        assert_eq!(table.get("z"), None);
    }
}

#[test]
fn resize_to_one_slot_keeps_the_order_of_items() {
    let mut table = filled();
    let before = table.items();
    table.resize(1);
    assert_eq!(table.items(), before);
    assert_eq!(table.get_read_bucket(0).unwrap().to_vec(), before);
}

#[test]
fn resize_of_an_empty_table_changes_the_slots_only() {
    let mut table: Table<u8> = Table::new();
    table.resize(40);
    assert_eq!(table.len(), 40);
    assert_eq!(table.size(), 0);
    assert!(table.put("a", 1).is_ok());
    assert_eq!(table.hash("a"), 4290 % 40);
    assert_eq!(table.get("a"), Some(1));
}

#[test]
fn put_after_resize_goes_to_the_new_slot() {
    let mut table = filled();
    table.resize(32);
    table.put("a", 100).unwrap();
    assert_eq!(table.get("a"), Some(100));
    assert_eq!(table.size(), 10);
    assert_eq!(
        table.get_read_bucket(2).unwrap().to_vec(),
        named(&[("a", 100), ("a", 5), ("q", 4), ("a", 0)])
    );
}

#[test]
fn pobj_resize_keeps_types_and_values() {
    let mut table = Pobj::new();
    table.put("a", 1i32).unwrap();
    table.put("i", String::from("text")).unwrap();
    table.put("b", true).unwrap();
    table.resize(3);
    assert_eq!(table.len(), 3);
    assert_eq!(table.size(), 3);
    assert_eq!(table.get::<i32>("a"), Some(1));
    assert_eq!(table.get::<String>("a"), None);
    assert_eq!(table.get::<String>("i"), Some(String::from("text")));
    assert_eq!(table.get::<bool>("b"), Some(true));
    assert_eq!(
        table.items(),
        vec![
            (String::from("a"), ErasedValue::I32(1)),
            (String::from("i"), ErasedValue::Text(String::from("text"))),
            (String::from("b"), ErasedValue::Bool(true))
        ]
    );
}

#[test]
fn into_vec_gives_the_entries_newest_first() {
    let mut bucket = Bucket::new();
    bucket.add("a", String::from("x"));
    bucket.add("b", String::from("y"));
    bucket.push_front(String::from("c"), String::from("z"));
    assert_eq!(bucket.len(), 3);
    assert_eq!(
        bucket.into_vec(),
        vec![
            (String::from("c"), String::from("z")),
            (String::from("b"), String::from("y")),
            (String::from("a"), String::from("x"))
        ]
    );
    let empty: Bucket<u8> = Bucket::new();
    assert!(empty.into_vec().is_empty());
}
