use pobj::pobj::{Pobj, PobjError};
use pobj::traits::{CloneableAny, ErasedValue};

#[test]
fn fresh_table_scenario() {
    let mut table = Pobj::new();
    assert!(table.put("first", 1).is_ok());
    assert!(table.put("second", String::from("hello")).is_ok());
    assert_eq!(table.size(), 2);
    assert_eq!(table.len(), 16);
    assert_eq!(table.get::<i32>("first"), Some(1));
    assert_eq!(table.get::<String>("second"), Some(String::from("hello")));
    assert_eq!(table.get::<String>("first"), None);
}

#[test]
fn new_pobj_has_the_default_slots_and_no_entries() {
    let table = Pobj::new();
    assert_eq!(table.len(), 16);
    assert_eq!(table.size(), 0);
    assert!(table.items().is_empty());
    assert_eq!(table.get::<i32>("first"), None);
    assert_eq!(table.hash("first"), 0);
    assert_eq!(table.hash("second"), 8);
}

#[test]
fn round_trip_for_each_storable_type() {
    let mut table = Pobj::new();
    table.put("bool", true).unwrap();
    table.put("char", 'x').unwrap();
    table.put("i32", -5i32).unwrap();
    table.put("i64", i64::MIN).unwrap();
    table.put("u32", 7u32).unwrap();
    table.put("u64", u64::MAX).unwrap();
    table.put("usize", 9usize).unwrap();
    table.put("text", String::from("some text")).unwrap();
    assert_eq!(table.get::<bool>("bool"), Some(true));
    assert_eq!(table.get::<char>("char"), Some('x'));
    assert_eq!(table.get::<i32>("i32"), Some(-5));
    assert_eq!(table.get::<i64>("i64"), Some(i64::MIN));
    assert_eq!(table.get::<u32>("u32"), Some(7));
    assert_eq!(table.get::<u64>("u64"), Some(u64::MAX));
    assert_eq!(table.get::<usize>("usize"), Some(9));
    assert_eq!(table.get::<String>("text"), Some(String::from("some text")));
    assert_eq!(table.size(), 8);
}

#[test]
fn type_isolation() {
    let mut table = Pobj::new();
    table.put("a", 42i32).unwrap();
    table.put("b", String::from("forty-two")).unwrap();
    assert_eq!(table.get::<String>("a"), None);
    assert_eq!(table.get::<i32>("a"), Some(42));
    assert_eq!(table.get::<i32>("b"), None);
    assert_eq!(table.get::<i64>("a"), None);
    assert_eq!(table.get::<u32>("a"), None);
    assert_eq!(table.get::<String>("b"), Some(String::from("forty-two")));
}

#[test]
fn last_put_under_a_key_decides_the_type_too() {
    let mut table = Pobj::new();
    table.put("k", 1i32).unwrap();
    table.put("k", String::from("now text")).unwrap();
    assert_eq!(table.get::<i32>("k"), None);
    assert_eq!(table.get::<String>("k"), Some(String::from("now text")));
    assert_eq!(table.size(), 2);
}

#[test]
fn size_counts_distinct_keys() {
    let mut table = Pobj::new();
    for n in 0..100u32 {
        let key = format!("key{}", n);
        assert!(table.put(&key, n).is_ok());
        assert_eq!(table.size(), n as usize + 1);
        assert_eq!(table.len(), 16);
    }
    for n in 0..100u32 {
        let key = format!("key{}", n);
        assert_eq!(table.get::<u32>(&key), Some(n));
    }
}

#[test]
fn pobj_items_go_slot_by_slot_newest_first() {
    let mut table = Pobj::new();
    table.put("b", 1i32).unwrap();
    table.put("a", String::from("x")).unwrap();
    table.put("i", true).unwrap();
    assert_eq!(
        table.items(),
        vec![
            (String::from("i"), ErasedValue::Bool(true)),
            (String::from("a"), ErasedValue::Text(String::from("x"))),
            (String::from("b"), ErasedValue::I32(1))
        ]
    );
}

#[test]
fn snapshot_taken_before_a_put_does_not_see_it() {
    let mut table = Pobj::new();
    table.put("a", 1i32).unwrap();
    let before_chain = table.get_read_bucket(2).unwrap();
    let before_items = table.items();
    table.put("i", 2i32).unwrap();
    let after_chain = table.get_read_bucket(2).unwrap();
    let after_items = table.items();
    assert_eq!(before_chain.len(), 1);
    assert!(before_chain.get_value_from_key("i").is_none());
    assert_eq!(before_items.len(), 1);
    assert_eq!(after_chain.len(), 2);
    assert_eq!(
        after_chain.get_value_from_key("i"),
        Some(&ErasedValue::I32(2))
    );
    assert_eq!(after_items.len(), 2);
    assert!(table.get_read_bucket(16).is_none());
}

#[test]
fn pobj_put_at_without_such_a_slot_fails_and_writes_nothing() {
    let mut table = Pobj::new();
    match table.put_at(16, "a", 1i32) {
        Err(PobjError::WriteFailed(reason)) => {
            assert_eq!(reason, "Could not grab bucket from hash table!")
        }
        Ok(()) => panic!("a write to a slot that is not there succeeded"),
    }
    assert_eq!(table.size(), 0);
    assert!(table.put_at(15, "a", 1i32).is_ok());
    assert_eq!(table.size(), 1);
}

#[test]
fn pobj_error_text() {
    let err = PobjError::new("no slot");
    match &err {
        PobjError::WriteFailed(reason) => assert_eq!(reason, "no slot"),
    }
    assert_eq!(err.to_text(), "Write failed: no slot");
}

#[test]
fn clone_box_into_box_and_downcast_agree() {
    let text = String::from("abc");
    assert_eq!(text.clone_box(), ErasedValue::Text(String::from("abc")));
    assert_eq!(text.into_box(), ErasedValue::Text(String::from("abc")));
    assert_eq!(5i32.clone_box(), ErasedValue::I32(5));
    assert_eq!(5i64.into_box(), ErasedValue::I64(5));
    assert_eq!(i32::downcast(&ErasedValue::I32(5)), Some(5));
    assert_eq!(i32::downcast(&ErasedValue::I64(5)), None);
    assert_eq!(u64::downcast(&ErasedValue::U32(5)), None);
    assert_eq!(
        String::downcast(&ErasedValue::Text(String::from("abc"))),
        Some(String::from("abc"))
    );
    assert_eq!(String::downcast(&ErasedValue::Char('a')), None);
    assert_eq!(char::downcast(&ErasedValue::Char('a')), Some('a'));
    assert_eq!(bool::downcast(&ErasedValue::Bool(false)), Some(false));
    assert_eq!(usize::downcast(&ErasedValue::Usize(3)), Some(3));
    assert_eq!(u32::downcast(&ErasedValue::U32(3)), Some(3));
}

#[test]
fn erased_value_clone_is_equal() {
    let values = vec![
        ErasedValue::Bool(true),
        ErasedValue::Char('c'),
        ErasedValue::I32(-1),
        ErasedValue::I64(2),
        ErasedValue::U32(3),
        ErasedValue::U64(4),
        ErasedValue::Usize(5),
        ErasedValue::Text(String::from("six")),
    ];
    for value in &values {
        assert_eq!(&value.clone(), value);
    }
}
