use dht_sync::content::{AddressableContent, ExampleAddressableContent,
    OtherExampleAddressableContent};
use dht_sync::eav::{
    Attribute, EavTestSuite, EntityAttributeValue, EntityAttributeValueStorage,
    ExampleEntityAttributeValueStorage,
};

fn attribute(text: &str) -> Attribute {
    Attribute::LinkTag(text.to_string(), String::new())
}

/// One triple round-trips: every subset of constrained fields finds it.
#[test]
fn eav_round_trip() {
    EavTestSuite::test_round_trip_test(
        ExampleEntityAttributeValueStorage::new(),
        ExampleAddressableContent { content: b"an entity".to_vec() },
        attribute("favourite-color"),
        OtherExampleAddressableContent { content: b"a value".to_vec() },
    );
}

/// One entity, many values: all returned together, each found alone.
#[test]
fn eav_one_to_many() {
    let ran = EavTestSuite::test_one_to_many::<
        ExampleAddressableContent,
        ExampleEntityAttributeValueStorage,
    >(ExampleEntityAttributeValueStorage::new());
    assert!(ran);
}

/// Many entities, one value: the symmetric case.
#[test]
fn eav_many_to_one() {
    let ran = EavTestSuite::test_many_to_one::<
        ExampleAddressableContent,
        ExampleEntityAttributeValueStorage,
    >(ExampleEntityAttributeValueStorage::new());
    assert!(ran);
}

/// The filters are exact: a duplicate add changes nothing, an
/// unconstrained query returns everything, a mismatch returns the empty
/// set and no error.
#[test]
fn eav_filters_are_exact() {
    let mut storage = ExampleEntityAttributeValueStorage::new();
    let e1 = ExampleAddressableContent { content: b"e1".to_vec() }.address();
    let e2 = ExampleAddressableContent { content: b"e2".to_vec() }.address();
    let v1 = ExampleAddressableContent { content: b"v1".to_vec() }.address();
    let v2 = ExampleAddressableContent { content: b"v2".to_vec() }.address();
    let t1 = EntityAttributeValue::new(&e1, &attribute("likes"), &v1);
    let t2 = EntityAttributeValue::new(&e1, &attribute("likes"), &v2);
    let t3 = EntityAttributeValue::new(&e2, &attribute("owns"), &v1);
    assert_eq!(storage.add_eav(&t1), Ok(()));
    assert_eq!(storage.add_eav(&t2), Ok(()));
    assert_eq!(storage.add_eav(&t3), Ok(()));
    assert_eq!(storage.add_eav(&t1), Ok(()));

    let all = storage.fetch_eav(None, None, None).expect("query works");
    assert_eq!(all.len(), 3);
    assert!(all.contains(&t1) && all.contains(&t2) && all.contains(&t3));

    let liked = storage
        .fetch_eav(Some(e1.clone()), Some(attribute("likes")), None)
        .expect("query works");
    assert_eq!(liked.len(), 2);
    assert!(liked.contains(&t1) && liked.contains(&t2));

    let owners_of_v1 = storage
        .fetch_eav(None, Some(attribute("owns")), Some(v1.clone()))
        .expect("query works");
    assert_eq!(owners_of_v1, vec![t3]);

    let none = storage
        .fetch_eav(Some(e2), Some(attribute("likes")), None)
        .expect("a query with no match is not an error");
    assert!(none.is_empty());
}
