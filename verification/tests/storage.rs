use dht_sync::cas::{
    hand_off_scenario, test_content_addressable_storage, ContentAddressableStorage,
    ExampleContentAddressableStorageActor, Protocol, StorageTestSuite,
};
use dht_sync::content::{
    compute_address, AddressableContent, ExampleAddressableContent, OtherExampleAddressableContent,
};

/// Content of different types round-trips through one storage, and every
/// handle observes the same data.
#[test]
fn example_content_round_trip_test() {
    let test_suite = StorageTestSuite::new(test_content_addressable_storage());
    let ran = test_suite.round_trip_test::<ExampleAddressableContent, OtherExampleAddressableContent>(
        String::from("foo").into_bytes(),
        String::from("bar").into_bytes(),
    );
    assert!(ran);
}

/// The deterministic hand-off interleaving: absence observed, then the
/// add, then presence observed, in the order the store's owner
/// serializes the three flows' requests.
#[test]
fn hand_off_observes_add() {
    assert!(hand_off_scenario(String::from("unique entry").into_bytes()));
}

/// The address derivation is the framed SHA-256 digest in base-58, not
/// the content handed back unchanged.
#[test]
fn address_derivation_matches_reference() {
    let content = b"foo".to_vec();
    let mut framed = vec![0x12u8, 0x20u8];
    let digest = <sha2::Sha256 as sha2::Digest>::digest(&content);
    framed.extend_from_slice(&digest);
    let expected = bs58::encode(&framed).into_string();
    let value = ExampleAddressableContent { content: content.clone() };
    assert_eq!(value.address().text(), expected.as_str());
    assert_ne!(value.address().text().as_bytes(), content.as_slice());
    assert_eq!(value.address(), compute_address(&content));
}

/// Adding the same content twice is idempotent: the state and all
/// subsequent reads are unaffected by the duplicate add.
#[test]
fn duplicate_add_is_idempotent() {
    let mut cas = test_content_addressable_storage();
    let value = ExampleAddressableContent { content: b"same".to_vec() };
    let address = value.address();
    assert_eq!(cas.add(&value), Ok(()));
    assert_eq!(cas.add(&value), Ok(()));
    assert_eq!(cas.contains(&address), Ok(true));
    let fetched: Option<ExampleAddressableContent> = cas.fetch(&address).expect("fetch works");
    assert_eq!(fetched, Some(value));
}

/// A snapshot taken after a completed add observes it; unknown
/// addresses stay absent.
#[test]
fn snapshot_observes_completed_add() {
    let mut cas = test_content_addressable_storage();
    let value = ExampleAddressableContent { content: b"shared".to_vec() };
    let other = OtherExampleAddressableContent { content: b"absent".to_vec() };
    assert_eq!(cas.add(&value), Ok(()));
    let reader = cas.snapshot();
    assert_eq!(reader.contains(&value.address()), Ok(true));
    assert_eq!(reader.contains(&other.address()), Ok(false));
    let fetched: Option<ExampleAddressableContent> =
        reader.fetch(&value.address()).expect("fetch works");
    assert_eq!(fetched, Some(value));
}

/// The storage owner answers each request kind with the matching reply.
#[test]
fn owner_answers_requests_in_order() {
    let mut owner = ExampleContentAddressableStorageActor::new();
    let value = ExampleAddressableContent { content: b"owned".to_vec() };
    let address = value.address();

    let reply = owner.receive(Protocol::CasContains(address.clone()));
    assert_eq!(reply, Protocol::CasContainsResult(Ok(false)));

    let reply = owner.receive(Protocol::CasAdd(address.clone(), value.content()));
    assert_eq!(reply, Protocol::CasAddResult(Ok(())));

    let reply = owner.receive(Protocol::CasContains(address.clone()));
    assert_eq!(reply, Protocol::CasContainsResult(Ok(true)));

    let reply = owner.receive(Protocol::CasFetch(address));
    assert_eq!(reply, Protocol::CasFetchResult(Ok(Some(b"owned".to_vec()))));
}
