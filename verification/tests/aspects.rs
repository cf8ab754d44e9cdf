use dht_sync::content::{Address, AddressableContent};
use dht_sync::entry::{ChainHeader, Entry, EntryType, LinkData};
use dht_sync::entry_aspect::EntryAspect;

fn test_timestamp() -> &'static str {
    "2018-10-11T03:23:38+00:00"
}

fn test_chain_header() -> ChainHeader {
    let entry = Entry::App("testEntryType".to_string(), "test entry value".to_string());
    ChainHeader::new(
        &EntryType::App("testEntryType".to_string()),
        &entry.address(),
        test_timestamp(),
        &None,
    )
}

/// The wire envelope preserves the discriminator, the address of the
/// serialized aspect, the bytes themselves, and the timestamp in whole
/// seconds.
#[test]
fn can_convert_into_entry_aspect_data() {
    let chain_header = test_chain_header();
    let aspect = EntryAspect::Header(chain_header.clone());
    let aspect_data = aspect.to_entry_aspect_data().expect("the timestamp is RFC 3339");
    let ts = chrono::DateTime::parse_from_rfc3339(&chain_header.timestamp())
        .expect("the fixture timestamp parses");
    assert_eq!(aspect_data.type_hint, aspect.type_hint());
    assert_eq!(aspect_data.aspect_address, aspect.address());
    assert_eq!(aspect_data.aspect, aspect.content());
    assert_eq!(aspect_data.publish_ts, ts.timestamp() as u64);
}

/// Every aspect variant decodes back from its own serialized bytes.
#[test]
fn aspect_bytes_round_trip() {
    let header = test_chain_header();
    let entry = Entry::App("testEntryType".to_string(), "test entry value".to_string());
    let link_data = LinkData {
        base: entry.address(),
        target: Entry::App("other".to_string(), "x".to_string()).address(),
        link_type: "child".to_string(),
        tag: "tag".to_string(),
    };
    let new_version = Entry::App("testEntryType".to_string(), "a new version".to_string());
    let aspects = vec![
        EntryAspect::Content(entry.clone(), header.clone()),
        EntryAspect::Header(header.clone()),
        EntryAspect::LinkAdd(link_data.clone(), header.clone()),
        EntryAspect::LinkRemove((link_data.clone(), vec![entry.address()]), header.clone()),
        EntryAspect::Update(new_version, header.clone()),
        EntryAspect::Deletion(header.clone()),
    ];
    for aspect in aspects {
        let bytes = aspect.content();
        let decoded = EntryAspect::try_from_content(&bytes).expect("own bytes decode");
        assert_eq!(decoded, aspect);
        assert_eq!(decoded.type_hint(), aspect.type_hint());
        assert_eq!(decoded.header(), aspect.header());
    }
}

/// The six discriminators.
#[test]
fn type_hints_match_variants() {
    let h = test_chain_header();
    let e = Entry::Dna;
    let l = LinkData {
        base: Address::from_text("b".to_string()),
        target: Address::from_text("t".to_string()),
        link_type: "lt".to_string(),
        tag: "tg".to_string(),
    };
    assert_eq!(EntryAspect::Content(e.clone(), h.clone()).type_hint(), "content");
    assert_eq!(EntryAspect::Header(h.clone()).type_hint(), "header");
    assert_eq!(EntryAspect::LinkAdd(l.clone(), h.clone()).type_hint(), "link_add");
    assert_eq!(EntryAspect::LinkRemove((l, vec![]), h.clone()).type_hint(), "link_remove");
    assert_eq!(EntryAspect::Update(e, h.clone()).type_hint(), "update");
    assert_eq!(EntryAspect::Deletion(h).type_hint(), "deletion");
}

/// A header whose timestamp is not RFC 3339 yields no wire envelope.
#[test]
fn malformed_timestamp_yields_no_envelope() {
    let entry = Entry::Dna;
    let header = ChainHeader::new(&EntryType::Dna, &entry.address(), "not a timestamp", &None);
    let aspect = EntryAspect::Header(header);
    assert!(aspect.to_entry_aspect_data().is_none());
}

/// Bytes that are no aspect encoding are rejected.
#[test]
fn garbage_bytes_do_not_decode() {
    assert!(EntryAspect::try_from_content(&vec![9u8; 40]).is_none());
    assert!(EntryAspect::try_from_content(&Vec::new()).is_none());
    let truncated = {
        let mut b = EntryAspect::Header(test_chain_header()).content();
        b.pop();
        b
    };
    assert!(EntryAspect::try_from_content(&truncated).is_none());
}

/// The wire layout is little-endian length-prefixed fields: a DNA entry
/// is its tag alone, an application entry its tag and two strings.
#[test]
fn entry_wire_layout_is_exact() {
    assert_eq!(Entry::Dna.content(), vec![2, 0, 0, 0, 0, 0, 0, 0]);
    let app = Entry::App("ab".to_string(), "c".to_string());
    let expected = vec![
        1u8, 0, 0, 0, 0, 0, 0, 0, // the application entry tag
        2, 0, 0, 0, 0, 0, 0, 0, b'a', b'b', // the type name
        1, 0, 0, 0, 0, 0, 0, 0, b'c', // the value
    ];
    assert_eq!(app.content(), expected);
}

/// An entry round-trips through its content bytes.
#[test]
fn entry_bytes_round_trip() {
    let entries = vec![
        Entry::App("t".to_string(), "v".to_string()),
        Entry::Dna,
        Entry::LinkAdd(LinkData {
            base: Address::from_text("b".to_string()),
            target: Address::from_text("t".to_string()),
            link_type: "lt".to_string(),
            tag: "tg".to_string(),
        }),
        Entry::Deletion(Address::from_text("d".to_string())),
    ];
    for entry in entries {
        let bytes = entry.content();
        let decoded = Entry::try_from_content(&bytes).expect("own bytes decode");
        assert_eq!(decoded, entry);
        assert_eq!(decoded.address(), entry.address());
    }
}
