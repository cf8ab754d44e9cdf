use dht_sync::cas::ContentAddressableStorage;
use dht_sync::content::{Address, AddressableContent};
use dht_sync::eav::{Attribute, EntityAttributeValue, EntityAttributeValueStorage};
use dht_sync::entry::{ChainHeader, Entry, EntryType, LinkData};
use dht_sync::entry_aspect::EntryAspect;
use dht_sync::error::HolochainError;
use dht_sync::handler::{
    create_handler, get_content_aspect, get_meta_aspects, held_addresses, FetchEntryData,
    HandlerOutcome, Lib3hServerProtocol, NodeState, QueryEntryResultData, StoreEntryAspectData,
};

fn ts() -> &'static str {
    "2019-03-21T10:00:00+00:00"
}

fn space() -> Address {
    Address::from_text("the-space".to_string())
}

fn agent() -> String {
    "this-agent".to_string()
}

fn header_for(entry: &Entry) -> ChainHeader {
    ChainHeader::new(&entry.entry_type(), &entry.address(), ts(), &None)
}

fn store_message(space_address: &Address, entry_address: &Address, aspect: &EntryAspect)
    -> Lib3hServerProtocol {
    Lib3hServerProtocol::HandleStoreEntryAspect(StoreEntryAspectData {
        request_id: "req".to_string(),
        space_address: space_address.clone(),
        provider_agent_id: agent(),
        entry_address: entry_address.clone(),
        entry_aspect: aspect.to_entry_aspect_data().expect("fixture timestamps are RFC 3339"),
    })
}

fn fetch_message(space_address: &Address, entry_address: &Address) -> Lib3hServerProtocol {
    Lib3hServerProtocol::HandleFetchEntry(FetchEntryData {
        space_address: space_address.clone(),
        entry_address: entry_address.clone(),
        request_id: "fetch".to_string(),
        provider_agent_id: agent(),
    })
}

/// A store request for another space mutates nothing and is dropped
/// silently.
#[test]
fn store_for_other_space_is_dropped() {
    let handler = create_handler(&space(), &agent(), &Vec::new());
    let mut state = NodeState::new();
    let entry = Entry::App("post".to_string(), "hello".to_string());
    let aspect = EntryAspect::Content(entry.clone(), header_for(&entry));
    let other_space = Address::from_text("another-space".to_string());
    let outcome = handler.handle(&mut state, Some(store_message(&other_space, &entry.address(), &aspect)));
    assert_eq!(outcome, HandlerOutcome::Dropped);
    assert_eq!(state.cas.contains(&entry.address()), Ok(false));
    assert!(state.headers.is_empty());
}

/// A stored content aspect serves a fetch with exactly one aspect;
/// adding one link triple referencing another stored entry yields
/// exactly two on the next fetch.
#[test]
fn fetch_returns_content_then_link_add() {
    let handler = create_handler(&space(), &agent(), &Vec::new());
    let mut state = NodeState::new();

    let base = Entry::App("post".to_string(), "hello".to_string());
    let base_aspect = EntryAspect::Content(base.clone(), header_for(&base));
    let outcome = handler.handle(&mut state, Some(store_message(&space(), &base.address(), &base_aspect)));
    assert_eq!(outcome, HandlerOutcome::Stored(Ok(())));

    let outcome = handler.handle(&mut state, Some(fetch_message(&space(), &base.address())));
    match outcome {
        HandlerOutcome::FetchResponse(_, aspects) => {
            assert_eq!(aspects.len(), 1);
            assert_eq!(aspects[0].type_hint(), "content");
        },
        other => panic!("expected a fetch response, got {:?}", other),
    }

    // A link from the base to a second stored entry.
    let target = Entry::App("post".to_string(), "world".to_string());
    let target_aspect = EntryAspect::Content(target.clone(), header_for(&target));
    let outcome = handler.handle(
        &mut state,
        Some(store_message(&space(), &target.address(), &target_aspect)),
    );
    assert_eq!(outcome, HandlerOutcome::Stored(Ok(())));

    let link_data = LinkData {
        base: base.address(),
        target: target.address(),
        link_type: "comment".to_string(),
        tag: "tag".to_string(),
    };
    let link_entry = Entry::LinkAdd(link_data.clone());
    let link_header = ChainHeader::new(&EntryType::LinkAdd, &link_entry.address(), ts(), &None);
    let link_aspect = EntryAspect::LinkAdd(link_data, link_header);
    let outcome = handler.handle(&mut state, Some(store_message(&space(), &base.address(), &link_aspect)));
    assert_eq!(outcome, HandlerOutcome::Stored(Ok(())));

    let outcome = handler.handle(&mut state, Some(fetch_message(&space(), &base.address())));
    match outcome {
        HandlerOutcome::FetchResponse(_, aspects) => {
            assert_eq!(aspects.len(), 2);
            assert_eq!(aspects[0].type_hint(), "content");
            assert_eq!(aspects[1].type_hint(), "link_add");
        },
        other => panic!("expected a fetch response, got {:?}", other),
    }
}

/// Undecodable input is dropped; a result for another requester is
/// dropped; a result for this agent is delivered.
#[test]
fn identity_filters_apply_before_dispatch() {
    let handler = create_handler(&space(), &agent(), &Vec::new());
    let mut state = NodeState::new();

    assert_eq!(handler.handle(&mut state, None), HandlerOutcome::Dropped);

    let result_for = |requester: &str| {
        Lib3hServerProtocol::QueryEntryResult(QueryEntryResultData {
            space_address: space(),
            entry_address: Address::from_text("whatever".to_string()),
            request_id: "q".to_string(),
            requester_agent_id: requester.to_string(),
            responder_agent_id: "peer".to_string(),
            query_result: vec![1, 2, 3],
        })
    };
    assert_eq!(
        handler.handle(&mut state, Some(result_for("someone-else"))),
        HandlerOutcome::Dropped,
    );
    match handler.handle(&mut state, Some(result_for("this-agent"))) {
        HandlerOutcome::DeliverQueryResult(d) => assert_eq!(d.query_result, vec![1, 2, 3]),
        other => panic!("expected delivery, got {:?}", other),
    }
    match handler.handle(&mut state, Some(result_for(""))) {
        HandlerOutcome::DeliverQueryResult(_) => {},
        other => panic!("an empty requester counts as addressed to this node, got {:?}", other),
    }
}

/// The aggregator's error taxonomy: absent entry, private type, and a
/// triple referencing nothing held.
#[test]
fn aggregator_errors() {
    let mut state = NodeState::new();
    let missing = Address::from_text("missing".to_string());
    assert_eq!(
        get_content_aspect(&missing, &state, &Vec::new()),
        Err(HolochainError::EntryNotFoundLocally),
    );

    let secret = Entry::App("secret-type".to_string(), "hidden".to_string());
    let handler = create_handler(&space(), &agent(), &vec!["secret-type".to_string()]);
    let aspect = EntryAspect::Content(secret.clone(), header_for(&secret));
    let outcome = handler.handle(&mut state, Some(store_message(&space(), &secret.address(), &aspect)));
    assert_eq!(outcome, HandlerOutcome::Stored(Ok(())));
    assert_eq!(
        get_content_aspect(&secret.address(), &state, &vec!["secret-type".to_string()]),
        Err(HolochainError::EntryIsPrivate),
    );
    assert!(get_content_aspect(&secret.address(), &state, &Vec::new()).is_ok());

    // A meta triple whose value address is held by nobody: local
    // corruption, a hard error.
    let dangling = EntityAttributeValue::new(
        &secret.address(),
        &Attribute::LinkTag("lt".to_string(), "tag".to_string()),
        &Address::from_text("points-nowhere".to_string()),
    );
    assert_eq!(state.eav.add_eav(&dangling), Ok(()));
    match get_meta_aspects(&secret.address(), &state) {
        Err(HolochainError::ErrorGeneric(_)) => {},
        other => panic!("expected a generic error, got {:?}", other),
    }
}

/// A store request carrying bytes that decode as no aspect fails, and
/// an update aspect naming no updated entry fails, both without any
/// mutation.
#[test]
fn malformed_store_requests_fail() {
    let handler = create_handler(&space(), &agent(), &Vec::new());
    let mut state = NodeState::new();

    let entry = Entry::App("post".to_string(), "v2".to_string());
    let mut store = match store_message(
        &space(),
        &entry.address(),
        &EntryAspect::Update(entry.clone(), header_for(&entry)),
    ) {
        Lib3hServerProtocol::HandleStoreEntryAspect(d) => d,
        _ => unreachable!(),
    };
    // The update's header carries no link to the entry it updates.
    match handler.handle(&mut state, Some(Lib3hServerProtocol::HandleStoreEntryAspect(store.clone()))) {
        HandlerOutcome::Stored(Err(HolochainError::ErrorGeneric(_))) => {},
        other => panic!("expected a generic error, got {:?}", other),
    }
    assert!(state.headers.is_empty());

    store.entry_aspect.aspect = vec![7u8; 12];
    match handler.handle(&mut state, Some(Lib3hServerProtocol::HandleStoreEntryAspect(store))) {
        HandlerOutcome::Stored(Err(HolochainError::ErrorGeneric(_))) => {},
        other => panic!("expected a generic error, got {:?}", other),
    }
    assert!(state.headers.is_empty());
    assert_eq!(state.cas.contains(&entry.address()), Ok(false));
}

/// Update, link-removal and deletion aspects store their meta shape and
/// surface on the next fetch of the entry they concern.
#[test]
fn meta_aspect_variants_round_trip_through_store_and_fetch() {
    let handler = create_handler(&space(), &agent(), &Vec::new());
    let mut state = NodeState::new();

    let base = Entry::App("post".to_string(), "original".to_string());
    let base_aspect = EntryAspect::Content(base.clone(), header_for(&base));
    let outcome = handler.handle(&mut state, Some(store_message(&space(), &base.address(), &base_aspect)));
    assert_eq!(outcome, HandlerOutcome::Stored(Ok(())));

    // An update: the new version's header names the entry it updates.
    let new_version = Entry::App("post".to_string(), "revised".to_string());
    let update_header = ChainHeader::new(
        &new_version.entry_type(),
        &new_version.address(),
        ts(),
        &Some(base.address()),
    );
    let update_aspect = EntryAspect::Update(new_version.clone(), update_header);
    let outcome = handler.handle(
        &mut state,
        Some(store_message(&space(), &new_version.address(), &update_aspect)),
    );
    assert_eq!(outcome, HandlerOutcome::Stored(Ok(())));

    // A removed link hanging off the base.
    let link_data = LinkData {
        base: base.address(),
        target: new_version.address(),
        link_type: "comment".to_string(),
        tag: "tag".to_string(),
    };
    let remove_entry = Entry::LinkRemove(link_data.clone(), vec![base.address()]);
    let remove_header = ChainHeader::new(&EntryType::LinkRemove, &remove_entry.address(), ts(), &None);
    let remove_aspect = EntryAspect::LinkRemove(
        (link_data, vec![base.address()]),
        remove_header,
    );
    let outcome = handler.handle(&mut state, Some(store_message(&space(), &base.address(), &remove_aspect)));
    assert_eq!(outcome, HandlerOutcome::Stored(Ok(())));

    // A tombstone for the base: a header is recorded, nothing else.
    let deletion_header = ChainHeader::new(
        &EntryType::Deletion,
        &base.address(),
        ts(),
        &Some(base.address()),
    );
    let outcome = handler.handle(
        &mut state,
        Some(store_message(&space(), &base.address(), &EntryAspect::Deletion(deletion_header))),
    );
    assert_eq!(outcome, HandlerOutcome::Stored(Ok(())));

    let outcome = handler.handle(&mut state, Some(fetch_message(&space(), &base.address())));
    match outcome {
        HandlerOutcome::FetchResponse(_, aspects) => {
            let mut hints: Vec<String> = aspects.iter().map(|a| a.type_hint()).collect();
            hints.sort();
            assert_eq!(hints, vec!["content".to_string(), "link_remove".to_string(), "update".to_string()]);
        },
        other => panic!("expected a fetch response, got {:?}", other),
    }
}

/// The enumeration handlers list each held address once.
#[test]
fn held_addresses_lists_each_address_once() {
    let handler = create_handler(&space(), &agent(), &Vec::new());
    let mut state = NodeState::new();
    let entry = Entry::App("post".to_string(), "hello".to_string());
    let content_aspect = EntryAspect::Content(entry.clone(), header_for(&entry));
    let header_aspect = EntryAspect::Header(header_for(&entry));
    let outcome = handler.handle(&mut state, Some(store_message(&space(), &entry.address(), &content_aspect)));
    assert_eq!(outcome, HandlerOutcome::Stored(Ok(())));
    let outcome = handler.handle(&mut state, Some(store_message(&space(), &entry.address(), &header_aspect)));
    assert_eq!(outcome, HandlerOutcome::Stored(Ok(())));
    let held = held_addresses(&state);
    assert_eq!(held, vec![entry.address()]);
}
