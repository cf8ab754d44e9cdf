use vstd::prelude::*;

use crate::cas::{ContentAddressableStorage, ExampleContentAddressableStorage};
use crate::content::{address_eq, address_of, Address, AddressableContent};
use crate::eav::{
    is_meta_attribute, Attribute, AttributeV, EavV, EntityAttributeValue,
    EntityAttributeValueStorage, ExampleEntityAttributeValueStorage, eav_matches,
    eav_query_result,
};
use crate::entry::{
    can_publish_spec, dec_entry, enc_entry, entry_type_of, seq_str_view, ChainHeader, ChainHeaderV,
    Entry, EntryV,
};
use crate::entry_aspect::{dec_aspect, enc_aspect, EntryAspect, EntryAspectV, EntryAspectData};
use crate::error::HolochainError;

verus! {

// ---------------------------------------------------------------------
// The protocol message model: what a transport can deliver to a node.
// ---------------------------------------------------------------------

/// A store request: hold this aspect of the entry.
#[derive(Clone, Debug, PartialEq, Eq)]
pub struct StoreEntryAspectData {
    pub request_id: String,
    pub space_address: Address,
    pub provider_agent_id: String,
    pub entry_address: Address,
    pub entry_aspect: EntryAspectData,
}

/// A fetch request: return every known aspect of the entry.
#[derive(Clone, Debug, PartialEq, Eq)]
pub struct FetchEntryData {
    pub space_address: Address,
    pub entry_address: Address,
    pub request_id: String,
    pub provider_agent_id: String,
}

/// The answer to a fetch this node issued elsewhere.
#[derive(Clone, Debug, PartialEq, Eq)]
pub struct FetchEntryResultData {
    pub space_address: Address,
    pub provider_agent_id: String,
    pub request_id: String,
    pub entry_address: Address,
    pub entry_aspects: Vec<EntryAspectData>,
}

/// A query against the entry, answered from local aggregation.
#[derive(Clone, Debug, PartialEq, Eq)]
pub struct QueryEntryData {
    pub space_address: Address,
    pub entry_address: Address,
    pub request_id: String,
    pub requester_agent_id: String,
}

/// The answer to a query, addressed to its requester.
#[derive(Clone, Debug, PartialEq, Eq)]
pub struct QueryEntryResultData {
    pub space_address: Address,
    pub entry_address: Address,
    pub request_id: String,
    pub requester_agent_id: String,
    pub responder_agent_id: String,
    pub query_result: Vec<u8>,
}

/// An opaque node-to-node message, passed through to the messaging
/// collaborator.
#[derive(Clone, Debug, PartialEq, Eq)]
pub struct DirectMessageData {
    pub space_address: Address,
    pub request_id: String,
    pub to_agent_id: String,
    pub from_agent_id: String,
    pub content: Vec<u8>,
}

/// A request to enumerate what this node authors or gossips.
#[derive(Clone, Debug, PartialEq, Eq)]
pub struct GetListData {
    pub space_address: Address,
    pub provider_agent_id: String,
    pub request_id: String,
}

/// A failure notice from the transport.
#[derive(Clone, Debug, PartialEq, Eq)]
pub struct GenericResultData {
    pub space_address: Address,
    pub request_id: String,
    pub to_agent_id: String,
    pub result_info: Vec<u8>,
}

/// A peer-connected notice.
#[derive(Clone, Debug, PartialEq, Eq)]
pub struct ConnectedData {
    pub request_id: String,
    pub uri: String,
}

/// The closed set of protocol messages the router classifies.
#[derive(Debug, PartialEq, Eq)]
pub enum Lib3hServerProtocol {
    FailureResult(GenericResultData),
    Connected(ConnectedData),
    HandleStoreEntryAspect(StoreEntryAspectData),
    HandleFetchEntry(FetchEntryData),
    FetchEntryResult(FetchEntryResultData),
    HandleQueryEntry(QueryEntryData),
    QueryEntryResult(QueryEntryResultData),
    HandleSendDirectMessage(DirectMessageData),
    SendDirectMessageResult(DirectMessageData),
    HandleGetAuthoringEntryList(GetListData),
    HandleGetGossipingEntryList(GetListData),
}

// ---------------------------------------------------------------------
// The node's local storage state.
// ---------------------------------------------------------------------

/// The storage a node's handlers read and write: the content store, the
/// triple index, and the header index.  The header index keeps headers
/// in the order they arrived, and that order is the explicit ordering
/// every "first header" below refers to.
pub struct NodeState {
    pub cas: ExampleContentAddressableStorage,
    pub eav: ExampleEntityAttributeValueStorage,
    pub headers: Vec<(Address, ChainHeader)>,
}

/// The views of a header index.
pub open spec fn headers_view(s: Seq<(Address, ChainHeader)>) -> Seq<(Seq<char>, ChainHeaderV)> {
    Seq::new(s.len(), |i: int| (s[i].0@, s[i].1@))
}

/// The views of a list of headers.
pub open spec fn seq_header_view(s: Seq<ChainHeader>) -> Seq<ChainHeaderV> {
    Seq::new(s.len(), |i: int| s[i]@)
}

/// The headers recorded for an address, in arrival order.
pub open spec fn headers_for(hs: Seq<(Seq<char>, ChainHeaderV)>, a: Seq<char>) -> Seq<ChainHeaderV>
    decreases hs.len(),
{
    if hs.len() == 0 {
        Seq::empty()
    } else if hs[0].0 == a {
        seq![hs[0].1] + headers_for(hs.skip(1), a)
    } else {
        headers_for(hs.skip(1), a)
    }
}

/// The entry a store holds under an address, where those bytes are the
/// canonical wire form of an entry.
#[verifier::opaque]
pub open spec fn stored_entry(m: Map<Seq<char>, Seq<u8>>, a: Seq<char>) -> Option<EntryV> {
    if m.contains_key(a) {
        match dec_entry(m[a]) {
            Some(p) => if p.1.len() == 0 && enc_entry(p.0) == m[a] {
                Some(p.0)
            } else {
                None
            },
            None => None,
        }
    } else {
        None
    }
}

impl NodeState {
    pub open spec fn wf(&self) -> bool {
        self.cas.wf() && self.eav.wf()
    }

    /// A node with empty stores.
    pub fn new() -> (r: NodeState)
        ensures
            r.wf(),
            r.cas.cas_view() == Map::<Seq<char>, Seq<u8>>::empty(),
            r.eav.eav_view() == Set::<EavV>::empty(),
            r.headers@.len() == 0,
    {
        NodeState {
            cas: crate::cas::test_content_addressable_storage(),
            eav: ExampleEntityAttributeValueStorage::new(),
            headers: Vec::new(),
        }
    }

    fn get_headers_rec(&self, address: &Address, i: usize) -> (r: Vec<ChainHeader>)
        requires
            i <= self.headers@.len(),
        ensures
            seq_header_view(r@) == headers_for(headers_view(self.headers@).skip(i as int), address@),
        decreases self.headers@.len() - i,
    {
        if i < self.headers.len() {
            let tail = self.get_headers_rec(address, i + 1);
            proof {
                assert(headers_view(self.headers@).skip(i as int).skip(1) =~= headers_view(
                    self.headers@,
                ).skip(i as int + 1));
            }
            if address_eq(&self.headers[i].0, address) {
                let mut out: Vec<ChainHeader> = Vec::new();
                out.push(self.headers[i].1.clone());
                let mut tail = tail;
                let mut j: usize = 0;
                let ghost tail_views = seq_header_view(tail@);
                while j < tail.len()
                    invariant
                        j <= tail@.len(),
                        tail@.len() == tail_views.len(),
                        out@.len() == j + 1,
                        out@[0]@ == self.headers@[i as int].1@,
                        forall|k: int| 0 <= k < j ==> out@[k + 1]@ == tail_views[k],
                        forall|k: int| 0 <= k < tail@.len() ==> tail@[k]@ == tail_views[k],
                    decreases tail@.len() - j,
                {
                    out.push(tail[j].clone());
                    j = j + 1;
                }
                proof {
                    assert(seq_header_view(out@) =~= seq![
                        self.headers@[i as int].1@,
                    ] + seq_header_view(tail@));
                }
                out
            } else {
                tail
            }
        } else {
            let empty: Vec<ChainHeader> = Vec::new();
            proof {
                assert(headers_view(self.headers@).skip(i as int) =~= Seq::<(
                    Seq<char>,
                    ChainHeaderV,
                )>::empty());
                assert(seq_header_view(empty@) =~= Seq::<ChainHeaderV>::empty());
            }
            empty
        }
    }

    /// Every header recorded for the address, in arrival order.
    pub fn get_headers(&self, address: &Address) -> (r: Vec<ChainHeader>)
        ensures
            seq_header_view(r@) == headers_for(headers_view(self.headers@), address@),
    {
        let r = self.get_headers_rec(address, 0);
        proof {
            assert(headers_view(self.headers@).skip(0) =~= headers_view(self.headers@));
        }
        r
    }
}

// ---------------------------------------------------------------------
// The aspect aggregator.
// ---------------------------------------------------------------------

/// Derives the content aspect of an entry from local storage: the held
/// entry wrapped with the first locally recorded header.  Fails when
/// the entry is absent (`EntryNotFoundLocally`), when its type must not
/// be published (`EntryIsPrivate`), and — generically — when the held
/// bytes are not an entry or no header is recorded.
pub fn get_content_aspect(
    entry_address: &Address,
    state: &NodeState,
    private_entry_types: &Vec<String>,
) -> (r: Result<EntryAspect, HolochainError>)
    requires
        state.wf(),
    ensures
        (r is Ok) == content_available(*state, entry_address@, seq_str_view(private_entry_types@)),
        ({
            let m = state.cas.cas_view();
            let a = entry_address@;
            let hs = headers_for(headers_view(state.headers@), a);
            let privates = seq_str_view(private_entry_types@);
            match r {
                Ok(asp) => stored_entry(m, a) matches Some(e) && can_publish_spec(
                    entry_type_of(e),
                    privates,
                ) && hs.len() > 0 && asp@ == EntryAspectV::Content(e, hs[0]),
                Err(err) => match err {
                    HolochainError::EntryNotFoundLocally => !m.contains_key(a),
                    HolochainError::EntryIsPrivate => stored_entry(m, a) matches Some(e)
                        && !can_publish_spec(entry_type_of(e), privates),
                    HolochainError::ErrorGeneric(_) => (m.contains_key(a) && stored_entry(m, a)
                        is None) || (stored_entry(m, a) matches Some(e) && can_publish_spec(
                        entry_type_of(e),
                        privates,
                    ) && hs.len() == 0),
                },
            }
        }),
{
    let fetched: Result<Option<Entry>, HolochainError> = state.cas.fetch(entry_address);
    let entry = match fetched {
        Ok(Some(e)) => e,
        Ok(None) => {
            proof {
                reveal(stored_entry);
                assert(stored_entry(state.cas.cas_view(), entry_address@) is None);
            }
            return Err(HolochainError::EntryNotFoundLocally);
        },
        Err(e) => {
            proof {
                reveal(stored_entry);
                assert(stored_entry(state.cas.cas_view(), entry_address@) is None);
            }
            return Err(e);
        },
    };
    // Re-serializing relates the fetched entry to the bytes the store
    // holds under this address.
    let mut reenc: Vec<u8> = Vec::new();
    crate::entry::encode_entry(&mut reenc, &entry);
    proof {
        reveal(stored_entry);
        crate::entry::lemma_dec_enc_entry(entry@, Seq::empty());
        assert(enc_entry(entry@) + Seq::<u8>::empty() =~= enc_entry(entry@));
        assert(stored_entry(state.cas.cas_view(), entry_address@) == Some(entry@));
    }
    if !entry.entry_type().can_publish(private_entry_types) {
        return Err(HolochainError::EntryIsPrivate);
    }
    let headers = state.get_headers(entry_address);
    if headers.len() == 0 {
        return Err(
            HolochainError::ErrorGeneric("no local headers for the held entry".to_owned()),
        );
    }
    let first_header = headers[0].clone();
    proof {
        assert(seq_header_view(headers@)[0] == first_header@);
    }
    Ok(EntryAspect::Content(entry, first_header))
}

/// What one meta triple should resolve to: the triple's value address
/// must hold an entry whose shape matches the attribute kind — a
/// link-add entry under a link attribute, a link-remove entry under a
/// removed-link attribute, any entry under an update pointer — wrapped
/// with the first header recorded for that value address.  Nothing,
/// where the referenced entry or its header is missing or of the wrong
/// shape: a triple pointing nowhere indicates local corruption.
#[verifier::opaque]
pub open spec fn meta_aspect_of(
    t: EavV,
    m: Map<Seq<char>, Seq<u8>>,
    header_index: Seq<(Seq<char>, ChainHeaderV)>,
) -> Option<EntryAspectV> {
    let hs = headers_for(header_index, t.value);
    match stored_entry(m, t.value) {
        Some(e) => if hs.len() > 0 {
            match t.attribute {
                AttributeV::LinkTag(_, _) => match e {
                    EntryV::LinkAdd(l) => Some(EntryAspectV::LinkAdd(l, hs[0])),
                    _ => None,
                },
                AttributeV::RemovedLink(_, _) => match e {
                    EntryV::LinkRemove(l, addrs) => Some(
                        EntryAspectV::LinkRemove((l, addrs), hs[0]),
                    ),
                    _ => None,
                },
                AttributeV::CrudLink => Some(EntryAspectV::Update(e, hs[0])),
                _ => None,
            }
        } else {
            None
        },
        None => None,
    }
}

/// Some meta triple of the set resolves to this aspect.
pub open spec fn is_resolved_meta(
    a: EntryAspect,
    metas: Set<EavV>,
    m: Map<Seq<char>, Seq<u8>>,
    hsi: Seq<(Seq<char>, ChainHeaderV)>,
) -> bool {
    exists|t: EavV| metas.contains(t) && meta_aspect_of(t, m, hsi) == Some(a@)
}

/// Every aspect of the list is what some meta triple of the set
/// resolves to.
#[verifier::opaque]
pub open spec fn meta_aspects_sound(
    v: Seq<EntryAspect>,
    metas: Set<EavV>,
    m: Map<Seq<char>, Seq<u8>>,
    hsi: Seq<(Seq<char>, ChainHeaderV)>,
) -> bool {
    forall|k: int| 0 <= k < v.len() ==> is_resolved_meta(#[trigger] v[k], metas, m, hsi)
}

/// Every meta triple of the set resolves to some aspect of the list.
#[verifier::opaque]
pub open spec fn meta_aspects_complete(
    v: Seq<EntryAspect>,
    metas: Set<EavV>,
    m: Map<Seq<char>, Seq<u8>>,
    hsi: Seq<(Seq<char>, ChainHeaderV)>,
) -> bool {
    forall|t: EavV|
        metas.contains(t) ==> exists|k: int|
            0 <= k < v.len() && Some(#[trigger] v[k]@) == meta_aspect_of(t, m, hsi)
}

/// A one-to-one witness list behind an aspect list: the k-th aspect is
/// what the k-th witness triple resolves to, the witnesses are distinct
/// meta triples of the set, and every meta triple of the set is among
/// them.  An aspect list with such a witness list holds exactly one
/// aspect per meta triple.
#[verifier::opaque]
pub open spec fn meta_witnesses(
    w: Seq<EavV>,
    v: Seq<EntryAspect>,
    metas: Set<EavV>,
    m: Map<Seq<char>, Seq<u8>>,
    hsi: Seq<(Seq<char>, ChainHeaderV)>,
) -> bool {
    &&& w.len() == v.len()
    &&& forall|k: int|
        0 <= k < w.len() ==> metas.contains(#[trigger] w[k]) && meta_aspect_of(w[k], m, hsi)
            == Some(v[k]@)
    &&& forall|k1: int, k2: int| 0 <= k1 < k2 < w.len() ==> w[k1] != w[k2]
    &&& forall|t: EavV| metas.contains(t) ==> w.contains(t)
}

/// The meta triples recorded for an address: its triples under a link,
/// removed-link or update attribute.
pub open spec fn meta_triples(eavs: Set<EavV>, a: Seq<char>) -> Set<EavV> {
    Set::new(|t: EavV| eavs.contains(t) && t.entity == a && is_meta_attribute(t.attribute))
}

/// What the aggregation loop's bookkeeping adds up to: an aspect list
/// paired index-by-index with distinct meta triples drawn from a
/// duplicate-free query result, with every meta triple of the result
/// paired, is sound, complete and one-to-one.
proof fn lemma_meta_witness_list(
    eavs: Set<EavV>,
    a: Seq<char>,
    fetched: Seq<EntityAttributeValue>,
    v: Seq<EntryAspect>,
    wit: Seq<EavV>,
    jw: Seq<int>,
    metas: Set<EavV>,
    m: Map<Seq<char>, Seq<u8>>,
    hsi: Seq<(Seq<char>, ChainHeaderV)>,
)
    requires
        metas == meta_triples(eavs, a),
        eav_query_result(fetched, eavs, Some(a), None, None),
        wit.len() == v.len(),
        jw.len() == wit.len(),
        forall|k: int|
            0 <= k < v.len() ==> metas.contains(#[trigger] wit[k]) && meta_aspect_of(
                wit[k],
                m,
                hsi,
            ) == Some(v[k]@),
        forall|k: int|
            0 <= k < jw.len() ==> 0 <= #[trigger] jw[k] < fetched.len() && fetched[jw[k]]@
                == wit[k],
        forall|k1: int, k2: int| 0 <= k1 < k2 < jw.len() ==> jw[k1] < jw[k2],
        forall|j: int|
            0 <= j < fetched.len() && metas.contains(#[trigger] fetched[j]@) ==> exists|k: int|
                0 <= k < jw.len() && #[trigger] jw[k] == j,
    ensures
        meta_aspects_sound(v, metas, m, hsi),
        meta_aspects_complete(v, metas, m, hsi),
        meta_witnesses(wit, v, metas, m, hsi),
{
    reveal(meta_aspects_sound);
    reveal(meta_aspects_complete);
    reveal(meta_witnesses);
    assert forall|k: int|
        0 <= k < v.len() implies is_resolved_meta(#[trigger] v[k], metas, m, hsi) by {
        assert(metas.contains(wit[k]) && meta_aspect_of(wit[k], m, hsi) == Some(v[k]@));
        assert(is_resolved_meta(v[k], metas, m, hsi));
    }
    assert forall|k1: int, k2: int| 0 <= k1 < k2 < wit.len() implies wit[k1] != wit[k2] by {
        assert(fetched[jw[k1]]@ == wit[k1]);
        assert(fetched[jw[k2]]@ == wit[k2]);
        assert(jw[k1] < jw[k2]);
    }
    assert forall|t: EavV| metas.contains(t) implies wit.contains(t) by {
        assert(eavs.contains(t) && eav_matches(t, Some(a), None, None));
        let j = choose|j: int| 0 <= j < fetched.len() && #[trigger] fetched[j]@ == t;
        let k = choose|k: int| 0 <= k < jw.len() && #[trigger] jw[k] == j;
        assert(0 <= k < wit.len() && wit[k] == t);
    }
    assert forall|t: EavV| metas.contains(t) implies exists|k: int|
        0 <= k < v.len() && Some(#[trigger] v[k]@) == meta_aspect_of(t, m, hsi) by {
        let k = choose|k: int| 0 <= k < wit.len() && wit[k] == t;
        assert(Some(v[k]@) == meta_aspect_of(t, m, hsi));
    }
    assert(meta_witnesses(wit, v, metas, m, hsi));
}

/// Derives the meta aspects of an entry: for every meta triple whose
/// entity is the address, the aspect its value resolves to — exactly
/// one aspect per meta triple, witnessed one-to-one.  The first failed
/// resolution aborts the whole computation with a generic error:
/// fail-fast, no partial results.
#[verifier::rlimit(100)]
pub fn get_meta_aspects(entry_address: &Address, state: &NodeState) -> (r: Result<
    Vec<EntryAspect>,
    HolochainError,
>)
    requires
        state.wf(),
    ensures
        ({
            let m = state.cas.cas_view();
            let hsi = headers_view(state.headers@);
            let metas = meta_triples(state.eav.eav_view(), entry_address@);
            match r {
                Ok(v) => meta_aspects_sound(v@, metas, m, hsi) && meta_aspects_complete(
                    v@,
                    metas,
                    m,
                    hsi,
                ) && (exists|w: Seq<EavV>| meta_witnesses(w, v@, metas, m, hsi)),
                Err(e) => (exists|t: EavV|
                    metas.contains(t) && meta_aspect_of(t, m, hsi) is None) && e
                    matches HolochainError::ErrorGeneric(_),
            }
        }),
{
    let ghost m = state.cas.cas_view();
    let ghost hsi = headers_view(state.headers@);
    let ghost metas = meta_triples(state.eav.eav_view(), entry_address@);
    let fetched = match state.eav.fetch_eav(Some(entry_address.clone()), None, None) {
        Ok(v) => v,
        Err(_) => {
            proof {
                assert(false);
            }
            Vec::new()
        },
    };
    let mut out: Vec<EntryAspect> = Vec::new();
    let ghost mut wit: Seq<EavV> = Seq::empty();
    let ghost mut jw: Seq<int> = Seq::empty();
    let mut i: usize = 0;
    while i < fetched.len()
        invariant
            state.wf(),
            m == state.cas.cas_view(),
            hsi == headers_view(state.headers@),
            metas == meta_triples(state.eav.eav_view(), entry_address@),
            eav_query_result(
                fetched@,
                state.eav.eav_view(),
                Some(entry_address@),
                None,
                None,
            ),
            i <= fetched@.len(),
            wit.len() == out@.len(),
            jw.len() == wit.len(),
            forall|k: int|
                0 <= k < out@.len() ==> metas.contains(#[trigger] wit[k]) && meta_aspect_of(
                    wit[k],
                    m,
                    hsi,
                ) == Some(out@[k]@),
            forall|k: int|
                0 <= k < jw.len() ==> 0 <= #[trigger] jw[k] < i && fetched@[jw[k]]@ == wit[k],
            forall|k1: int, k2: int| 0 <= k1 < k2 < jw.len() ==> jw[k1] < jw[k2],
            forall|j: int|
                0 <= j < i && metas.contains(#[trigger] fetched@[j]@) ==> exists|k: int|
                    0 <= k < jw.len() && #[trigger] jw[k] == j,
            forall|j: int|
                0 <= j < i && metas.contains(#[trigger] fetched@[j]@) ==> exists|k: int|
                    0 <= k < out@.len() && Some(#[trigger] out@[k]@) == meta_aspect_of(
                        fetched@[j]@,
                        m,
                        hsi,
                    ),
        decreases fetched@.len() - i,
    {
        let eavi = &fetched[i];
        let ghost tv = fetched@[i as int]@;
        let attribute = eavi.attribute();
        if attribute.is_meta() {
            proof {
                assert(metas.contains(tv));
            }
            let value_address = eavi.value();
            let resolved: Result<Option<Entry>, HolochainError> = state.cas.fetch(&value_address);
            let value_entry = match resolved {
                Ok(Some(e)) => e,
                _ => {
                    proof {
                        reveal(stored_entry);
                        reveal(meta_aspect_of);
                        assert(stored_entry(m, tv.value) is None);
                        assert(meta_aspect_of(tv, m, hsi) is None);
                    }
                    return Err(
                        HolochainError::ErrorGeneric(
                            "entry linked in a held triple is not held locally".to_owned(),
                        ),
                    );
                },
            };
            let mut reenc: Vec<u8> = Vec::new();
            crate::entry::encode_entry(&mut reenc, &value_entry);
            proof {
                reveal(stored_entry);
                crate::entry::lemma_dec_enc_entry(value_entry@, Seq::empty());
                assert(enc_entry(value_entry@) + Seq::<u8>::empty() =~= enc_entry(value_entry@));
                assert(stored_entry(m, tv.value) == Some(value_entry@));
            }
            let value_headers = state.get_headers(&value_address);
            if value_headers.len() == 0 {
                proof {
                    reveal(meta_aspect_of);
                    assert(meta_aspect_of(tv, m, hsi) is None);
                }
                return Err(
                    HolochainError::ErrorGeneric(
                        "no local headers for a linked entry".to_owned(),
                    ),
                );
            }
            let header = value_headers[0].clone();
            proof {
                assert(seq_header_view(value_headers@)[0] == header@);
            }
            let aspect = match attribute {
                Attribute::LinkTag(_, _) => match value_entry {
                    Entry::LinkAdd(link_data) => EntryAspect::LinkAdd(link_data, header),
                    _ => {
                        proof {
                            reveal(meta_aspect_of);
                            assert(meta_aspect_of(tv, m, hsi) is None);
                        }
                        return Err(
                            HolochainError::ErrorGeneric(
                                "a link triple references an entry that is no link-add".to_owned(),
                            ),
                        );
                    },
                },
                Attribute::RemovedLink(_, _) => match value_entry {
                    Entry::LinkRemove(link_data, removed) => EntryAspect::LinkRemove(
                        (link_data, removed),
                        header,
                    ),
                    _ => {
                        proof {
                            reveal(meta_aspect_of);
                            assert(meta_aspect_of(tv, m, hsi) is None);
                        }
                        return Err(
                            HolochainError::ErrorGeneric(
                                "a removed-link triple references an entry that is no link-remove".to_owned(),
                            ),
                        );
                    },
                },
                Attribute::CrudLink => EntryAspect::Update(value_entry, header),
                _ => {
                    proof {
                        assert(false);
                    }
                    return Err(HolochainError::EntryNotFoundLocally);
                },
            };
            proof {
                reveal(meta_aspect_of);
                assert(meta_aspect_of(tv, m, hsi) == Some(aspect@));
            }
            let ghost out_before = out@;
            out.push(aspect);
            proof {
                let ghost jw_before = jw;
                wit = wit.push(tv);
                jw = jw.push(i as int);
                assert(jw[jw.len() - 1] == i as int && wit[wit.len() - 1] == tv);
                assert forall|j: int|
                    0 <= j <= i && metas.contains(#[trigger] fetched@[j]@) implies exists|k: int|
                        0 <= k < jw.len() && #[trigger] jw[k] == j by {
                    if j < i {
                        let k = choose|k: int|
                            0 <= k < jw_before.len() && #[trigger] jw_before[k] == j;
                        assert(jw[k] == j);
                    } else {
                        assert(jw[jw.len() - 1] == j);
                    }
                }
                assert forall|j: int|
                    0 <= j <= i && metas.contains(#[trigger] fetched@[j]@) implies exists|k: int|
                        0 <= k < out@.len() && Some(#[trigger] out@[k]@) == meta_aspect_of(
                            fetched@[j]@,
                            m,
                            hsi,
                        ) by {
                    if j < i {
                        let k = choose|k: int|
                            0 <= k < out_before.len() && Some(#[trigger] out_before[k]@)
                                == meta_aspect_of(fetched@[j]@, m, hsi);
                        assert(out@[k]@ == out_before[k]@);
                        assert(Some(out@[k]@) == meta_aspect_of(fetched@[j]@, m, hsi));
                    } else {
                        assert(Some(out@[out@.len() - 1]@) == meta_aspect_of(tv, m, hsi));
                    }
                }
            }
        } else {
            proof {
                assert(!metas.contains(tv));
            }
        }
        i = i + 1;
    }
    let r: Result<Vec<EntryAspect>, HolochainError> = Ok(out);
    proof {
        let v = r->Ok_0;
        lemma_meta_witness_list(
            state.eav.eav_view(),
            entry_address@,
            fetched@,
            v@,
            wit,
            jw,
            metas,
            m,
            hsi,
        );
    }
    r
}

// ---------------------------------------------------------------------
// The message router.
// ---------------------------------------------------------------------

/// What a store writes under each address: the entry under its own
/// address, ignored if already held.
pub open spec fn cas_add_effect(m: Map<Seq<char>, Seq<u8>>, e: EntryV) -> Map<Seq<char>, Seq<u8>> {
    if m.contains_key(address_of(enc_entry(e))) {
        m
    } else {
        m.insert(address_of(enc_entry(e)), enc_entry(e))
    }
}

/// The aspect carried by a store request, where its bytes are the
/// canonical wire form of an aspect.
#[verifier::opaque]
pub open spec fn decoded_aspect(b: Seq<u8>) -> Option<EntryAspectV> {
    match dec_aspect(b) {
        Some(p) => if p.1.len() == 0 && enc_aspect(p.0) == b {
            Some(p.0)
        } else {
            None
        },
        None => None,
    }
}

/// What a store request does to the node's storage, by the variant of
/// the aspect it carries.  An undecodable aspect, and an update whose
/// header names no updated entry, fail and change nothing; every other
/// case holds the carried content, header and — for the meta variants —
/// the triple the aggregator later reads.
pub open spec fn store_transition(
    pre: NodeState,
    post: NodeState,
    d: StoreEntryAspectData,
    r: Result<(), HolochainError>,
) -> bool {
    let m = pre.cas.cas_view();
    let hv = headers_view(pre.headers@);
    let ev = pre.eav.eav_view();
    match decoded_aspect(d.entry_aspect.aspect@) {
        Some(a) => match a {
            EntryAspectV::Content(e, h) => r is Ok && post.cas.cas_view() == cas_add_effect(m, e)
                && headers_view(post.headers@) == hv.push((d.entry_address@, h))
                && post.eav.eav_view() == ev,
            EntryAspectV::Header(h) => r is Ok && post.cas.cas_view() == m && headers_view(
                post.headers@,
            ) == hv.push((d.entry_address@, h)) && post.eav.eav_view() == ev,
            EntryAspectV::LinkAdd(l, h) => r is Ok && post.cas.cas_view() == cas_add_effect(
                m,
                EntryV::LinkAdd(l),
            ) && headers_view(post.headers@) == hv.push(
                (address_of(enc_entry(EntryV::LinkAdd(l))), h),
            ) && post.eav.eav_view() == ev.insert(
                EavV {
                    entity: l.base,
                    attribute: AttributeV::LinkTag(l.link_type, l.tag),
                    value: address_of(enc_entry(EntryV::LinkAdd(l))),
                },
            ),
            EntryAspectV::LinkRemove(p, h) => r is Ok && post.cas.cas_view() == cas_add_effect(
                m,
                EntryV::LinkRemove(p.0, p.1),
            ) && headers_view(post.headers@) == hv.push(
                (address_of(enc_entry(EntryV::LinkRemove(p.0, p.1))), h),
            ) && post.eav.eav_view() == ev.insert(
                EavV {
                    entity: p.0.base,
                    attribute: AttributeV::RemovedLink(p.0.link_type, p.0.tag),
                    value: address_of(enc_entry(EntryV::LinkRemove(p.0, p.1))),
                },
            ),
            EntryAspectV::Update(e, h) => match h.link_update_delete {
                Some(updated) => r is Ok && post.cas.cas_view() == cas_add_effect(m, e)
                    && headers_view(post.headers@) == hv.push((address_of(enc_entry(e)), h))
                    && post.eav.eav_view() == ev.insert(
                    EavV {
                        entity: updated,
                        attribute: AttributeV::CrudLink,
                        value: address_of(enc_entry(e)),
                    },
                ),
                None => r matches Err(HolochainError::ErrorGeneric(_)) && post == pre,
            },
            EntryAspectV::Deletion(h) => r is Ok && post.cas.cas_view() == m && headers_view(
                post.headers@,
            ) == hv.push((d.entry_address@, h)) && post.eav.eav_view() == ev,
        },
        None => r matches Err(HolochainError::ErrorGeneric(_)) && post == pre,
    }
}

/// The write path: decodes the carried aspect and holds what it
/// asserts — content and headers in the stores, link, removed-link and
/// update relationships as triples.
pub fn handle_store(data: &StoreEntryAspectData, state: &mut NodeState) -> (r: Result<
    (),
    HolochainError,
>)
    requires
        old(state).wf(),
    ensures
        final(state).wf(),
        store_transition(*old(state), *final(state), *data, r),
{
    proof {
        reveal(decoded_aspect);
    }
    let aspect = match EntryAspect::try_from_content(&data.entry_aspect.aspect) {
        Some(a) => a,
        None => {
            proof {
                assert(decoded_aspect(data.entry_aspect.aspect@) is None);
            }
            return Err(HolochainError::ErrorGeneric("undecodable entry aspect".to_owned()));
        },
    };
    // Re-serializing relates the decoded aspect to the carried bytes.
    let mut reenc: Vec<u8> = Vec::new();
    crate::entry_aspect::encode_aspect(&mut reenc, &aspect);
    proof {
        crate::entry_aspect::lemma_dec_enc_aspect(aspect@, Seq::empty());
        assert(enc_aspect(aspect@) + Seq::<u8>::empty() =~= enc_aspect(aspect@));
        assert(decoded_aspect(data.entry_aspect.aspect@) == Some(aspect@));
    }
    match aspect {
        EntryAspect::Content(entry, header) => {
            let added = state.cas.add(&entry);
            assert(added is Ok);
            state.headers.push((data.entry_address.clone(), header));
            proof {
                assert(headers_view(state.headers@) =~= headers_view(old(state).headers@).push(
                    (data.entry_address@, state.headers@.last().1@),
                ));
            }
            Ok(())
        },
        EntryAspect::Header(header) => {
            state.headers.push((data.entry_address.clone(), header));
            proof {
                assert(headers_view(state.headers@) =~= headers_view(old(state).headers@).push(
                    (data.entry_address@, state.headers@.last().1@),
                ));
            }
            Ok(())
        },
        EntryAspect::LinkAdd(link_data, header) => {
            let base = link_data.base.clone();
            let attribute = Attribute::LinkTag(
                link_data.link_type.clone(),
                link_data.tag.clone(),
            );
            let link_entry = Entry::LinkAdd(link_data);
            let link_entry_address = link_entry.address();
            let added = state.cas.add(&link_entry);
            assert(added is Ok);
            state.headers.push((link_entry_address.clone(), header));
            proof {
                assert(headers_view(state.headers@) =~= headers_view(old(state).headers@).push(
                    (link_entry_address@, state.headers@.last().1@),
                ));
            }
            let triple = EntityAttributeValue::new(&base, &attribute, &link_entry_address);
            let added = state.eav.add_eav(&triple);
            assert(added is Ok);
            Ok(())
        },
        EntryAspect::LinkRemove(pair, header) => {
            let (link_data, removed) = pair;
            let base = link_data.base.clone();
            let attribute = Attribute::RemovedLink(
                link_data.link_type.clone(),
                link_data.tag.clone(),
            );
            let remove_entry = Entry::LinkRemove(link_data, removed);
            let remove_entry_address = remove_entry.address();
            let added = state.cas.add(&remove_entry);
            assert(added is Ok);
            state.headers.push((remove_entry_address.clone(), header));
            proof {
                assert(headers_view(state.headers@) =~= headers_view(old(state).headers@).push(
                    (remove_entry_address@, state.headers@.last().1@),
                ));
            }
            let triple = EntityAttributeValue::new(&base, &attribute, &remove_entry_address);
            let added = state.eav.add_eav(&triple);
            assert(added is Ok);
            Ok(())
        },
        EntryAspect::Update(entry, header) => {
            let updated = match header.link_update_delete() {
                Some(a) => a,
                None => {
                    return Err(
                        HolochainError::ErrorGeneric(
                            "an update aspect names no updated entry".to_owned(),
                        ),
                    );
                },
            };
            let entry_address = entry.address();
            let added = state.cas.add(&entry);
            assert(added is Ok);
            state.headers.push((entry_address.clone(), header));
            proof {
                assert(headers_view(state.headers@) =~= headers_view(old(state).headers@).push(
                    (entry_address@, state.headers@.last().1@),
                ));
            }
            let triple = EntityAttributeValue::new(&updated, &Attribute::CrudLink, &entry_address);
            let added = state.eav.add_eav(&triple);
            assert(added is Ok);
            Ok(())
        },
        EntryAspect::Deletion(header) => {
            state.headers.push((data.entry_address.clone(), header));
            proof {
                assert(headers_view(state.headers@) =~= headers_view(old(state).headers@).push(
                    (data.entry_address@, state.headers@.last().1@),
                ));
            }
            Ok(())
        },
    }
}

/// The content aspect can be served: the entry is held, publishable,
/// and has a recorded header.
pub open spec fn content_available(
    state: NodeState,
    a: Seq<char>,
    privates: Seq<Seq<char>>,
) -> bool {
    let m = state.cas.cas_view();
    let hs = headers_for(headers_view(state.headers@), a);
    stored_entry(m, a) matches Some(e) && can_publish_spec(entry_type_of(e), privates) && hs.len()
        > 0
}

/// Every meta triple of the address resolves.
pub open spec fn metas_available(state: NodeState, a: Seq<char>) -> bool {
    let m = state.cas.cas_view();
    let hsi = headers_view(state.headers@);
    forall|t: EavV|
        meta_triples(state.eav.eav_view(), a).contains(t) ==> meta_aspect_of(t, m, hsi) is Some
}

/// The content side of a fetch answer: where the content aspect can be
/// served, it stands first.
#[verifier::opaque]
pub open spec fn fetch_content_part(
    state: NodeState,
    a: Seq<char>,
    privates: Seq<Seq<char>>,
    aspects: Seq<EntryAspect>,
) -> bool {
    content_available(state, a, privates) ==> aspects.len() >= 1 && (stored_entry(
        state.cas.cas_view(),
        a,
    ) matches Some(e) && aspects[0]@ == EntryAspectV::Content(
        e,
        headers_for(headers_view(state.headers@), a)[0],
    ))
}

/// The meta aspects that follow the content aspect: exactly one per
/// meta triple, witnessed one-to-one, where every meta triple
/// resolves; nothing where one does not.
#[verifier::opaque]
pub open spec fn fetch_meta_rest(state: NodeState, a: Seq<char>, rest: Seq<EntryAspect>) -> bool {
    let m = state.cas.cas_view();
    let hsi = headers_view(state.headers@);
    let metas = meta_triples(state.eav.eav_view(), a);
    &&& metas_available(state, a) ==> meta_aspects_sound(rest, metas, m, hsi)
        && meta_aspects_complete(rest, metas, m, hsi) && (exists|w: Seq<EavV>|
        meta_witnesses(w, rest, metas, m, hsi))
    &&& !metas_available(state, a) ==> rest.len() == 0
}

/// The meta side of a fetch answer: what follows the content aspect,
/// if one is served, else the whole list.
pub open spec fn fetch_meta_part(
    state: NodeState,
    a: Seq<char>,
    privates: Seq<Seq<char>>,
    aspects: Seq<EntryAspect>,
) -> bool {
    if content_available(state, a, privates) {
        fetch_meta_rest(state, a, aspects.skip(1))
    } else {
        fetch_meta_rest(state, a, aspects)
    }
}

/// What a fetch or query of an address returns: the content aspect
/// first, where it can be served, then the meta aspects — exactly one
/// per meta triple, witnessed one-to-one — where every one of them
/// resolves; a failed side is left out and only logged.
#[verifier::opaque]
pub open spec fn fetch_transition(
    state: NodeState,
    a: Seq<char>,
    privates: Seq<Seq<char>>,
    aspects: Seq<EntryAspect>,
) -> bool {
    fetch_content_part(state, a, privates, aspects) && fetch_meta_part(state, a, privates, aspects)
}

/// Assembles the fetch answer's specification from the two sides'
/// outcomes: the content aspect (present exactly when it can be
/// served) and the meta aspect list with its one-to-one witnesses
/// (present exactly when every meta triple resolves).
#[verifier::rlimit(100)]
#[verifier::spinoff_prover]
proof fn lemma_fetch_transition_from_parts(
    state: NodeState,
    a: Seq<char>,
    privates: Seq<Seq<char>>,
    aspects: Seq<EntryAspect>,
    metas_vec: Seq<EntryAspect>,
    content_ok: bool,
    metas_resolved: bool,
)
    requires
        content_ok == content_available(state, a, privates),
        content_ok ==> aspects.len() >= 1 && aspects.skip(1) == metas_vec && (stored_entry(
            state.cas.cas_view(),
            a,
        ) matches Some(e) && aspects[0]@ == EntryAspectV::Content(
            e,
            headers_for(headers_view(state.headers@), a)[0],
        )),
        !content_ok ==> aspects == metas_vec,
        metas_resolved ==> ({
            let m = state.cas.cas_view();
            let hsi = headers_view(state.headers@);
            let metas = meta_triples(state.eav.eav_view(), a);
            meta_aspects_sound(metas_vec, metas, m, hsi) && meta_aspects_complete(
                metas_vec,
                metas,
                m,
                hsi,
            ) && (exists|w: Seq<EavV>| meta_witnesses(w, metas_vec, metas, m, hsi))
        }),
        !metas_resolved ==> metas_vec.len() == 0 && !metas_available(state, a),
    ensures
        fetch_transition(state, a, privates, aspects),
{
    let m = state.cas.cas_view();
    let hsi = headers_view(state.headers@);
    let metas = meta_triples(state.eav.eav_view(), a);
    let rest = if content_available(state, a, privates) {
        aspects.skip(1)
    } else {
        aspects
    };
    assert(rest == metas_vec);
    assert(fetch_content_part(state, a, privates, aspects)) by {
        reveal(fetch_content_part);
    }
    if metas_resolved {
        assert forall|t: EavV| metas.contains(t) implies meta_aspect_of(t, m, hsi) is Some by {
            reveal(meta_aspects_complete);
            let k = choose|k: int|
                0 <= k < metas_vec.len() && Some(#[trigger] metas_vec[k]@) == meta_aspect_of(
                    t,
                    m,
                    hsi,
                );
        }
        assert(metas_available(state, a));
    }
    assert(fetch_meta_rest(state, a, metas_vec)) by {
        reveal(fetch_meta_rest);
        if metas_resolved {
            assert(exists|w2: Seq<EavV>| meta_witnesses(w2, metas_vec, metas, m, hsi));
        }
    }
    assert(fetch_meta_rest(state, a, rest));
    assert(fetch_meta_part(state, a, privates, aspects));
    assert(fetch_transition(state, a, privates, aspects)) by {
        reveal(fetch_transition);
    }
}

/// Aggregates every aspect a fetch or query of the address can serve.
#[verifier::rlimit(100)]
#[verifier::spinoff_prover]
fn aggregate_aspects(
    entry_address: &Address,
    state: &NodeState,
    private_entry_types: &Vec<String>,
) -> (r: Vec<EntryAspect>)
    requires
        state.wf(),
    ensures
        fetch_transition(*state, entry_address@, seq_str_view(private_entry_types@), r@),
{
    let ghost a = entry_address@;
    let ghost privates = seq_str_view(private_entry_types@);
    let mut aspects: Vec<EntryAspect> = Vec::new();
    let content_served: bool = match get_content_aspect(entry_address, state, private_entry_types)
    {
        Ok(asp) => {
            aspects.push(asp);
            true
        },
        Err(_) => false,
    };
    proof {
        assert(content_served == content_available(*state, a, privates));
    }
    match get_meta_aspects(entry_address, state) {
        Ok(mut metas) => {
            let ghost metas_before = metas@;
            aspects.append(&mut metas);
            proof {
                if content_served {
                    assert(aspects@.skip(1) =~= metas_before);
                } else {
                    assert(aspects@ =~= metas_before);
                }
                lemma_fetch_transition_from_parts(
                    *state,
                    a,
                    privates,
                    aspects@,
                    metas_before,
                    content_served,
                    true,
                );
            }
            aspects
        },
        Err(_) => {
            // A failed meta resolution is only logged: the response
            // carries what could be served.
            proof {
                assert(!metas_available(*state, a));
                if content_served {
                    assert(aspects@.skip(1) =~= Seq::<EntryAspect>::empty());
                }
                lemma_fetch_transition_from_parts(
                    *state,
                    a,
                    privates,
                    aspects@,
                    Seq::empty(),
                    content_served,
                    false,
                );
            }
            aspects
        },
    }
}

/// True when a list element holds the address.
fn vec_contains_address(v: &Vec<Address>, a: &Address) -> (r: bool)
    ensures
        r == exists|i: int| 0 <= i < v@.len() && #[trigger] v@[i]@ == a@,
{
    let mut i: usize = 0;
    while i < v.len()
        invariant
            i <= v@.len(),
            forall|j: int| 0 <= j < i ==> v@[j]@ != a@,
        decreases v@.len() - i,
    {
        if address_eq(&v[i], a) {
            return true;
        }
        i = i + 1;
    }
    false
}

/// Some header of the index is recorded under this address.
pub open spec fn is_held_address(a: Address, hs: Seq<(Seq<char>, ChainHeaderV)>) -> bool {
    exists|j: int| 0 <= j < hs.len() && #[trigger] hs[j].0 == a@
}

/// The address text occurs in the list.
pub open spec fn address_listed(a: Seq<char>, r: Seq<Address>) -> bool {
    exists|i: int| 0 <= i < r.len() && #[trigger] r[i]@ == a
}

/// A duplicate-free enumeration of exactly the addresses the header
/// index holds.
pub open spec fn held_address_list(r: Seq<Address>, hs: Seq<(Seq<char>, ChainHeaderV)>) -> bool {
    &&& forall|i: int, j: int| 0 <= i < j < r.len() ==> r[i]@ != r[j]@
    &&& forall|i: int| 0 <= i < r.len() ==> is_held_address(#[trigger] r[i], hs)
    &&& forall|j: int| #![trigger hs[j]] 0 <= j < hs.len() ==> address_listed(hs[j].0, r)
}

/// The addresses this node holds headers for: what it can author or
/// gossip.  Each held address exactly once.
pub fn held_addresses(state: &NodeState) -> (r: Vec<Address>)
    ensures
        held_address_list(r@, headers_view(state.headers@)),
{
    let mut out: Vec<Address> = Vec::new();
    let ghost mut jwit: Seq<int> = Seq::empty();
    let mut i: usize = 0;
    while i < state.headers.len()
        invariant
            i <= state.headers@.len(),
            jwit.len() == out@.len(),
            forall|k1: int, k2: int| 0 <= k1 < k2 < out@.len() ==> out@[k1]@ != out@[k2]@,
            forall|k: int|
                0 <= k < out@.len() ==> 0 <= #[trigger] jwit[k] < state.headers@.len()
                    && out@[k]@ == headers_view(state.headers@)[jwit[k]].0,
            forall|j: int| #![trigger headers_view(state.headers@)[j]]
                0 <= j < i ==> exists|k: int|
                    0 <= k < out@.len() && #[trigger] out@[k]@ == headers_view(
                        state.headers@,
                    )[j].0,
        decreases state.headers@.len() - i,
    {
        let a = &state.headers[i].0;
        let ghost out_before = out@;
        if !vec_contains_address(&out, a) {
            out.push(a.clone());
            proof {
                jwit = jwit.push(i as int);
                assert(out@[out@.len() - 1]@ == state.headers@[i as int].0@);
                assert(headers_view(state.headers@)[i as int].0 == state.headers@[i as int].0@);
            }
        }
        proof {
            assert(headers_view(state.headers@)[i as int].0 == state.headers@[i as int].0@);
            assert(exists|k: int|
                0 <= k < out@.len() && #[trigger] out@[k]@ == state.headers@[i as int].0@);
            assert forall|j: int| #![trigger headers_view(state.headers@)[j]]
                0 <= j <= i implies exists|k: int|
                    0 <= k < out@.len() && #[trigger] out@[k]@ == headers_view(
                        state.headers@,
                    )[j].0 by {
                if j < i {
                    let k = choose|k: int|
                        0 <= k < out_before.len() && #[trigger] out_before[k]@ == headers_view(
                            state.headers@,
                        )[j].0;
                    assert(out@[k]@ == out_before[k]@);
                } else {
                    assert(headers_view(state.headers@)[j].0 == state.headers@[i as int].0@);
                }
            }
        }
        i = i + 1;
    }
    proof {
        assert forall|k: int|
            0 <= k < out@.len() implies is_held_address(#[trigger] out@[k], headers_view(
                state.headers@,
            )) by {
            assert(0 <= jwit[k] < state.headers@.len() && out@[k]@ == headers_view(
                state.headers@,
            )[jwit[k]].0);
        }
        assert forall|j: int| #![trigger headers_view(state.headers@)[j]]
            0 <= j < state.headers@.len() implies address_listed(
            headers_view(state.headers@)[j].0,
            out@,
        ) by {
            assert(0 <= j < i);
            assert(headers_view(state.headers@)[j].0 == state.headers@[j].0@);
            let k = choose|k: int|
                0 <= k < out@.len() && #[trigger] out@[k]@ == headers_view(
                    state.headers@,
                )[j].0;
            assert(address_listed(headers_view(state.headers@)[j].0, out@));
        }
        assert(held_address_list(out@, headers_view(state.headers@)));
    }
    out
}

/// True when the message's space is this node's own DNA.
pub fn is_my_dna(my_dna_address: &Address, dna_address: &Address) -> (r: bool)
    ensures
        r == (my_dna_address@ == dna_address@),
{
    address_eq(my_dna_address, dna_address)
}

/// True when the message is addressed to this agent: an empty agent id
/// counts as addressed to everyone.
pub fn is_my_id(my_agent_id: &String, agent_id: &String) -> (r: bool)
    ensures
        r == (agent_id@ == Seq::<char>::empty() || my_agent_id@ == agent_id@),
{
    if agent_id.as_str().unicode_len() != 0 && !(*my_agent_id == *agent_id) {
        return false;
    }
    proof {
        if agent_id@.len() == 0 {
            assert(agent_id@ =~= Seq::<char>::empty());
        }
    }
    true
}

/// What the router resolves an inbound message to: silently dropped,
/// a local storage effect, a response to send back, or a hand-off to a
/// collaborator this core only names.
#[derive(Debug, PartialEq, Eq)]
pub enum HandlerOutcome {
    Dropped,
    Noop,
    LoggedFailure(GenericResultData),
    UnexpectedFetchResult(FetchEntryResultData),
    Stored(Result<(), HolochainError>),
    FetchResponse(FetchEntryData, Vec<EntryAspect>),
    QueryResponse(QueryEntryData, Vec<EntryAspect>),
    DeliverQueryResult(QueryEntryResultData),
    DirectMessageToSelf(DirectMessageData),
    DirectMessageResultToSelf(DirectMessageData),
    AuthoringList(GetListData, Vec<Address>),
    GossipList(GetListData, Vec<Address>),
}

/// The per-node router: it holds this node's space and identity and
/// classifies every inbound message against them before any handler
/// runs.
pub struct NetHandler {
    my_dna_address: Address,
    agent_id: String,
    private_entry_types: Vec<String>,
}

impl NetHandler {
    /// This node's space identifier.
    pub closed spec fn dna_spec(&self) -> Seq<char> {
        self.my_dna_address@
    }

    /// This node's agent identity.
    pub closed spec fn agent_spec(&self) -> Seq<char> {
        self.agent_id@
    }

    /// The entry types this node must not publish.
    pub closed spec fn privates_spec(&self) -> Seq<Seq<char>> {
        seq_str_view(self.private_entry_types@)
    }
}

/// Builds the router for one running node, given the node's DNA
/// address, its agent identity, and the entry types its DNA marks
/// private.
pub fn create_handler(
    my_dna_address: &Address,
    agent_id: &String,
    private_entry_types: &Vec<String>,
) -> (r: NetHandler)
    ensures
        r.dna_spec() == my_dna_address@,
        r.agent_spec() == agent_id@,
        r.privates_spec() == seq_str_view(private_entry_types@),
{
    let mut privates: Vec<String> = Vec::new();
    let mut i: usize = 0;
    while i < private_entry_types.len()
        invariant
            i <= private_entry_types@.len(),
            privates@.len() == i,
            forall|j: int| 0 <= j < i ==> privates@[j]@ == private_entry_types@[j]@,
        decreases private_entry_types@.len() - i,
    {
        privates.push(private_entry_types[i].clone());
        i = i + 1;
    }
    proof {
        assert(seq_str_view(privates@) =~= seq_str_view(private_entry_types@));
    }
    NetHandler {
        my_dna_address: my_dna_address.clone(),
        agent_id: agent_id.clone(),
        private_entry_types: privates,
    }
}

impl NetHandler {
    /// Routes one inbound message: undecodable input and messages for
    /// another space or another agent are dropped silently and change
    /// nothing; the rest dispatch by kind to the store, fetch, query,
    /// list and pass-through handlers.
    pub fn handle(&self, state: &mut NodeState, message: Option<Lib3hServerProtocol>) -> (r:
        HandlerOutcome)
        requires
            old(state).wf(),
        ensures
            final(state).wf(),
            message is None ==> r is Dropped && *final(state) == *old(state),
            (message matches Some(Lib3hServerProtocol::FailureResult(d)) ==> if d.space_address@
                != self.dna_spec() {
                r is Dropped && *final(state) == *old(state)
            } else {
                r == HandlerOutcome::LoggedFailure(d) && *final(state) == *old(state)
            }),
            (message matches Some(Lib3hServerProtocol::Connected(_)) ==> r is Noop && *final(state)
                == *old(state)),
            (message matches Some(Lib3hServerProtocol::HandleStoreEntryAspect(d)) ==> if d
                .space_address@ != self.dna_spec() {
                r is Dropped && *final(state) == *old(state)
            } else {
                r matches HandlerOutcome::Stored(res) && store_transition(
                    *old(state),
                    *final(state),
                    d,
                    res,
                )
            }),
            (message matches Some(Lib3hServerProtocol::HandleFetchEntry(d)) ==> if d.space_address@
                != self.dna_spec() {
                r is Dropped && *final(state) == *old(state)
            } else {
                *final(state) == *old(state) && (r matches HandlerOutcome::FetchResponse(fd, aspects)
                    && fd == d && fetch_transition(
                    *old(state),
                    d.entry_address@,
                    self.privates_spec(),
                    aspects@,
                ))
            }),
            (message matches Some(Lib3hServerProtocol::FetchEntryResult(d)) ==> if d.space_address@
                != self.dna_spec() {
                r is Dropped && *final(state) == *old(state)
            } else {
                r == HandlerOutcome::UnexpectedFetchResult(d) && *final(state) == *old(state)
            }),
            (message matches Some(Lib3hServerProtocol::HandleQueryEntry(d)) ==> if d.space_address@
                != self.dna_spec() {
                r is Dropped && *final(state) == *old(state)
            } else {
                *final(state) == *old(state) && (r matches HandlerOutcome::QueryResponse(qd, aspects)
                    && qd == d && fetch_transition(
                    *old(state),
                    d.entry_address@,
                    self.privates_spec(),
                    aspects@,
                ))
            }),
            (message matches Some(Lib3hServerProtocol::QueryEntryResult(d)) ==> if d.space_address@
                != self.dna_spec() || !(d.requester_agent_id@ == Seq::<char>::empty()
                || self.agent_spec() == d.requester_agent_id@) {
                r is Dropped && *final(state) == *old(state)
            } else {
                r == HandlerOutcome::DeliverQueryResult(d) && *final(state) == *old(state)
            }),
            (message matches Some(Lib3hServerProtocol::HandleSendDirectMessage(d)) ==> if d
                .space_address@ != self.dna_spec() || !(d.to_agent_id@ == Seq::<char>::empty()
                || self.agent_spec() == d.to_agent_id@) {
                r is Dropped && *final(state) == *old(state)
            } else {
                r == HandlerOutcome::DirectMessageToSelf(d) && *final(state) == *old(state)
            }),
            (message matches Some(Lib3hServerProtocol::SendDirectMessageResult(d)) ==> if d
                .space_address@ != self.dna_spec() || !(d.to_agent_id@ == Seq::<char>::empty()
                || self.agent_spec() == d.to_agent_id@) {
                r is Dropped && *final(state) == *old(state)
            } else {
                r == HandlerOutcome::DirectMessageResultToSelf(d) && *final(state) == *old(state)
            }),
            (message matches Some(Lib3hServerProtocol::HandleGetAuthoringEntryList(d)) ==> if d
                .space_address@ != self.dna_spec() || !(d.provider_agent_id@ == Seq::<
                char,
            >::empty() || self.agent_spec() == d.provider_agent_id@) {
                r is Dropped && *final(state) == *old(state)
            } else {
                r matches HandlerOutcome::AuthoringList(gd, addrs) && gd == d
                    && held_address_list(addrs@, headers_view(old(state).headers@))
                    && *final(state) == *old(state)
            }),
            (message matches Some(Lib3hServerProtocol::HandleGetGossipingEntryList(d)) ==> if d
                .space_address@ != self.dna_spec() || !(d.provider_agent_id@ == Seq::<
                char,
            >::empty() || self.agent_spec() == d.provider_agent_id@) {
                r is Dropped && *final(state) == *old(state)
            } else {
                r matches HandlerOutcome::GossipList(gd, addrs) && gd == d
                    && held_address_list(addrs@, headers_view(old(state).headers@))
                    && *final(state) == *old(state)
            }),
    {
        let message = match message {
            Some(m) => m,
            None => {
                return HandlerOutcome::Dropped;
            },
        };
        match message {
            Lib3hServerProtocol::FailureResult(d) => {
                if !is_my_dna(&self.my_dna_address, &d.space_address) {
                    return HandlerOutcome::Dropped;
                }
                HandlerOutcome::LoggedFailure(d)
            },
            Lib3hServerProtocol::Connected(_) => HandlerOutcome::Noop,
            Lib3hServerProtocol::HandleStoreEntryAspect(d) => {
                if !is_my_dna(&self.my_dna_address, &d.space_address) {
                    return HandlerOutcome::Dropped;
                }
                let res = handle_store(&d, state);
                HandlerOutcome::Stored(res)
            },
            Lib3hServerProtocol::HandleFetchEntry(d) => {
                if !is_my_dna(&self.my_dna_address, &d.space_address) {
                    return HandlerOutcome::Dropped;
                }
                let aspects = aggregate_aspects(&d.entry_address, state, &self.private_entry_types);
                HandlerOutcome::FetchResponse(d, aspects)
            },
            Lib3hServerProtocol::FetchEntryResult(d) => {
                if !is_my_dna(&self.my_dna_address, &d.space_address) {
                    return HandlerOutcome::Dropped;
                }
                HandlerOutcome::UnexpectedFetchResult(d)
            },
            Lib3hServerProtocol::HandleQueryEntry(d) => {
                if !is_my_dna(&self.my_dna_address, &d.space_address) {
                    return HandlerOutcome::Dropped;
                }
                let aspects = aggregate_aspects(&d.entry_address, state, &self.private_entry_types);
                HandlerOutcome::QueryResponse(d, aspects)
            },
            Lib3hServerProtocol::QueryEntryResult(d) => {
                if !is_my_dna(&self.my_dna_address, &d.space_address) {
                    return HandlerOutcome::Dropped;
                }
                if !is_my_id(&self.agent_id, &d.requester_agent_id) {
                    return HandlerOutcome::Dropped;
                }
                HandlerOutcome::DeliverQueryResult(d)
            },
            Lib3hServerProtocol::HandleSendDirectMessage(d) => {
                if !is_my_dna(&self.my_dna_address, &d.space_address) {
                    return HandlerOutcome::Dropped;
                }
                if !is_my_id(&self.agent_id, &d.to_agent_id) {
                    return HandlerOutcome::Dropped;
                }
                HandlerOutcome::DirectMessageToSelf(d)
            },
            Lib3hServerProtocol::SendDirectMessageResult(d) => {
                if !is_my_dna(&self.my_dna_address, &d.space_address) {
                    return HandlerOutcome::Dropped;
                }
                if !is_my_id(&self.agent_id, &d.to_agent_id) {
                    return HandlerOutcome::Dropped;
                }
                HandlerOutcome::DirectMessageResultToSelf(d)
            },
            Lib3hServerProtocol::HandleGetAuthoringEntryList(d) => {
                if !is_my_dna(&self.my_dna_address, &d.space_address) {
                    return HandlerOutcome::Dropped;
                }
                if !is_my_id(&self.agent_id, &d.provider_agent_id) {
                    return HandlerOutcome::Dropped;
                }
                let addresses = held_addresses(state);
                HandlerOutcome::AuthoringList(d, addresses)
            },
            Lib3hServerProtocol::HandleGetGossipingEntryList(d) => {
                if !is_my_dna(&self.my_dna_address, &d.space_address) {
                    return HandlerOutcome::Dropped;
                }
                if !is_my_id(&self.agent_id, &d.provider_agent_id) {
                    return HandlerOutcome::Dropped;
                }
                let addresses = held_addresses(state);
                HandlerOutcome::GossipList(d, addresses)
            },
        }
    }
}

} // verus!
