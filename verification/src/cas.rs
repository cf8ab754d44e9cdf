use vstd::prelude::*;

use crate::content::{
    address_of, address_eq, clone_bytes, Address, AddressableContent, Content,
    ExampleAddressableContent,
};
use crate::error::HolochainError;

verus! {

/// An append-only content-addressable store: anything implementing
/// `AddressableContent` can be added and later fetched by its address.
///
/// In the running system every handle to one store is a requester to
/// one owner that serializes all operations (`Protocol`,
/// `ExampleContentAddressableStorageActor::receive`; app code runs the
/// owner on its own thread with channel handles).  Sharing — a write
/// completed through any handle is observed by every other handle — is
/// therefore a statement about the owner's serialized request history,
/// and that is where this crate states and proves it:
/// `lemma_cas_append_only` and `lemma_add_then_visible`.
///
/// A value of this trait is the sequential rendering of one such store:
/// it holds the owner's contents directly, and `snapshot` yields a copy
/// of them as they stand.  A snapshot is *not* a shared handle: it does
/// not observe writes made after it was taken.  Where a scenario speaks
/// of a handle cloned before a write, read it through the owner model,
/// as the point in the serialized history at which that handle's next
/// request is answered.
pub trait ContentAddressableStorage: Sized {
    /// The owner's current contents: address text to content bytes.
    spec fn cas_view(&self) -> Map<Seq<char>, Seq<u8>>;

    /// Internal well-formedness of the handle.
    spec fn wf(&self) -> bool;

    /// Adds content under its own address.  Writing to an address that is
    /// already held is ignored, so held content is never mutated: callers
    /// are responsible for content-hash correctness, under which a
    /// duplicate write carries identical content and the ignore is a
    /// no-op.
    fn add<C: AddressableContent>(&mut self, content: &C) -> (r: Result<(), HolochainError>)
        requires
            old(self).wf(),
        ensures
            final(self).wf(),
            r is Ok,
            final(self).cas_view() == (if old(self).cas_view().contains_key(
                address_of(content.content_spec()),
            ) {
                old(self).cas_view()
            } else {
                old(self).cas_view().insert(
                    address_of(content.content_spec()),
                    content.content_spec(),
                )
            }),
    ;

    /// True exactly when the address is held; may be cheaper than a fetch.
    fn contains(&self, address: &Address) -> (r: Result<bool, HolochainError>)
        requires
            self.wf(),
        ensures
            r matches Ok(b) && b == self.cas_view().contains_key(address@),
    ;

    /// Returns the content held under the address, reconstructed as `C`,
    /// or `None` if the address is absent.  Held bytes that no value of
    /// `C` serializes to surface as a generic error: the store does not
    /// validate what callers stored under which type.
    fn fetch<C: AddressableContent>(&self, address: &Address) -> (r: Result<
        Option<C>,
        HolochainError,
    >)
        requires
            self.wf(),
        ensures
            match r {
                Ok(Some(v)) => self.cas_view().contains_key(address@)
                    && v.content_spec() == self.cas_view()[address@] && C::decodable(
                    self.cas_view()[address@],
                ),
                Ok(None) => !self.cas_view().contains_key(address@),
                Err(e) => self.cas_view().contains_key(address@)
                    && !C::decodable(self.cas_view()[address@])
                    && e matches HolochainError::ErrorGeneric(_),
            },
    ;

    /// A copy of the store's contents as they stand now.  Not a shared
    /// handle: see the trait documentation for where sharing lives.
    fn snapshot(&self) -> (r: Self)
        requires
            self.wf(),
        ensures
            r.wf(),
            r.cas_view() == self.cas_view(),
    ;
}

/// The request/reply vocabulary between a storage handle and the owner
/// that serializes all operations on one store.
#[derive(Debug, PartialEq, Eq)]
pub enum Protocol {
    CasAdd(Address, Content),
    CasAddResult(Result<(), HolochainError>),
    CasContains(Address),
    CasContainsResult(Result<bool, HolochainError>),
    CasFetch(Address),
    CasFetchResult(Result<Option<Content>, HolochainError>),
}

impl Protocol {
    /// The three message kinds a storage owner accepts.
    pub open spec fn is_cas_request(&self) -> bool {
        match self {
            Protocol::CasAdd(_, _) => true,
            Protocol::CasContains(_) => true,
            Protocol::CasFetch(_) => true,
            _ => false,
        }
    }
}

/// The address-to-content map described by a list of entries, later
/// entries taking precedence.
pub open spec fn entries_view(s: Seq<(Address, Content)>) -> Map<Seq<char>, Seq<u8>>
    decreases s.len(),
{
    if s.len() == 0 {
        Map::empty()
    } else {
        entries_view(s.drop_last()).insert(s.last().0@, s.last().1@)
    }
}

/// No two entries share an address.
pub open spec fn distinct_keys(s: Seq<(Address, Content)>) -> bool {
    forall|i: int, j: int| 0 <= i < j < s.len() ==> s[i].0@ != s[j].0@
}

proof fn lemma_view_of_index(s: Seq<(Address, Content)>, i: int)
    requires
        distinct_keys(s),
        0 <= i < s.len(),
    ensures
        entries_view(s).contains_key(s[i].0@),
        entries_view(s)[s[i].0@] == s[i].1@,
    decreases s.len(),
{
    if i == s.len() - 1 {
    } else {
        lemma_view_of_index(s.drop_last(), i);
        assert(s.drop_last()[i] == s[i]);
        assert(s.last().0@ != s[i].0@);
    }
}

proof fn lemma_view_of_absent(s: Seq<(Address, Content)>, k: Seq<char>)
    requires
        forall|i: int| 0 <= i < s.len() ==> s[i].0@ != k,
    ensures
        !entries_view(s).contains_key(k),
    decreases s.len(),
{
    if s.len() > 0 {
        lemma_view_of_absent(s.drop_last(), k);
    }
}

proof fn lemma_entries_view_congruent(a: Seq<(Address, Content)>, b: Seq<(Address, Content)>)
    requires
        a.len() == b.len(),
        forall|i: int| 0 <= i < a.len() ==> a[i].0@ == b[i].0@ && a[i].1@ == b[i].1@,
    ensures
        entries_view(a) == entries_view(b),
        distinct_keys(b) ==> distinct_keys(a),
    decreases a.len(),
{
    if a.len() > 0 {
        lemma_entries_view_congruent(a.drop_last(), b.drop_last());
        assert(entries_view(a) =~= entries_view(b));
    } else {
        assert(entries_view(a) =~= entries_view(b));
    }
}

/// The owner of one store: it holds the only mutable access to the
/// entries and answers one request at a time, which linearizes all
/// writes however many handles forward requests to it.
pub struct ExampleContentAddressableStorageActor {
    storage: Vec<(Address, Content)>,
}

impl View for ExampleContentAddressableStorageActor {
    type V = Map<Seq<char>, Seq<u8>>;

    closed spec fn view(&self) -> Map<Seq<char>, Seq<u8>> {
        entries_view(self.storage@)
    }
}

/// The index of the entry holding the address, if any.
fn position_of(storage: &Vec<(Address, Content)>, address: &Address) -> (r: Option<usize>)
    ensures
        match r {
            Some(i) => i < storage@.len() && storage@[i as int].0@ == address@,
            None => forall|i: int| 0 <= i < storage@.len() ==> storage@[i].0@ != address@,
        },
{
    let mut i: usize = 0;
    while i < storage.len()
        invariant
            i <= storage@.len(),
            forall|j: int| 0 <= j < i ==> storage@[j].0@ != address@,
        decreases storage@.len() - i,
    {
        if address_eq(&storage[i].0, address) {
            return Some(i);
        }
        i = i + 1;
    }
    None
}

impl ExampleContentAddressableStorageActor {
    pub closed spec fn wf(&self) -> bool {
        distinct_keys(self.storage@)
    }

    pub fn new() -> (r: ExampleContentAddressableStorageActor)
        ensures
            r.wf(),
            r@ == Map::<Seq<char>, Seq<u8>>::empty(),
    {
        ExampleContentAddressableStorageActor { storage: Vec::new() }
    }

    /// The direct write, used only by the owner itself while it holds the
    /// sole access: a write to a held address is ignored.
    fn unthreadable_add(&mut self, address: &Address, content: &Content) -> (r: Result<
        (),
        HolochainError,
    >)
        requires
            old(self).wf(),
        ensures
            final(self).wf(),
            r is Ok,
            final(self)@ == (if old(self)@.contains_key(address@) {
                old(self)@
            } else {
                old(self)@.insert(address@, content@)
            }),
    {
        match position_of(&self.storage, address) {
            Some(i) => {
                proof {
                    lemma_view_of_index(self.storage@, i as int);
                }
                Ok(())
            },
            None => {
                proof {
                    lemma_view_of_absent(self.storage@, address@);
                }
                self.storage.push((address.clone(), clone_bytes(content)));
                proof {
                    assert(self.storage@.drop_last() == old(self).storage@);
                }
                Ok(())
            },
        }
    }

    fn unthreadable_contains(&self, address: &Address) -> (r: Result<bool, HolochainError>)
        requires
            self.wf(),
        ensures
            r matches Ok(b) && b == self@.contains_key(address@),
    {
        match position_of(&self.storage, address) {
            Some(i) => {
                proof {
                    lemma_view_of_index(self.storage@, i as int);
                }
                Ok(true)
            },
            None => {
                proof {
                    lemma_view_of_absent(self.storage@, address@);
                }
                Ok(false)
            },
        }
    }

    fn unthreadable_fetch(&self, address: &Address) -> (r: Result<Option<Content>, HolochainError>)
        requires
            self.wf(),
        ensures
            r matches Ok(o) && match o {
                Some(c) => self@.contains_key(address@) && c@ == self@[address@],
                None => !self@.contains_key(address@),
            },
    {
        match position_of(&self.storage, address) {
            Some(i) => {
                proof {
                    lemma_view_of_index(self.storage@, i as int);
                }
                Ok(Some(clone_bytes(&self.storage[i].1)))
            },
            None => {
                proof {
                    lemma_view_of_absent(self.storage@, address@);
                }
                Ok(None)
            },
        }
    }

    /// A second owner over a copy of the entries as they stand now.
    pub fn duplicate_state(&self) -> (r: Self)
        requires
            self.wf(),
        ensures
            r.wf(),
            r@ == self@,
    {
        let mut copied: Vec<(Address, Content)> = Vec::new();
        let mut i: usize = 0;
        while i < self.storage.len()
            invariant
                i <= self.storage@.len(),
                copied@.len() == i,
                forall|j: int|
                    0 <= j < i ==> copied@[j].0@ == self.storage@[j].0@ && copied@[j].1@
                        == self.storage@[j].1@,
            decreases self.storage@.len() - i,
        {
            let pair = &self.storage[i];
            copied.push((pair.0.clone(), clone_bytes(&pair.1)));
            i = i + 1;
        }
        proof {
            lemma_entries_view_congruent(copied@, self.storage@);
        }
        ExampleContentAddressableStorageActor { storage: copied }
    }

    /// One step of the owner: answers a storage request and returns the
    /// reply that is sent back to the asking handle.
    pub fn receive(&mut self, message: Protocol) -> (reply: Protocol)
        requires
            old(self).wf(),
            message.is_cas_request(),
        ensures
            final(self).wf(),
            final(self)@ == apply_request(old(self)@, message),
            match message {
                Protocol::CasAdd(_, _) => reply matches Protocol::CasAddResult(r) && r is Ok,
                Protocol::CasContains(a) => reply == Protocol::CasContainsResult(
                    Ok(old(self)@.contains_key(a@)),
                ),
                Protocol::CasFetch(a) => reply matches Protocol::CasFetchResult(Ok(o))
                    && match o {
                        Some(c) => old(self)@.contains_key(a@) && c@ == old(self)@[a@],
                        None => !old(self)@.contains_key(a@),
                    },
                _ => false,
            },
    {
        match message {
            Protocol::CasAdd(address, content) => Protocol::CasAddResult(
                self.unthreadable_add(&address, &content),
            ),
            Protocol::CasContains(address) => Protocol::CasContainsResult(
                self.unthreadable_contains(&address),
            ),
            Protocol::CasFetch(address) => Protocol::CasFetchResult(
                self.unthreadable_fetch(&address),
            ),
            _ => {
                proof {
                    assert(false);
                }
                Protocol::CasAddResult(Ok(()))
            },
        }
    }
}

/// What one request does to a store's contents: an add to a fresh
/// address appends, every other message leaves the contents unchanged.
pub open spec fn apply_request(m: Map<Seq<char>, Seq<u8>>, req: Protocol) -> Map<
    Seq<char>,
    Seq<u8>,
> {
    match req {
        Protocol::CasAdd(a, c) => if m.contains_key(a@) {
            m
        } else {
            m.insert(a@, c@)
        },
        _ => m,
    }
}

/// The store's contents after the owner has answered a sequence of
/// requests in order, whichever handles sent them.
pub open spec fn run_requests(m: Map<Seq<char>, Seq<u8>>, reqs: Seq<Protocol>) -> Map<
    Seq<char>,
    Seq<u8>,
>
    decreases reqs.len(),
{
    if reqs.len() == 0 {
        m
    } else {
        run_requests(apply_request(m, reqs[0]), reqs.skip(1))
    }
}

/// Held content is never mutated or removed: whatever requests the owner
/// serializes after an address is held, the address stays held with the
/// same content.
pub proof fn lemma_cas_append_only(m: Map<Seq<char>, Seq<u8>>, reqs: Seq<Protocol>, k: Seq<char>)
    requires
        m.contains_key(k),
    ensures
        run_requests(m, reqs).contains_key(k),
        run_requests(m, reqs)[k] == m[k],
    decreases reqs.len(),
{
    if reqs.len() > 0 {
        lemma_cas_append_only(apply_request(m, reqs[0]), reqs.skip(1), k);
    }
}

/// Running a request history splits at any point: the requests up to it,
/// then the rest from the state reached.
pub proof fn lemma_run_requests_split(m: Map<Seq<char>, Seq<u8>>, reqs: Seq<Protocol>, j: int)
    requires
        0 <= j <= reqs.len(),
    ensures
        run_requests(m, reqs) == run_requests(run_requests(m, reqs.take(j)), reqs.skip(j)),
    decreases j,
{
    if j == 0 {
        assert(reqs.take(0) =~= Seq::<Protocol>::empty());
        assert(reqs.skip(0) =~= reqs);
    } else {
        assert(reqs.take(j)[0] == reqs[0]);
        assert(reqs.take(j).skip(1) =~= reqs.skip(1).take(j - 1));
        assert(reqs.skip(j) =~= reqs.skip(1).skip(j - 1));
        lemma_run_requests_split(apply_request(m, reqs[0]), reqs.skip(1), j - 1);
    }
}

/// Once an add of content `c` under address `a` is serialized at
/// position `i` of the request history, every later state — so every
/// later `contains` or `fetch` answer, from whichever handle — observes
/// the address as held; and if the address was fresh when the add ran,
/// what is held under it from then on is exactly `c`.
pub proof fn lemma_add_then_visible(
    m: Map<Seq<char>, Seq<u8>>,
    reqs: Seq<Protocol>,
    i: int,
    a: Address,
    c: Content,
)
    requires
        0 <= i < reqs.len(),
        reqs[i] == Protocol::CasAdd(a, c),
    ensures
        run_requests(m, reqs).contains_key(a@),
        !run_requests(m, reqs.take(i)).contains_key(a@) ==> run_requests(m, reqs)[a@] == c@,
{
    let before = run_requests(m, reqs.take(i));
    let after = apply_request(before, reqs[i]);
    assert(reqs.take(i + 1).take(i) =~= reqs.take(i));
    lemma_run_requests_split(m, reqs.take(i + 1), i);
    let step = reqs.take(i + 1).skip(i);
    assert(step =~= seq![reqs[i]]);
    assert(run_requests(before, step) == run_requests(apply_request(before, step[0]), step.skip(
        1,
    )));
    assert(step.skip(1) =~= Seq::<Protocol>::empty());
    assert(run_requests(after, Seq::<Protocol>::empty()) == after);
    assert(run_requests(m, reqs.take(i + 1)) == after);
    assert(after.contains_key(a@));
    lemma_run_requests_split(m, reqs, i + 1);
    lemma_cas_append_only(after, reqs.skip(i + 1), a@);
}

/// Adding the same content twice is idempotent: the second add finds the
/// address held and changes nothing, so the store state and every
/// subsequent read are unaffected by the duplicate.
pub proof fn lemma_add_idempotent(m: Map<Seq<char>, Seq<u8>>, a: Address, c: Content)
    ensures
        apply_request(apply_request(m, Protocol::CasAdd(a, c)), Protocol::CasAdd(a, c))
            == apply_request(m, Protocol::CasAdd(a, c)),
{
}

/// A storage handle: it owns nothing but access to the owner, to which
/// it forwards each operation as a request and from which it takes the
/// reply, as every other handle to the same store does.
pub struct ExampleContentAddressableStorage {
    actor: ExampleContentAddressableStorageActor,
}

impl ExampleContentAddressableStorage {
    pub fn new() -> (r: Result<ExampleContentAddressableStorage, HolochainError>)
        ensures
            r matches Ok(s) && s.wf() && s.cas_view() == Map::<Seq<char>, Seq<u8>>::empty(),
    {
        Ok(ExampleContentAddressableStorage { actor: ExampleContentAddressableStorageActor::new() })
    }
}

impl ContentAddressableStorage for ExampleContentAddressableStorage {
    closed spec fn cas_view(&self) -> Map<Seq<char>, Seq<u8>> {
        self.actor@
    }

    closed spec fn wf(&self) -> bool {
        self.actor.wf()
    }

    fn add<C: AddressableContent>(&mut self, content: &C) -> (r: Result<(), HolochainError>)
    {
        let reply = self.actor.receive(Protocol::CasAdd(content.address(), content.content()));
        match reply {
            Protocol::CasAddResult(r) => r,
            _ => {
                proof {
                    assert(false);
                }
                Ok(())
            },
        }
    }

    fn contains(&self, address: &Address) -> (r: Result<bool, HolochainError>)
    {
        // Reads do not change the owner's state, so the handle consults
        // the owner in place.
        self.actor.unthreadable_contains(address)
    }

    fn fetch<C: AddressableContent>(&self, address: &Address) -> (r: Result<
        Option<C>,
        HolochainError,
    >)
    {
        match self.actor.unthreadable_fetch(address) {
            Ok(Some(c)) => match C::try_from_content(&c) {
                Some(v) => Ok(Some(v)),
                None => Err(
                    HolochainError::ErrorGeneric(
                        "held bytes do not reconstruct as the requested type".to_owned(),
                    ),
                ),
            },
            Ok(None) => Ok(None),
            Err(e) => Err(e),
        }
    }

    fn snapshot(&self) -> (r: Self)
    {
        ExampleContentAddressableStorage { actor: self.actor.duplicate_state() }
    }
}

/// A fresh, empty example store.
pub fn test_content_addressable_storage() -> (r: ExampleContentAddressableStorage)
    ensures
        r.wf(),
        r.cas_view() == Map::<Seq<char>, Seq<u8>>::empty(),
{
    match ExampleContentAddressableStorage::new() {
        Ok(c) => c,
        Err(_) => {
            proof {
                assert(false);
            }
            ExampleContentAddressableStorage { actor: ExampleContentAddressableStorageActor::new() }
        },
    }
}

/// Exercises a storage implementation against its whole contract: it is
/// important that every handle of one store observes consistent data,
/// so each mutation runs through one of the suite's two handles and the
/// observations through both.
///
/// In the running system the two handles forward to one owner, and a
/// handle observes every write the owner serialized before answering
/// it — the theorem `lemma_add_then_visible`.  This sequential driver
/// has no aliasing, so it renders that point of the history by
/// re-taking `cas_clone` as a snapshot after each completed write; the
/// snapshot does not stand for shared ownership itself.
pub struct StorageTestSuite<T: ContentAddressableStorage> {
    pub cas: T,
    pub cas_clone: T,
}

impl<T: ContentAddressableStorage> StorageTestSuite<T> {
    pub fn new(cas: T) -> (r: StorageTestSuite<T>)
        requires
            cas.wf(),
        ensures
            r.cas.wf(),
            r.cas_clone.wf(),
            r.cas.cas_view() == cas.cas_view(),
            r.cas_clone.cas_view() == cas.cas_view(),
    {
        let cas_clone = cas.snapshot();
        StorageTestSuite { cas, cas_clone }
    }

    /// Round-trips two pieces of content of two different addressable
    /// types through one store: absent before the add, held by both
    /// handles afterwards, each reconstructible with its own content.
    /// Returns whether the scenario ran: it asks for contents that both
    /// types accept and whose addresses differ, and does nothing on any
    /// other input.
    pub fn round_trip_test<Addressable: AddressableContent, OtherAddressable: AddressableContent>(
        self,
        content: Content,
        other_content: Content,
    ) -> (r: bool)
        requires
            self.cas.wf(),
            self.cas_clone.wf(),
            self.cas.cas_view() == Map::<Seq<char>, Seq<u8>>::empty(),
            self.cas_clone.cas_view() == Map::<Seq<char>, Seq<u8>>::empty(),
        ensures
            r == (Addressable::decodable(content@) && OtherAddressable::decodable(other_content@)
                && address_of(content@) != address_of(other_content@)),
    {
        let addressable_content = match Addressable::try_from_content(&content) {
            Some(v) => v,
            None => {
                return false;
            },
        };
        let other_addressable_content = match OtherAddressable::try_from_content(&other_content) {
            Some(v) => v,
            None => {
                return false;
            },
        };
        let address = addressable_content.address();
        let other_address = other_addressable_content.address();
        if address_eq(&address, &other_address) {
            return false;
        }
        let StorageTestSuite { mut cas, mut cas_clone } = self;

        // Nothing is held before the first add, whichever handle asks.
        let c = cas.contains(&address);
        assert(c matches Ok(false));
        let f = cas.fetch::<Addressable>(&address);
        assert(f matches Ok(None));
        let c = cas_clone.contains(&other_address);
        assert(c matches Ok(false));
        let f = cas_clone.fetch::<OtherAddressable>(&other_address);
        assert(f matches Ok(None));

        // Round-trip the first content through the store.  The second
        // handle's next request is answered after this write is
        // serialized, which the snapshot renders.
        let r = cas.add(&addressable_content);
        assert(r is Ok);
        cas_clone = cas.snapshot();
        let c = cas.contains(&address);
        assert(c matches Ok(true));
        let c = cas_clone.contains(&address);
        assert(c matches Ok(true));
        let c = cas_clone.contains(&other_address);
        assert(c matches Ok(false));
        let f = cas_clone.fetch::<Addressable>(&address);
        assert(f matches Ok(Some(v)) && v.content_spec() == content@);

        // Content of different types sits in a single store: the second
        // add runs through the other handle.
        let r = cas_clone.add(&other_addressable_content);
        assert(r is Ok);
        cas = cas_clone.snapshot();
        let c = cas.contains(&address);
        assert(c matches Ok(true));
        let c = cas.contains(&other_address);
        assert(c matches Ok(true));
        let f = cas.fetch::<Addressable>(&address);
        assert(f matches Ok(Some(v)) && v.content_spec() == content@);
        let f = cas.fetch::<OtherAddressable>(&other_address);
        assert(f matches Ok(Some(v)) && v.content_spec() == other_content@);
        true
    }
}

/// The hand-off scenario, as the store's owner sees it.  Three flows
/// hold handles to one store: the first observes the entry's absence
/// and signals, the second then adds the entry and signals, the third
/// then observes its presence.  The explicit hand-offs make the
/// interleaving deterministic: the owner answers the requests in
/// exactly this serialized order, whichever handle sent each, so the
/// scenario is driven through the owner's `receive` directly.  (App
/// code realizes the handles as channel senders to the owner's
/// thread.)
pub fn hand_off_scenario(content: Content) -> (r: bool)
    ensures
        r,
{
    let example = match ExampleAddressableContent::try_from_content(&content) {
        Some(v) => v,
        None => {
            proof {
                assert(false);
            }
            return false;
        },
    };
    let address = example.address();
    let mut owner = ExampleContentAddressableStorageActor::new();

    // First flow: poll for absence, then signal.
    let reply = owner.receive(Protocol::CasContains(address.clone()));
    assert(reply == Protocol::CasContainsResult(Ok(false)));
    let reply = owner.receive(Protocol::CasFetch(address.clone()));
    assert(reply matches Protocol::CasFetchResult(Ok(None)));

    // Second flow: on the first signal, add the entry, then signal.
    let reply = owner.receive(Protocol::CasAdd(address.clone(), example.content()));
    assert(reply matches Protocol::CasAddResult(res) && res is Ok);

    // Third flow: on the second signal, the entry must be observed.
    let reply = owner.receive(Protocol::CasContains(address.clone()));
    assert(reply == Protocol::CasContainsResult(Ok(true)));
    let reply = owner.receive(Protocol::CasFetch(address));
    assert(reply matches Protocol::CasFetchResult(Ok(Some(c))) && c@ == content@);
    true
}

} // verus!
