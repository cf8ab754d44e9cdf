use vstd::prelude::*;

use crate::codec::{
    bytes_eq, dec_str, dec_u64, enc_str, enc_u64, decode_string, decode_u64, encode_string,
    encode_u64, lemma_dec_enc_str, lemma_dec_enc_u64, str_fits,
};
use crate::content::{compute_address, Address, AddressableContent, Content};

verus! {

/// The kind of an entry.  Application entries carry the type name their
/// DNA declares; the system kinds here are the ones this core routes.
#[derive(Debug, PartialEq, Eq)]
pub enum EntryType {
    Dna,
    App(String),
    LinkAdd,
    LinkRemove,
    Deletion,
}

/// The mathematical value of an `EntryType`.
pub enum EntryTypeV {
    Dna,
    App(Seq<char>),
    LinkAdd,
    LinkRemove,
    Deletion,
}

impl View for EntryType {
    type V = EntryTypeV;

    open spec fn view(&self) -> EntryTypeV {
        match self {
            EntryType::Dna => EntryTypeV::Dna,
            EntryType::App(s) => EntryTypeV::App(s@),
            EntryType::LinkAdd => EntryTypeV::LinkAdd,
            EntryType::LinkRemove => EntryTypeV::LinkRemove,
            EntryType::Deletion => EntryTypeV::Deletion,
        }
    }
}

impl Clone for EntryType {
    fn clone(&self) -> (r: Self)
        ensures
            r@ == self@,
    {
        match self {
            EntryType::Dna => EntryType::Dna,
            EntryType::App(s) => EntryType::App(s.clone()),
            EntryType::LinkAdd => EntryType::LinkAdd,
            EntryType::LinkRemove => EntryType::LinkRemove,
            EntryType::Deletion => EntryType::Deletion,
        }
    }
}

/// Which entry types may be published to the network: a DNA entry never
/// leaves the node, an application entry only if its type is not marked
/// private, and the system meta kinds always.
pub open spec fn can_publish_spec(t: EntryTypeV, private_types: Seq<Seq<char>>) -> bool {
    match t {
        EntryTypeV::Dna => false,
        EntryTypeV::App(name) => !private_types.contains(name),
        _ => true,
    }
}

impl EntryType {
    /// The capability check consulted before a content aspect is built.
    pub fn can_publish(&self, private_types: &Vec<String>) -> (r: bool)
        ensures
            r == can_publish_spec(self@, seq_str_view(private_types@)),
    {
        match self {
            EntryType::Dna => false,
            EntryType::App(name) => {
                let mut i: usize = 0;
                while i < private_types.len()
                    invariant
                        self@ == EntryTypeV::App(name@),
                        i <= private_types@.len(),
                        forall|j: int|
                            0 <= j < i ==> seq_str_view(private_types@)[j] != name@,
                    decreases private_types@.len() - i,
                {
                    if private_types[i] == *name {
                        proof {
                            assert(private_types@[i as int]@ == name@);
                            assert(seq_str_view(private_types@)[i as int] == name@);
                            assert(seq_str_view(private_types@).contains(name@));
                            assert(!can_publish_spec(
                                EntryTypeV::App(name@),
                                seq_str_view(private_types@),
                            ));
                        }
                        return false;
                    }
                    i = i + 1;
                }
                proof {
                    if seq_str_view(private_types@).contains(name@) {
                        let j = choose|j: int|
                            0 <= j < seq_str_view(private_types@).len() && seq_str_view(
                                private_types@,
                            )[j] == name@;
                    }
                }
                true
            },
            _ => true,
        }
    }
}

/// The views of a list of strings.
pub open spec fn seq_str_view(s: Seq<String>) -> Seq<Seq<char>> {
    Seq::new(s.len(), |i: int| s[i]@)
}

/// The views of a list of addresses.
pub open spec fn seq_addr_view(s: Seq<Address>) -> Seq<Seq<char>> {
    Seq::new(s.len(), |i: int| s[i]@)
}

/// The canonical record of a link: base and target address, link type,
/// and tag.
#[derive(Debug, PartialEq, Eq)]
pub struct LinkData {
    pub base: Address,
    pub target: Address,
    pub link_type: String,
    pub tag: String,
}

/// The mathematical value of a `LinkData`.
pub struct LinkDataV {
    pub base: Seq<char>,
    pub target: Seq<char>,
    pub link_type: Seq<char>,
    pub tag: Seq<char>,
}

impl View for LinkData {
    type V = LinkDataV;

    open spec fn view(&self) -> LinkDataV {
        LinkDataV {
            base: self.base@,
            target: self.target@,
            link_type: self.link_type@,
            tag: self.tag@,
        }
    }
}

impl Clone for LinkData {
    fn clone(&self) -> (r: Self)
        ensures
            r@ == self@,
    {
        LinkData {
            base: self.base.clone(),
            target: self.target.clone(),
            link_type: self.link_type.clone(),
            tag: self.tag.clone(),
        }
    }
}

impl LinkData {
    pub fn new(base: &Address, target: &Address, link_type: &str, tag: &str) -> (r: Self)
        ensures
            r@ == (LinkDataV {
                base: base@,
                target: target@,
                link_type: link_type@,
                tag: tag@,
            }),
    {
        LinkData {
            base: base.clone(),
            target: target.clone(),
            link_type: link_type.to_owned(),
            tag: tag.to_owned(),
        }
    }
}

/// An entry: the unit of content this core stores and routes.  The
/// kinds beyond application content are the meta entries the aggregator
/// reconstructs aspects from.
#[derive(Debug, PartialEq, Eq)]
pub enum Entry {
    App(String, String),
    Dna,
    LinkAdd(LinkData),
    LinkRemove(LinkData, Vec<Address>),
    Deletion(Address),
}

/// The mathematical value of an `Entry`.
pub enum EntryV {
    App(Seq<char>, Seq<char>),
    Dna,
    LinkAdd(LinkDataV),
    LinkRemove(LinkDataV, Seq<Seq<char>>),
    Deletion(Seq<char>),
}

impl View for Entry {
    type V = EntryV;

    open spec fn view(&self) -> EntryV {
        match self {
            Entry::App(t, v) => EntryV::App(t@, v@),
            Entry::Dna => EntryV::Dna,
            Entry::LinkAdd(l) => EntryV::LinkAdd(l@),
            Entry::LinkRemove(l, addrs) => EntryV::LinkRemove(l@, seq_addr_view(addrs@)),
            Entry::Deletion(a) => EntryV::Deletion(a@),
        }
    }
}

/// A copy of a list of addresses, with the same views.
pub fn clone_addresses(v: &Vec<Address>) -> (r: Vec<Address>)
    ensures
        seq_addr_view(r@) == seq_addr_view(v@),
        r@.len() == v@.len(),
{
    let mut r: Vec<Address> = Vec::new();
    let mut i: usize = 0;
    while i < v.len()
        invariant
            i <= v@.len(),
            r@.len() == i,
            forall|j: int| 0 <= j < i ==> r@[j]@ == v@[j]@,
        decreases v@.len() - i,
    {
        r.push(v[i].clone());
        i = i + 1;
    }
    proof {
        assert(seq_addr_view(r@) =~= seq_addr_view(v@));
    }
    r
}

impl Clone for Entry {
    fn clone(&self) -> (r: Self)
        ensures
            r@ == self@,
    {
        match self {
            Entry::App(t, v) => Entry::App(t.clone(), v.clone()),
            Entry::Dna => Entry::Dna,
            Entry::LinkAdd(l) => Entry::LinkAdd(l.clone()),
            Entry::LinkRemove(l, addrs) => Entry::LinkRemove(l.clone(), clone_addresses(addrs)),
            Entry::Deletion(a) => Entry::Deletion(a.clone()),
        }
    }
}

/// The kind of an entry value.
pub open spec fn entry_type_of(e: EntryV) -> EntryTypeV {
    match e {
        EntryV::App(t, _) => EntryTypeV::App(t),
        EntryV::Dna => EntryTypeV::Dna,
        EntryV::LinkAdd(_) => EntryTypeV::LinkAdd,
        EntryV::LinkRemove(_, _) => EntryTypeV::LinkRemove,
        EntryV::Deletion(_) => EntryTypeV::Deletion,
    }
}

impl Entry {
    /// The entry's kind.
    pub fn entry_type(&self) -> (r: EntryType)
        ensures
            r@ == entry_type_of(self@),
    {
        match self {
            Entry::App(t, _) => EntryType::App(t.clone()),
            Entry::Dna => EntryType::Dna,
            Entry::LinkAdd(_) => EntryType::LinkAdd,
            Entry::LinkRemove(_, _) => EntryType::LinkRemove,
            Entry::Deletion(_) => EntryType::Deletion,
        }
    }
}

/// Provenance of an entry: its kind, its address, the time it was
/// committed, and — for updates and deletions — the address of the
/// entry acted on.
#[derive(Debug, PartialEq, Eq)]
pub struct ChainHeader {
    entry_type: EntryType,
    entry_address: Address,
    timestamp: String,
    link_update_delete: Option<Address>,
}

/// The mathematical value of a `ChainHeader`.
pub struct ChainHeaderV {
    pub entry_type: EntryTypeV,
    pub entry_address: Seq<char>,
    pub timestamp: Seq<char>,
    pub link_update_delete: Option<Seq<char>>,
}

impl View for ChainHeader {
    type V = ChainHeaderV;

    closed spec fn view(&self) -> ChainHeaderV {
        ChainHeaderV {
            entry_type: self.entry_type@,
            entry_address: self.entry_address@,
            timestamp: self.timestamp@,
            link_update_delete: match self.link_update_delete {
                Some(a) => Some(a@),
                None => None,
            },
        }
    }
}

impl Clone for ChainHeader {
    fn clone(&self) -> (r: Self)
        ensures
            r@ == self@,
    {
        ChainHeader {
            entry_type: self.entry_type.clone(),
            entry_address: self.entry_address.clone(),
            timestamp: self.timestamp.clone(),
            link_update_delete: match &self.link_update_delete {
                Some(a) => Some(a.clone()),
                None => None,
            },
        }
    }
}

impl ChainHeader {
    /// A header for an entry, carrying an RFC 3339 timestamp and, for
    /// updates and deletions, the address of the entry acted on.
    pub fn new(
        entry_type: &EntryType,
        entry_address: &Address,
        timestamp: &str,
        link_update_delete: &Option<Address>,
    ) -> (r: Self)
        ensures
            r@ == (ChainHeaderV {
                entry_type: entry_type@,
                entry_address: entry_address@,
                timestamp: timestamp@,
                link_update_delete: match link_update_delete {
                    Some(a) => Some(a@),
                    None => None,
                },
            }),
    {
        ChainHeader {
            entry_type: entry_type.clone(),
            entry_address: entry_address.clone(),
            timestamp: timestamp.to_owned(),
            link_update_delete: match link_update_delete {
                Some(a) => Some(a.clone()),
                None => None,
            },
        }
    }

    /// The kind of the entry this header belongs to.
    pub fn entry_type(&self) -> (r: EntryType)
        ensures
            r@ == self@.entry_type,
    {
        self.entry_type.clone()
    }

    /// The address of the entry this header belongs to.
    pub fn entry_address(&self) -> (r: Address)
        ensures
            r@ == self@.entry_address,
    {
        self.entry_address.clone()
    }

    /// The commit time, as RFC 3339 text.
    pub fn timestamp(&self) -> (r: String)
        ensures
            r@ == self@.timestamp,
    {
        self.timestamp.clone()
    }

    /// The address of the entry updated or deleted, if any.
    pub fn link_update_delete(&self) -> (r: Option<Address>)
        ensures
            match r {
                Some(a) => self@.link_update_delete matches Some(v) && a@ == v,
                None => self@.link_update_delete is None,
            },
    {
        match &self.link_update_delete {
            Some(a) => Some(a.clone()),
            None => None,
        }
    }
}

// ---------------------------------------------------------------------
// The wire codec of the entry model.  Every value is written as tagged,
// length-prefixed fields, so one reading is possible and reading back an
// encoding yields the value written.
// ---------------------------------------------------------------------

/// The wire form of an entry kind.
pub open spec fn enc_entry_type(t: EntryTypeV) -> Seq<u8> {
    match t {
        EntryTypeV::Dna => enc_u64(0),
        EntryTypeV::App(s) => enc_u64(1) + enc_str(s),
        EntryTypeV::LinkAdd => enc_u64(2),
        EntryTypeV::LinkRemove => enc_u64(3),
        EntryTypeV::Deletion => enc_u64(4),
    }
}

/// Reading an entry kind.
pub open spec fn dec_entry_type(b: Seq<u8>) -> Option<(EntryTypeV, Seq<u8>)> {
    match dec_u64(b) {
        Some((tag, rest)) => if tag == 0 {
            Some((EntryTypeV::Dna, rest))
        } else if tag == 1 {
            match dec_str(rest) {
                Some((s, r2)) => Some((EntryTypeV::App(s), r2)),
                None => None,
            }
        } else if tag == 2 {
            Some((EntryTypeV::LinkAdd, rest))
        } else if tag == 3 {
            Some((EntryTypeV::LinkRemove, rest))
        } else if tag == 4 {
            Some((EntryTypeV::Deletion, rest))
        } else {
            None
        },
        None => None,
    }
}

/// Every string of the value fits the length prefix.
pub open spec fn entry_type_fits(t: EntryTypeV) -> bool {
    match t {
        EntryTypeV::App(s) => str_fits(s),
        _ => true,
    }
}

pub proof fn lemma_dec_enc_entry_type(t: EntryTypeV, rest: Seq<u8>)
    requires
        entry_type_fits(t),
    ensures
        dec_entry_type(enc_entry_type(t) + rest) == Some((t, rest)),
{
    match t {
        EntryTypeV::Dna => {
            lemma_dec_enc_u64(0, rest);
        },
        EntryTypeV::App(s) => {
            assert(enc_entry_type(t) + rest =~= enc_u64(1) + (enc_str(s) + rest));
            lemma_dec_enc_u64(1, enc_str(s) + rest);
            lemma_dec_enc_str(s, rest);
        },
        EntryTypeV::LinkAdd => {
            lemma_dec_enc_u64(2, rest);
        },
        EntryTypeV::LinkRemove => {
            lemma_dec_enc_u64(3, rest);
        },
        EntryTypeV::Deletion => {
            lemma_dec_enc_u64(4, rest);
        },
    }
}

/// The wire form of an optional address.
pub open spec fn enc_opt_str(o: Option<Seq<char>>) -> Seq<u8> {
    match o {
        None => enc_u64(0),
        Some(s) => enc_u64(1) + enc_str(s),
    }
}

/// Reading an optional address.
pub open spec fn dec_opt_str(b: Seq<u8>) -> Option<(Option<Seq<char>>, Seq<u8>)> {
    match dec_u64(b) {
        Some((tag, rest)) => if tag == 0 {
            Some((None, rest))
        } else if tag == 1 {
            match dec_str(rest) {
                Some((s, r2)) => Some((Some(s), r2)),
                None => None,
            }
        } else {
            None
        },
        None => None,
    }
}

pub open spec fn opt_str_fits(o: Option<Seq<char>>) -> bool {
    match o {
        Some(s) => str_fits(s),
        None => true,
    }
}

pub proof fn lemma_dec_enc_opt_str(o: Option<Seq<char>>, rest: Seq<u8>)
    requires
        opt_str_fits(o),
    ensures
        dec_opt_str(enc_opt_str(o) + rest) == Some((o, rest)),
{
    match o {
        None => {
            lemma_dec_enc_u64(0, rest);
        },
        Some(s) => {
            assert(enc_opt_str(o) + rest =~= enc_u64(1) + (enc_str(s) + rest));
            lemma_dec_enc_u64(1, enc_str(s) + rest);
            lemma_dec_enc_str(s, rest);
        },
    }
}

/// The wire form of a list of strings, without its count.
pub open spec fn enc_str_list_rec(xs: Seq<Seq<char>>) -> Seq<u8>
    decreases xs.len(),
{
    if xs.len() == 0 {
        Seq::empty()
    } else {
        enc_str(xs[0]) + enc_str_list_rec(xs.skip(1))
    }
}

/// The wire form of a list of strings: its count, then each string.
pub open spec fn enc_str_list(xs: Seq<Seq<char>>) -> Seq<u8>
    recommends
        xs.len() < 0x1_0000_0000_0000_0000,
{
    enc_u64(xs.len() as u64) + enc_str_list_rec(xs)
}

/// Reading a counted list of strings.
pub open spec fn dec_str_list_rec(b: Seq<u8>, n: nat) -> Option<(Seq<Seq<char>>, Seq<u8>)>
    decreases n,
{
    if n == 0 {
        Some((Seq::empty(), b))
    } else {
        match dec_str(b) {
            Some((s, rest)) => match dec_str_list_rec(rest, (n - 1) as nat) {
                Some((xs, r2)) => Some((seq![s] + xs, r2)),
                None => None,
            },
            None => None,
        }
    }
}

pub open spec fn dec_str_list(b: Seq<u8>) -> Option<(Seq<Seq<char>>, Seq<u8>)> {
    match dec_u64(b) {
        Some((n, rest)) => dec_str_list_rec(rest, n as nat),
        None => None,
    }
}

pub open spec fn str_list_fits(xs: Seq<Seq<char>>) -> bool {
    &&& xs.len() < 0x1_0000_0000_0000_0000
    &&& forall|i: int| 0 <= i < xs.len() ==> str_fits(#[trigger] xs[i])
}

#[verifier::rlimit(100)]
proof fn lemma_dec_enc_str_list_rec(xs: Seq<Seq<char>>, rest: Seq<u8>)
    requires
        forall|i: int| 0 <= i < xs.len() ==> str_fits(#[trigger] xs[i]),
    ensures
        dec_str_list_rec(enc_str_list_rec(xs) + rest, xs.len()) == Some((xs, rest)),
    decreases xs.len(),
{
    if xs.len() == 0 {
        assert(enc_str_list_rec(xs) + rest =~= rest);
        assert(xs =~= Seq::<Seq<char>>::empty());
    } else {
        let tail = xs.skip(1);
        assert(enc_str_list_rec(xs) + rest =~= enc_str(xs[0]) + (enc_str_list_rec(tail) + rest));
        lemma_dec_enc_str(xs[0], enc_str_list_rec(tail) + rest);
        lemma_dec_enc_str_list_rec(tail, rest);
        assert(seq![xs[0]] + tail =~= xs);
    }
}

pub proof fn lemma_dec_enc_str_list(xs: Seq<Seq<char>>, rest: Seq<u8>)
    requires
        str_list_fits(xs),
    ensures
        dec_str_list(enc_str_list(xs) + rest) == Some((xs, rest)),
{
    assert(enc_str_list(xs) + rest =~= enc_u64(xs.len() as u64) + (enc_str_list_rec(xs) + rest));
    lemma_dec_enc_u64(xs.len() as u64, enc_str_list_rec(xs) + rest);
    lemma_dec_enc_str_list_rec(xs, rest);
}

/// The wire form of a link record: its four fields in order.
pub open spec fn enc_link_data(l: LinkDataV) -> Seq<u8> {
    enc_str(l.base) + enc_str(l.target) + enc_str(l.link_type) + enc_str(l.tag)
}

/// Reading a link record.
pub open spec fn dec_link_data(b: Seq<u8>) -> Option<(LinkDataV, Seq<u8>)> {
    match dec_str(b) {
        Some((base, r1)) => match dec_str(r1) {
            Some((target, r2)) => match dec_str(r2) {
                Some((link_type, r3)) => match dec_str(r3) {
                    Some((tag, r4)) => Some(
                        (LinkDataV { base, target, link_type, tag }, r4),
                    ),
                    None => None,
                },
                None => None,
            },
            None => None,
        },
        None => None,
    }
}

pub open spec fn link_data_fits(l: LinkDataV) -> bool {
    str_fits(l.base) && str_fits(l.target) && str_fits(l.link_type) && str_fits(l.tag)
}

pub proof fn lemma_dec_enc_link_data(l: LinkDataV, rest: Seq<u8>)
    requires
        link_data_fits(l),
    ensures
        dec_link_data(enc_link_data(l) + rest) == Some((l, rest)),
{
    assert(enc_link_data(l) + rest =~= enc_str(l.base) + (enc_str(l.target) + (enc_str(
        l.link_type,
    ) + (enc_str(l.tag) + rest))));
    lemma_dec_enc_str(l.base, enc_str(l.target) + (enc_str(l.link_type) + (enc_str(l.tag) + rest)));
    lemma_dec_enc_str(l.target, enc_str(l.link_type) + (enc_str(l.tag) + rest));
    lemma_dec_enc_str(l.link_type, enc_str(l.tag) + rest);
    lemma_dec_enc_str(l.tag, rest);
}

/// The wire form of an entry: a kind tag, then its fields.
pub open spec fn enc_entry(e: EntryV) -> Seq<u8> {
    match e {
        EntryV::App(t, v) => enc_u64(1) + enc_str(t) + enc_str(v),
        EntryV::Dna => enc_u64(2),
        EntryV::LinkAdd(l) => enc_u64(3) + enc_link_data(l),
        EntryV::LinkRemove(l, addrs) => enc_u64(4) + enc_link_data(l) + enc_str_list(addrs),
        EntryV::Deletion(a) => enc_u64(5) + enc_str(a),
    }
}

/// Reading an entry.
pub open spec fn dec_entry(b: Seq<u8>) -> Option<(EntryV, Seq<u8>)> {
    match dec_u64(b) {
        Some((tag, rest)) => if tag == 1 {
            match dec_str(rest) {
                Some((t, r1)) => match dec_str(r1) {
                    Some((v, r2)) => Some((EntryV::App(t, v), r2)),
                    None => None,
                },
                None => None,
            }
        } else if tag == 2 {
            Some((EntryV::Dna, rest))
        } else if tag == 3 {
            match dec_link_data(rest) {
                Some((l, r1)) => Some((EntryV::LinkAdd(l), r1)),
                None => None,
            }
        } else if tag == 4 {
            match dec_link_data(rest) {
                Some((l, r1)) => match dec_str_list(r1) {
                    Some((addrs, r2)) => Some((EntryV::LinkRemove(l, addrs), r2)),
                    None => None,
                },
                None => None,
            }
        } else if tag == 5 {
            match dec_str(rest) {
                Some((a, r1)) => Some((EntryV::Deletion(a), r1)),
                None => None,
            }
        } else {
            None
        },
        None => None,
    }
}

pub open spec fn entry_fits(e: EntryV) -> bool {
    match e {
        EntryV::App(t, v) => str_fits(t) && str_fits(v),
        EntryV::Dna => true,
        EntryV::LinkAdd(l) => link_data_fits(l),
        EntryV::LinkRemove(l, addrs) => link_data_fits(l) && str_list_fits(addrs),
        EntryV::Deletion(a) => str_fits(a),
    }
}

#[verifier::rlimit(100)]
pub proof fn lemma_dec_enc_entry(e: EntryV, rest: Seq<u8>)
    requires
        entry_fits(e),
    ensures
        dec_entry(enc_entry(e) + rest) == Some((e, rest)),
{
    match e {
        EntryV::App(t, v) => {
            assert(enc_entry(e) + rest =~= enc_u64(1) + (enc_str(t) + (enc_str(v) + rest)));
            lemma_dec_enc_u64(1, enc_str(t) + (enc_str(v) + rest));
            lemma_dec_enc_str(t, enc_str(v) + rest);
            lemma_dec_enc_str(v, rest);
        },
        EntryV::Dna => {
            lemma_dec_enc_u64(2, rest);
        },
        EntryV::LinkAdd(l) => {
            assert(enc_entry(e) + rest =~= enc_u64(3) + (enc_link_data(l) + rest));
            lemma_dec_enc_u64(3, enc_link_data(l) + rest);
            lemma_dec_enc_link_data(l, rest);
        },
        EntryV::LinkRemove(l, addrs) => {
            assert(enc_entry(e) + rest =~= enc_u64(4) + (enc_link_data(l) + (enc_str_list(addrs)
                + rest)));
            lemma_dec_enc_u64(4, enc_link_data(l) + (enc_str_list(addrs) + rest));
            lemma_dec_enc_link_data(l, enc_str_list(addrs) + rest);
            lemma_dec_enc_str_list(addrs, rest);
        },
        EntryV::Deletion(a) => {
            assert(enc_entry(e) + rest =~= enc_u64(5) + (enc_str(a) + rest));
            lemma_dec_enc_u64(5, enc_str(a) + rest);
            lemma_dec_enc_str(a, rest);
        },
    }
}

/// The wire form of a header: kind, entry address, timestamp, crud link.
pub open spec fn enc_chain_header(h: ChainHeaderV) -> Seq<u8> {
    enc_entry_type(h.entry_type) + enc_str(h.entry_address) + enc_str(h.timestamp) + enc_opt_str(
        h.link_update_delete,
    )
}

/// Reading a header.
pub open spec fn dec_chain_header(b: Seq<u8>) -> Option<(ChainHeaderV, Seq<u8>)> {
    match dec_entry_type(b) {
        Some((entry_type, r1)) => match dec_str(r1) {
            Some((entry_address, r2)) => match dec_str(r2) {
                Some((timestamp, r3)) => match dec_opt_str(r3) {
                    Some((link_update_delete, r4)) => Some(
                        (
                            ChainHeaderV {
                                entry_type,
                                entry_address,
                                timestamp,
                                link_update_delete,
                            },
                            r4,
                        ),
                    ),
                    None => None,
                },
                None => None,
            },
            None => None,
        },
        None => None,
    }
}

pub open spec fn chain_header_fits(h: ChainHeaderV) -> bool {
    entry_type_fits(h.entry_type) && str_fits(h.entry_address) && str_fits(h.timestamp)
        && opt_str_fits(h.link_update_delete)
}

pub proof fn lemma_dec_enc_chain_header(h: ChainHeaderV, rest: Seq<u8>)
    requires
        chain_header_fits(h),
    ensures
        dec_chain_header(enc_chain_header(h) + rest) == Some((h, rest)),
{
    assert(enc_chain_header(h) + rest =~= enc_entry_type(h.entry_type) + (enc_str(h.entry_address)
        + (enc_str(h.timestamp) + (enc_opt_str(h.link_update_delete) + rest))));
    lemma_dec_enc_entry_type(
        h.entry_type,
        enc_str(h.entry_address) + (enc_str(h.timestamp) + (enc_opt_str(h.link_update_delete)
            + rest)),
    );
    lemma_dec_enc_str(
        h.entry_address,
        enc_str(h.timestamp) + (enc_opt_str(h.link_update_delete) + rest),
    );
    lemma_dec_enc_str(h.timestamp, enc_opt_str(h.link_update_delete) + rest);
    lemma_dec_enc_opt_str(h.link_update_delete, rest);
}

/// Appends the wire form of an entry kind.
pub fn encode_entry_type(out: &mut Vec<u8>, t: &EntryType)
    ensures
        final(out)@ == old(out)@ + enc_entry_type(t@),
        entry_type_fits(t@),
{
    match t {
        EntryType::Dna => encode_u64(out, 0),
        EntryType::App(s) => {
            encode_u64(out, 1);
            encode_string(out, s.as_str());
            assert(out@ =~= old(out)@ + enc_entry_type(t@));
        },
        EntryType::LinkAdd => encode_u64(out, 2),
        EntryType::LinkRemove => encode_u64(out, 3),
        EntryType::Deletion => encode_u64(out, 4),
    }
}

/// Reads an entry kind at the position.
pub fn decode_entry_type(data: &Vec<u8>, pos: usize) -> (r: Option<(EntryType, usize)>)
    requires
        pos <= data@.len(),
    ensures
        match r {
            Some(p) => dec_entry_type(data@.skip(pos as int)) == Some(
                (p.0@, data@.skip(p.1 as int)),
            ) && pos <= p.1 <= data@.len(),
            None => dec_entry_type(data@.skip(pos as int)) is None,
        },
{
    let (tag, p1) = match decode_u64(data, pos) {
        Some(p) => p,
        None => {
            return None;
        },
    };
    if tag == 0 {
        Some((EntryType::Dna, p1))
    } else if tag == 1 {
        match decode_string(data, p1) {
            Some(p) => Some((EntryType::App(p.0), p.1)),
            None => None,
        }
    } else if tag == 2 {
        Some((EntryType::LinkAdd, p1))
    } else if tag == 3 {
        Some((EntryType::LinkRemove, p1))
    } else if tag == 4 {
        Some((EntryType::Deletion, p1))
    } else {
        None
    }
}

/// Appends the wire form of an optional address.
pub fn encode_opt_address(out: &mut Vec<u8>, o: &Option<Address>)
    ensures
        final(out)@ == old(out)@ + enc_opt_str(
            match o {
                Some(a) => Some(a@),
                None => None,
            },
        ),
        opt_str_fits(
            match o {
                Some(a) => Some(a@),
                None => None,
            },
        ),
{
    match o {
        None => encode_u64(out, 0),
        Some(a) => {
            encode_u64(out, 1);
            encode_string(out, a.text());
            assert(out@ =~= old(out)@ + enc_opt_str(Some(a@)));
        },
    }
}

/// Reads an optional address at the position.
pub fn decode_opt_address(data: &Vec<u8>, pos: usize) -> (r: Option<(Option<Address>, usize)>)
    requires
        pos <= data@.len(),
    ensures
        match r {
            Some(p) => dec_opt_str(data@.skip(pos as int)) == Some(
                (
                    match p.0 {
                        Some(a) => Some(a@),
                        None => None,
                    },
                    data@.skip(p.1 as int),
                ),
            ) && pos <= p.1 <= data@.len(),
            None => dec_opt_str(data@.skip(pos as int)) is None,
        },
{
    let (tag, p1) = match decode_u64(data, pos) {
        Some(p) => p,
        None => {
            return None;
        },
    };
    if tag == 0 {
        Some((None, p1))
    } else if tag == 1 {
        match decode_string(data, p1) {
            Some(p) => Some((Some(Address::from_text(p.0)), p.1)),
            None => None,
        }
    } else {
        None
    }
}

fn encode_address_list_rec(out: &mut Vec<u8>, v: &Vec<Address>, i: usize)
    requires
        i <= v@.len(),
    ensures
        final(out)@ == old(out)@ + enc_str_list_rec(seq_addr_view(v@).skip(i as int)),
        forall|j: int| i <= j < v@.len() ==> str_fits(#[trigger] seq_addr_view(v@)[j]),
    decreases v@.len() - i,
{
    if i < v.len() {
        encode_string(out, v[i].text());
        encode_address_list_rec(out, v, i + 1);
        proof {
            let views = seq_addr_view(v@);
            assert(views.skip(i as int)[0] == views[i as int]);
            assert(views.skip(i as int).skip(1) =~= views.skip(i as int + 1));
            assert(out@ =~= old(out)@ + enc_str_list_rec(views.skip(i as int)));
        }
    } else {
        proof {
            assert(seq_addr_view(v@).skip(i as int) =~= Seq::<Seq<char>>::empty());
            assert(out@ =~= old(out)@ + enc_str_list_rec(seq_addr_view(v@).skip(i as int)));
        }
    }
}

/// Appends the wire form of a list of addresses.
pub fn encode_address_list(out: &mut Vec<u8>, v: &Vec<Address>)
    ensures
        final(out)@ == old(out)@ + enc_str_list(seq_addr_view(v@)),
        str_list_fits(seq_addr_view(v@)),
{
    encode_u64(out, v.len() as u64);
    encode_address_list_rec(out, v, 0);
    proof {
        assert(seq_addr_view(v@).skip(0) =~= seq_addr_view(v@));
        assert(out@ =~= old(out)@ + enc_str_list(seq_addr_view(v@)));
    }
}

fn decode_address_list_rec(data: &Vec<u8>, pos: usize, n: u64) -> (r: Option<(Vec<Address>, usize)>)
    requires
        pos <= data@.len(),
    ensures
        match r {
            Some(p) => dec_str_list_rec(data@.skip(pos as int), n as nat) == Some(
                (seq_addr_view(p.0@), data@.skip(p.1 as int)),
            ) && pos <= p.1 <= data@.len(),
            None => dec_str_list_rec(data@.skip(pos as int), n as nat) is None,
        },
    decreases n,
{
    if n == 0 {
        let empty: Vec<Address> = Vec::new();
        proof {
            assert(seq_addr_view(empty@) =~= Seq::<Seq<char>>::empty());
        }
        return Some((empty, pos));
    }
    let (s, p1) = match decode_string(data, pos) {
        Some(p) => p,
        None => {
            return None;
        },
    };
    let ghost sv = s@;
    match decode_address_list_rec(data, p1, n - 1) {
        Some((mut rest, p2)) => {
            let ghost rest_views = seq_addr_view(rest@);
            rest.insert(0, Address::from_text(s));
            proof {
                assert(seq_addr_view(rest@) =~= seq![sv] + rest_views);
            }
            Some((rest, p2))
        },
        None => None,
    }
}

/// Reads a list of addresses at the position.
pub fn decode_address_list(data: &Vec<u8>, pos: usize) -> (r: Option<(Vec<Address>, usize)>)
    requires
        pos <= data@.len(),
    ensures
        match r {
            Some(p) => dec_str_list(data@.skip(pos as int)) == Some(
                (seq_addr_view(p.0@), data@.skip(p.1 as int)),
            ) && pos <= p.1 <= data@.len(),
            None => dec_str_list(data@.skip(pos as int)) is None,
        },
{
    let (n, p1) = match decode_u64(data, pos) {
        Some(p) => p,
        None => {
            return None;
        },
    };
    decode_address_list_rec(data, p1, n)
}

/// Appends the wire form of a link record.
pub fn encode_link_data(out: &mut Vec<u8>, l: &LinkData)
    ensures
        final(out)@ == old(out)@ + enc_link_data(l@),
        link_data_fits(l@),
{
    encode_string(out, l.base.text());
    encode_string(out, l.target.text());
    encode_string(out, l.link_type.as_str());
    encode_string(out, l.tag.as_str());
    assert(out@ =~= old(out)@ + enc_link_data(l@));
}

/// Reads a link record at the position.
pub fn decode_link_data(data: &Vec<u8>, pos: usize) -> (r: Option<(LinkData, usize)>)
    requires
        pos <= data@.len(),
    ensures
        match r {
            Some(p) => dec_link_data(data@.skip(pos as int)) == Some(
                (p.0@, data@.skip(p.1 as int)),
            ) && pos <= p.1 <= data@.len(),
            None => dec_link_data(data@.skip(pos as int)) is None,
        },
{
    let (base, p1) = match decode_string(data, pos) {
        Some(p) => p,
        None => {
            return None;
        },
    };
    let (target, p2) = match decode_string(data, p1) {
        Some(p) => p,
        None => {
            return None;
        },
    };
    let (link_type, p3) = match decode_string(data, p2) {
        Some(p) => p,
        None => {
            return None;
        },
    };
    let (tag, p4) = match decode_string(data, p3) {
        Some(p) => p,
        None => {
            return None;
        },
    };
    Some(
        (
            LinkData {
                base: Address::from_text(base),
                target: Address::from_text(target),
                link_type,
                tag,
            },
            p4,
        ),
    )
}

/// Appends the wire form of an entry.
pub fn encode_entry(out: &mut Vec<u8>, e: &Entry)
    ensures
        final(out)@ == old(out)@ + enc_entry(e@),
        entry_fits(e@),
{
    match e {
        Entry::App(t, v) => {
            encode_u64(out, 1);
            encode_string(out, t.as_str());
            encode_string(out, v.as_str());
            assert(out@ =~= old(out)@ + enc_entry(e@));
        },
        Entry::Dna => {
            encode_u64(out, 2);
        },
        Entry::LinkAdd(l) => {
            encode_u64(out, 3);
            encode_link_data(out, l);
            assert(out@ =~= old(out)@ + enc_entry(e@));
        },
        Entry::LinkRemove(l, addrs) => {
            encode_u64(out, 4);
            encode_link_data(out, l);
            encode_address_list(out, addrs);
            assert(out@ =~= old(out)@ + enc_entry(e@));
        },
        Entry::Deletion(a) => {
            encode_u64(out, 5);
            encode_string(out, a.text());
            assert(out@ =~= old(out)@ + enc_entry(e@));
        },
    }
}

/// Reads an entry at the position.
pub fn decode_entry(data: &Vec<u8>, pos: usize) -> (r: Option<(Entry, usize)>)
    requires
        pos <= data@.len(),
    ensures
        match r {
            Some(p) => dec_entry(data@.skip(pos as int)) == Some((p.0@, data@.skip(p.1 as int)))
                && pos <= p.1 <= data@.len(),
            None => dec_entry(data@.skip(pos as int)) is None,
        },
{
    let (tag, p1) = match decode_u64(data, pos) {
        Some(p) => p,
        None => {
            return None;
        },
    };
    if tag == 1 {
        let (t, p2) = match decode_string(data, p1) {
            Some(p) => p,
            None => {
                return None;
            },
        };
        match decode_string(data, p2) {
            Some(p) => Some((Entry::App(t, p.0), p.1)),
            None => None,
        }
    } else if tag == 2 {
        Some((Entry::Dna, p1))
    } else if tag == 3 {
        match decode_link_data(data, p1) {
            Some(p) => Some((Entry::LinkAdd(p.0), p.1)),
            None => None,
        }
    } else if tag == 4 {
        let (l, p2) = match decode_link_data(data, p1) {
            Some(p) => p,
            None => {
                return None;
            },
        };
        match decode_address_list(data, p2) {
            Some(p) => Some((Entry::LinkRemove(l, p.0), p.1)),
            None => None,
        }
    } else if tag == 5 {
        match decode_string(data, p1) {
            Some(p) => Some((Entry::Deletion(Address::from_text(p.0)), p.1)),
            None => None,
        }
    } else {
        None
    }
}

/// Appends the wire form of a header.
pub fn encode_chain_header(out: &mut Vec<u8>, h: &ChainHeader)
    ensures
        final(out)@ == old(out)@ + enc_chain_header(h@),
        chain_header_fits(h@),
{
    encode_entry_type(out, &h.entry_type);
    encode_string(out, h.entry_address.text());
    encode_string(out, h.timestamp.as_str());
    encode_opt_address(out, &h.link_update_delete);
    assert(out@ =~= old(out)@ + enc_chain_header(h@));
}

/// Reads a header at the position.
pub fn decode_chain_header(data: &Vec<u8>, pos: usize) -> (r: Option<(ChainHeader, usize)>)
    requires
        pos <= data@.len(),
    ensures
        match r {
            Some(p) => dec_chain_header(data@.skip(pos as int)) == Some(
                (p.0@, data@.skip(p.1 as int)),
            ) && pos <= p.1 <= data@.len(),
            None => dec_chain_header(data@.skip(pos as int)) is None,
        },
{
    let (entry_type, p1) = match decode_entry_type(data, pos) {
        Some(p) => p,
        None => {
            return None;
        },
    };
    let (entry_address, p2) = match decode_string(data, p1) {
        Some(p) => p,
        None => {
            return None;
        },
    };
    let (timestamp, p3) = match decode_string(data, p2) {
        Some(p) => p,
        None => {
            return None;
        },
    };
    let (link_update_delete, p4) = match decode_opt_address(data, p3) {
        Some(p) => p,
        None => {
            return None;
        },
    };
    Some(
        (
            ChainHeader {
                entry_type,
                entry_address: Address::from_text(entry_address),
                timestamp,
                link_update_delete,
            },
            p4,
        ),
    )
}

/// Which byte strings are the canonical wire form of an entry.
pub open spec fn entry_decodable(b: Seq<u8>) -> bool {
    match dec_entry(b) {
        Some(p) => p.1.len() == 0 && enc_entry(p.0) == b,
        None => false,
    }
}

impl AddressableContent for Entry {
    open spec fn content_spec(&self) -> Seq<u8> {
        enc_entry(self@)
    }

    open spec fn decodable(content: Seq<u8>) -> bool {
        entry_decodable(content)
    }

    fn content(&self) -> (c: Content)
    {
        let mut out: Vec<u8> = Vec::new();
        encode_entry(&mut out, self);
        proof {
            lemma_dec_enc_entry(self@, Seq::empty());
            assert(enc_entry(self@) + Seq::<u8>::empty() =~= enc_entry(self@));
        }
        out
    }

    fn try_from_content(content: &Content) -> (r: Option<Self>)
    {
        proof {
            assert(content@.skip(0) =~= content@);
        }
        match decode_entry(content, 0) {
            Some((e, p)) => {
                if p == content.len() {
                    let mut reenc: Vec<u8> = Vec::new();
                    encode_entry(&mut reenc, &e);
                    if bytes_eq(&reenc, content) {
                        Some(e)
                    } else {
                        None
                    }
                } else {
                    None
                }
            },
            None => None,
        }
    }

    fn address(&self) -> (a: Address)
    {
        let c = self.content();
        compute_address(&c)
    }
}

} // verus!
