use vstd::prelude::*;

use crate::codec::{bytes_eq, dec_str, enc_str, enc_u64, dec_u64, lemma_dec_enc_u64};
use crate::content::{address_of, clone_bytes, compute_address, Address, AddressableContent,
    Content};
use crate::entry::{
    chain_header_fits, clone_addresses, dec_chain_header, dec_link_data, dec_entry, dec_str_list,
    decode_chain_header, decode_entry, decode_link_data, decode_address_list, enc_chain_header,
    enc_entry, enc_link_data, enc_str_list, encode_address_list, encode_chain_header, encode_entry,
    encode_link_data, entry_fits, link_data_fits, seq_addr_view, str_list_fits, ChainHeader,
    ChainHeaderV, Entry, EntryV, LinkData, LinkDataV,
};

verus! {

/// One fact a peer can assert about an address: its content with the
/// originating header, a bare header, a link added or removed, a new
/// version, or a tombstone.  Every variant carries the header a
/// receiver needs to validate provenance without another round trip.
#[derive(Debug, PartialEq, Eq)]
pub enum EntryAspect {
    Content(Entry, ChainHeader),
    Header(ChainHeader),
    LinkAdd(LinkData, ChainHeader),
    LinkRemove((LinkData, Vec<Address>), ChainHeader),
    Update(Entry, ChainHeader),
    Deletion(ChainHeader),
}

/// The mathematical value of an `EntryAspect`.
pub enum EntryAspectV {
    Content(EntryV, ChainHeaderV),
    Header(ChainHeaderV),
    LinkAdd(LinkDataV, ChainHeaderV),
    LinkRemove((LinkDataV, Seq<Seq<char>>), ChainHeaderV),
    Update(EntryV, ChainHeaderV),
    Deletion(ChainHeaderV),
}

impl View for EntryAspect {
    type V = EntryAspectV;

    open spec fn view(&self) -> EntryAspectV {
        match self {
            EntryAspect::Content(e, h) => EntryAspectV::Content(e@, h@),
            EntryAspect::Header(h) => EntryAspectV::Header(h@),
            EntryAspect::LinkAdd(l, h) => EntryAspectV::LinkAdd(l@, h@),
            EntryAspect::LinkRemove(p, h) => EntryAspectV::LinkRemove(
                (p.0@, seq_addr_view(p.1@)),
                h@,
            ),
            EntryAspect::Update(e, h) => EntryAspectV::Update(e@, h@),
            EntryAspect::Deletion(h) => EntryAspectV::Deletion(h@),
        }
    }
}

impl Clone for EntryAspect {
    fn clone(&self) -> (r: Self)
        ensures
            r@ == self@,
    {
        match self {
            EntryAspect::Content(e, h) => EntryAspect::Content(e.clone(), h.clone()),
            EntryAspect::Header(h) => EntryAspect::Header(h.clone()),
            EntryAspect::LinkAdd(l, h) => EntryAspect::LinkAdd(l.clone(), h.clone()),
            EntryAspect::LinkRemove(p, h) => EntryAspect::LinkRemove(
                (p.0.clone(), clone_addresses(&p.1)),
                h.clone(),
            ),
            EntryAspect::Update(e, h) => EntryAspect::Update(e.clone(), h.clone()),
            EntryAspect::Deletion(h) => EntryAspect::Deletion(h.clone()),
        }
    }
}

/// The string discriminator of an aspect's variant.
pub open spec fn type_hint_of(a: EntryAspectV) -> Seq<char> {
    match a {
        EntryAspectV::Content(_, _) => "content"@,
        EntryAspectV::Header(_) => "header"@,
        EntryAspectV::LinkAdd(_, _) => "link_add"@,
        EntryAspectV::LinkRemove(_, _) => "link_remove"@,
        EntryAspectV::Update(_, _) => "update"@,
        EntryAspectV::Deletion(_) => "deletion"@,
    }
}

/// The header embedded in an aspect, whichever its variant.
pub open spec fn header_of(a: EntryAspectV) -> ChainHeaderV {
    match a {
        EntryAspectV::Content(_, h) => h,
        EntryAspectV::Header(h) => h,
        EntryAspectV::LinkAdd(_, h) => h,
        EntryAspectV::LinkRemove(_, h) => h,
        EntryAspectV::Update(_, h) => h,
        EntryAspectV::Deletion(h) => h,
    }
}

impl EntryAspect {
    /// The string discriminator matching the six variants.
    pub fn type_hint(&self) -> (r: String)
        ensures
            r@ == type_hint_of(self@),
    {
        match self {
            EntryAspect::Content(_, _) => "content".to_owned(),
            EntryAspect::Header(_) => "header".to_owned(),
            EntryAspect::LinkAdd(_, _) => "link_add".to_owned(),
            EntryAspect::LinkRemove(_, _) => "link_remove".to_owned(),
            EntryAspect::Update(_, _) => "update".to_owned(),
            EntryAspect::Deletion(_) => "deletion".to_owned(),
        }
    }

    /// The embedded header, total over all variants.
    pub fn header(&self) -> (r: ChainHeader)
        ensures
            r@ == header_of(self@),
    {
        match self {
            EntryAspect::Content(_, header) => header.clone(),
            EntryAspect::Header(header) => header.clone(),
            EntryAspect::LinkAdd(_, header) => header.clone(),
            EntryAspect::LinkRemove(_, header) => header.clone(),
            EntryAspect::Update(_, header) => header.clone(),
            EntryAspect::Deletion(header) => header.clone(),
        }
    }
}

/// The wire form of an aspect: a variant tag, then its fields.
pub open spec fn enc_aspect(a: EntryAspectV) -> Seq<u8> {
    match a {
        EntryAspectV::Content(e, h) => enc_u64(1) + enc_entry(e) + enc_chain_header(h),
        EntryAspectV::Header(h) => enc_u64(2) + enc_chain_header(h),
        EntryAspectV::LinkAdd(l, h) => enc_u64(3) + enc_link_data(l) + enc_chain_header(h),
        EntryAspectV::LinkRemove(p, h) => enc_u64(4) + enc_link_data(p.0) + enc_str_list(p.1)
            + enc_chain_header(h),
        EntryAspectV::Update(e, h) => enc_u64(5) + enc_entry(e) + enc_chain_header(h),
        EntryAspectV::Deletion(h) => enc_u64(6) + enc_chain_header(h),
    }
}

/// Reading an aspect.
pub open spec fn dec_aspect(b: Seq<u8>) -> Option<(EntryAspectV, Seq<u8>)> {
    match dec_u64(b) {
        Some((tag, rest)) => if tag == 1 {
            match dec_entry(rest) {
                Some((e, r1)) => match dec_chain_header(r1) {
                    Some((h, r2)) => Some((EntryAspectV::Content(e, h), r2)),
                    None => None,
                },
                None => None,
            }
        } else if tag == 2 {
            match dec_chain_header(rest) {
                Some((h, r1)) => Some((EntryAspectV::Header(h), r1)),
                None => None,
            }
        } else if tag == 3 {
            match dec_link_data(rest) {
                Some((l, r1)) => match dec_chain_header(r1) {
                    Some((h, r2)) => Some((EntryAspectV::LinkAdd(l, h), r2)),
                    None => None,
                },
                None => None,
            }
        } else if tag == 4 {
            match dec_link_data(rest) {
                Some((l, r1)) => match dec_str_list(r1) {
                    Some((addrs, r2)) => match dec_chain_header(r2) {
                        Some((h, r3)) => Some((EntryAspectV::LinkRemove((l, addrs), h), r3)),
                        None => None,
                    },
                    None => None,
                },
                None => None,
            }
        } else if tag == 5 {
            match dec_entry(rest) {
                Some((e, r1)) => match dec_chain_header(r1) {
                    Some((h, r2)) => Some((EntryAspectV::Update(e, h), r2)),
                    None => None,
                },
                None => None,
            }
        } else if tag == 6 {
            match dec_chain_header(rest) {
                Some((h, r1)) => Some((EntryAspectV::Deletion(h), r1)),
                None => None,
            }
        } else {
            None
        },
        None => None,
    }
}

/// Every string of the aspect fits the codec's length prefixes.
pub open spec fn aspect_fits(a: EntryAspectV) -> bool {
    match a {
        EntryAspectV::Content(e, h) => entry_fits(e) && chain_header_fits(h),
        EntryAspectV::Header(h) => chain_header_fits(h),
        EntryAspectV::LinkAdd(l, h) => link_data_fits(l) && chain_header_fits(h),
        EntryAspectV::LinkRemove(p, h) => link_data_fits(p.0) && str_list_fits(p.1)
            && chain_header_fits(h),
        EntryAspectV::Update(e, h) => entry_fits(e) && chain_header_fits(h),
        EntryAspectV::Deletion(h) => chain_header_fits(h),
    }
}

/// Reading back an encoded aspect yields the aspect and the suffix.
#[verifier::rlimit(100)]
pub proof fn lemma_dec_enc_aspect(a: EntryAspectV, rest: Seq<u8>)
    requires
        aspect_fits(a),
    ensures
        dec_aspect(enc_aspect(a) + rest) == Some((a, rest)),
{
    match a {
        EntryAspectV::Content(e, h) => {
            assert(enc_aspect(a) + rest =~= enc_u64(1) + (enc_entry(e) + (enc_chain_header(h)
                + rest)));
            lemma_dec_enc_u64(1, enc_entry(e) + (enc_chain_header(h) + rest));
            crate::entry::lemma_dec_enc_entry(e, enc_chain_header(h) + rest);
            crate::entry::lemma_dec_enc_chain_header(h, rest);
        },
        EntryAspectV::Header(h) => {
            assert(enc_aspect(a) + rest =~= enc_u64(2) + (enc_chain_header(h) + rest));
            lemma_dec_enc_u64(2, enc_chain_header(h) + rest);
            crate::entry::lemma_dec_enc_chain_header(h, rest);
        },
        EntryAspectV::LinkAdd(l, h) => {
            assert(enc_aspect(a) + rest =~= enc_u64(3) + (enc_link_data(l) + (enc_chain_header(h)
                + rest)));
            lemma_dec_enc_u64(3, enc_link_data(l) + (enc_chain_header(h) + rest));
            crate::entry::lemma_dec_enc_link_data(l, enc_chain_header(h) + rest);
            crate::entry::lemma_dec_enc_chain_header(h, rest);
        },
        EntryAspectV::LinkRemove(p, h) => {
            assert(enc_aspect(a) + rest =~= enc_u64(4) + (enc_link_data(p.0) + (enc_str_list(p.1)
                + (enc_chain_header(h) + rest))));
            lemma_dec_enc_u64(4, enc_link_data(p.0) + (enc_str_list(p.1) + (enc_chain_header(h)
                + rest)));
            crate::entry::lemma_dec_enc_link_data(p.0, enc_str_list(p.1) + (enc_chain_header(h)
                + rest));
            crate::entry::lemma_dec_enc_str_list(p.1, enc_chain_header(h) + rest);
            crate::entry::lemma_dec_enc_chain_header(h, rest);
        },
        EntryAspectV::Update(e, h) => {
            assert(enc_aspect(a) + rest =~= enc_u64(5) + (enc_entry(e) + (enc_chain_header(h)
                + rest)));
            lemma_dec_enc_u64(5, enc_entry(e) + (enc_chain_header(h) + rest));
            crate::entry::lemma_dec_enc_entry(e, enc_chain_header(h) + rest);
            crate::entry::lemma_dec_enc_chain_header(h, rest);
        },
        EntryAspectV::Deletion(h) => {
            assert(enc_aspect(a) + rest =~= enc_u64(6) + (enc_chain_header(h) + rest));
            lemma_dec_enc_u64(6, enc_chain_header(h) + rest);
            crate::entry::lemma_dec_enc_chain_header(h, rest);
        },
    }
}

/// Appends the wire form of an aspect.
pub fn encode_aspect(out: &mut Vec<u8>, a: &EntryAspect)
    ensures
        final(out)@ == old(out)@ + enc_aspect(a@),
        aspect_fits(a@),
{
    match a {
        EntryAspect::Content(e, h) => {
            crate::codec::encode_u64(out, 1);
            encode_entry(out, e);
            encode_chain_header(out, h);
            assert(out@ =~= old(out)@ + enc_aspect(a@));
        },
        EntryAspect::Header(h) => {
            crate::codec::encode_u64(out, 2);
            encode_chain_header(out, h);
            assert(out@ =~= old(out)@ + enc_aspect(a@));
        },
        EntryAspect::LinkAdd(l, h) => {
            crate::codec::encode_u64(out, 3);
            encode_link_data(out, l);
            encode_chain_header(out, h);
            assert(out@ =~= old(out)@ + enc_aspect(a@));
        },
        EntryAspect::LinkRemove(p, h) => {
            crate::codec::encode_u64(out, 4);
            encode_link_data(out, &p.0);
            encode_address_list(out, &p.1);
            encode_chain_header(out, h);
            assert(out@ =~= old(out)@ + enc_aspect(a@));
        },
        EntryAspect::Update(e, h) => {
            crate::codec::encode_u64(out, 5);
            encode_entry(out, e);
            encode_chain_header(out, h);
            assert(out@ =~= old(out)@ + enc_aspect(a@));
        },
        EntryAspect::Deletion(h) => {
            crate::codec::encode_u64(out, 6);
            encode_chain_header(out, h);
            assert(out@ =~= old(out)@ + enc_aspect(a@));
        },
    }
}

/// Reads an aspect at the position.
pub fn decode_aspect(data: &Vec<u8>, pos: usize) -> (r: Option<(EntryAspect, usize)>)
    requires
        pos <= data@.len(),
    ensures
        match r {
            Some(p) => dec_aspect(data@.skip(pos as int)) == Some((p.0@, data@.skip(p.1 as int)))
                && pos <= p.1 <= data@.len(),
            None => dec_aspect(data@.skip(pos as int)) is None,
        },
{
    let (tag, p1) = match crate::codec::decode_u64(data, pos) {
        Some(p) => p,
        None => {
            return None;
        },
    };
    if tag == 1 {
        let (e, p2) = match decode_entry(data, p1) {
            Some(p) => p,
            None => {
                return None;
            },
        };
        match decode_chain_header(data, p2) {
            Some(p) => Some((EntryAspect::Content(e, p.0), p.1)),
            None => None,
        }
    } else if tag == 2 {
        match decode_chain_header(data, p1) {
            Some(p) => Some((EntryAspect::Header(p.0), p.1)),
            None => None,
        }
    } else if tag == 3 {
        let (l, p2) = match decode_link_data(data, p1) {
            Some(p) => p,
            None => {
                return None;
            },
        };
        match decode_chain_header(data, p2) {
            Some(p) => Some((EntryAspect::LinkAdd(l, p.0), p.1)),
            None => None,
        }
    } else if tag == 4 {
        let (l, p2) = match decode_link_data(data, p1) {
            Some(p) => p,
            None => {
                return None;
            },
        };
        let (addrs, p3) = match decode_address_list(data, p2) {
            Some(p) => p,
            None => {
                return None;
            },
        };
        match decode_chain_header(data, p3) {
            Some(p) => Some((EntryAspect::LinkRemove((l, addrs), p.0), p.1)),
            None => None,
        }
    } else if tag == 5 {
        let (e, p2) = match decode_entry(data, p1) {
            Some(p) => p,
            None => {
                return None;
            },
        };
        match decode_chain_header(data, p2) {
            Some(p) => Some((EntryAspect::Update(e, p.0), p.1)),
            None => None,
        }
    } else if tag == 6 {
        match decode_chain_header(data, p1) {
            Some(p) => Some((EntryAspect::Deletion(p.0), p.1)),
            None => None,
        }
    } else {
        None
    }
}

/// Which byte strings are the canonical wire form of an aspect.
pub open spec fn aspect_decodable(b: Seq<u8>) -> bool {
    match dec_aspect(b) {
        Some(p) => p.1.len() == 0 && enc_aspect(p.0) == b,
        None => false,
    }
}

impl AddressableContent for EntryAspect {
    open spec fn content_spec(&self) -> Seq<u8> {
        enc_aspect(self@)
    }

    open spec fn decodable(content: Seq<u8>) -> bool {
        aspect_decodable(content)
    }

    fn content(&self) -> (c: Content)
    {
        let mut out: Vec<u8> = Vec::new();
        encode_aspect(&mut out, self);
        proof {
            lemma_dec_enc_aspect(self@, Seq::empty());
            assert(enc_aspect(self@) + Seq::<u8>::empty() =~= enc_aspect(self@));
        }
        out
    }

    fn try_from_content(content: &Content) -> (r: Option<Self>)
    {
        proof {
            assert(content@.skip(0) =~= content@);
        }
        match decode_aspect(content, 0) {
            Some((a, p)) => {
                if p == content.len() {
                    let mut reenc: Vec<u8> = Vec::new();
                    encode_aspect(&mut reenc, &a);
                    if bytes_eq(&reenc, content) {
                        Some(a)
                    } else {
                        None
                    }
                } else {
                    None
                }
            },
            None => None,
        }
    }

    fn address(&self) -> (a: Address)
    {
        let c = self.content();
        compute_address(&c)
    }
}

/// What chrono reads from RFC 3339 text: the whole seconds since the
/// Unix epoch of the instant the text denotes, or nothing where the
/// text is not RFC 3339.  A function of the text alone.
pub uninterp spec fn rfc3339_secs_of(s: Seq<char>) -> Option<i64>;

/// Relies on chrono's `DateTime::parse_from_rfc3339`, which accepts a
/// timestamp text exactly when it is RFC 3339, and on `timestamp`,
/// which returns the instant's whole seconds since the Unix epoch:
/// both depend on the text alone.
#[verifier::external_body]
fn rfc3339_secs(s: &str) -> (r: Option<i64>)
    ensures
        r == rfc3339_secs_of(s@),
{
    match chrono::DateTime::parse_from_rfc3339(s) {
        Ok(dt) => Some(dt.timestamp()),
        Err(_) => None,
    }
}

/// The wire envelope of an aspect: its variant discriminator, the
/// address of its serialized content, the serialized bytes themselves,
/// and the header's timestamp truncated to whole seconds.
#[derive(Debug, PartialEq, Eq)]
pub struct EntryAspectData {
    pub type_hint: String,
    pub aspect_address: Address,
    pub aspect: Vec<u8>,
    pub publish_ts: u64,
}

/// The mathematical value of an `EntryAspectData`.
pub struct EntryAspectDataV {
    pub type_hint: Seq<char>,
    pub aspect_address: Seq<char>,
    pub aspect: Seq<u8>,
    pub publish_ts: u64,
}

impl View for EntryAspectData {
    type V = EntryAspectDataV;

    open spec fn view(&self) -> EntryAspectDataV {
        EntryAspectDataV {
            type_hint: self.type_hint@,
            aspect_address: self.aspect_address@,
            aspect: self.aspect@,
            publish_ts: self.publish_ts,
        }
    }
}

impl Clone for EntryAspectData {
    fn clone(&self) -> (r: Self)
        ensures
            r@ == self@,
    {
        EntryAspectData {
            type_hint: self.type_hint.clone(),
            aspect_address: self.aspect_address.clone(),
            aspect: clone_bytes(&self.aspect),
            publish_ts: self.publish_ts,
        }
    }
}

impl EntryAspect {
    /// The wire envelope of this aspect: deterministic in the aspect
    /// alone, with the aspect's own serialized bytes and their address,
    /// and the header's timestamp as whole seconds.  Nothing is returned
    /// exactly when the header's timestamp is not RFC 3339 text.
    pub fn to_entry_aspect_data(&self) -> (r: Option<EntryAspectData>)
        ensures
            match r {
                Some(d) => rfc3339_secs_of(header_of(self@).timestamp) matches Some(ts) && d@
                    == (EntryAspectDataV {
                    type_hint: type_hint_of(self@),
                    aspect_address: address_of(enc_aspect(self@)),
                    aspect: enc_aspect(self@),
                    publish_ts: ts as u64,
                }),
                None => rfc3339_secs_of(header_of(self@).timestamp) is None,
            },
    {
        let header = self.header();
        let ts_text = header.timestamp();
        let secs = match rfc3339_secs(ts_text.as_str()) {
            Some(s) => s,
            None => {
                return None;
            },
        };
        let type_hint = self.type_hint();
        let aspect_bytes = self.content();
        let aspect_address = compute_address(&aspect_bytes);
        Some(
            EntryAspectData {
                type_hint,
                aspect_address,
                aspect: aspect_bytes,
                publish_ts: secs as u64,
            },
        )
    }
}

/// Serialization round trip: the envelope built from an aspect carries
/// that aspect's own discriminator, the address of exactly its
/// serialized bytes, and those bytes decode back to the aspect itself,
/// with nothing left over.
pub proof fn lemma_entry_aspect_data_round_trip(a: EntryAspectV, d: EntryAspectDataV)
    requires
        aspect_fits(a),
        d.type_hint == type_hint_of(a),
        d.aspect_address == address_of(enc_aspect(a)),
        d.aspect == enc_aspect(a),
    ensures
        dec_aspect(d.aspect) == Some((a, Seq::<u8>::empty())),
        aspect_decodable(d.aspect),
        d.aspect_address == address_of(d.aspect),
{
    lemma_dec_enc_aspect(a, Seq::empty());
    assert(enc_aspect(a) + Seq::<u8>::empty() =~= enc_aspect(a));
}

} // verus!
