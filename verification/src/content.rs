use vstd::prelude::*;

verus! {

/// Raw content held by the content-addressable store: an opaque byte
/// sequence.
pub type Content = Vec<u8>;

/// What sha2's SHA-256 digest of a byte string is.
pub uninterp spec fn sha256_of(bytes: Seq<u8>) -> Seq<u8>;

/// What bs58's base-58 encoding (Bitcoin alphabet) of a byte string is.
pub uninterp spec fn base58_of(bytes: Seq<u8>) -> Seq<char>;

/// Relies on sha2's `Sha256::digest`: the digest depends on the input
/// bytes alone and is always 32 bytes long.
#[verifier::external_body]
fn sha256(bytes: &Vec<u8>) -> (r: Vec<u8>)
    ensures
        r@ == sha256_of(bytes@),
        r@.len() == 32,
{
    <sha2::Sha256 as sha2::Digest>::digest(bytes.as_slice()).to_vec()
}

/// Relies on bs58's `encode` with its default alphabet: the encoding
/// depends on the input bytes alone.
#[verifier::external_body]
fn base58(bytes: &Vec<u8>) -> (r: String)
    ensures
        r@ == base58_of(bytes@),
{
    bs58::encode(bytes.as_slice()).into_string()
}

/// The multihash framing of a SHA-256 digest: the function code for
/// SHA-256, the digest length, then the digest itself.
pub open spec fn multihash_sha256_of(content: Seq<u8>) -> Seq<u8> {
    seq![0x12u8, 0x20u8] + sha256_of(content)
}

/// The address of a piece of content: the base-58 text of the framed
/// SHA-256 digest of its bytes.  Deterministic in the content alone.
pub open spec fn address_of(content: Seq<u8>) -> Seq<char> {
    base58_of(multihash_sha256_of(content))
}

/// A deterministic content-hash identifier.  Immutable once computed;
/// equality is equality of the underlying text.
#[derive(Debug, PartialEq, Eq, Hash)]
pub struct Address {
    raw: String,
}

impl View for Address {
    type V = Seq<char>;

    closed spec fn view(&self) -> Seq<char> {
        self.raw@
    }
}

impl Clone for Address {
    fn clone(&self) -> (r: Self)
        ensures
            r@ == self@,
    {
        Address { raw: self.raw.clone() }
    }
}

impl Address {
    /// Wraps already-derived identifier text, as when an address arrives
    /// over the wire.
    pub fn from_text(raw: String) -> (a: Address)
        ensures
            a@ == raw@,
    {
        Address { raw }
    }

    /// The identifier text itself.
    pub fn text(&self) -> (r: &str)
        ensures
            r@ == self@,
    {
        self.raw.as_str()
    }
}

/// A copy of a byte string, equal to the original.
pub fn clone_bytes(v: &Vec<u8>) -> (r: Vec<u8>)
    ensures
        r@ == v@,
{
    let mut r: Vec<u8> = Vec::new();
    r.extend_from_slice(v.as_slice());
    assert(r@ == v@);
    r
}

/// True of two addresses holding the same identifier text.
pub fn address_eq(a: &Address, b: &Address) -> (r: bool)
    ensures
        r == (a@ == b@),
{
    a.raw == b.raw
}

/// Derives the address of a piece of content from its bytes.
pub fn compute_address(content: &Content) -> (a: Address)
    ensures
        a@ == address_of(content@),
{
    let digest = sha256(content);
    let mut framed: Vec<u8> = Vec::new();
    framed.push(0x12u8);
    framed.push(0x20u8);
    framed.extend_from_slice(digest.as_slice());
    assert(framed@ == multihash_sha256_of(content@));
    Address { raw: base58(&framed) }
}

/// The capability of producing a deterministic address from one's own
/// content bytes and of being reconstructed from them.
pub trait AddressableContent: Sized {
    /// The content bytes this value serializes to.
    spec fn content_spec(&self) -> Seq<u8>;

    /// Which byte strings reconstruct a value of this type.
    spec fn decodable(content: Seq<u8>) -> bool;

    /// The value's serialized content bytes.
    fn content(&self) -> (c: Content)
        ensures
            c@ == self.content_spec(),
            Self::decodable(self.content_spec()),
    ;

    /// Reconstructs a value from content bytes; fails exactly on the byte
    /// strings no value of this type serializes to.
    fn try_from_content(content: &Content) -> (r: Option<Self>)
        ensures
            r matches Some(v) ==> v.content_spec() == content@,
            Self::decodable(content@) <==> r is Some,
    ;

    /// The value's deterministic address: the hash of its content bytes.
    fn address(&self) -> (a: Address)
        ensures
            a@ == address_of(self.content_spec()),
    ;
}

/// Content that is exactly its own byte string, the simplest carrier the
/// store can hold.
#[derive(Debug, PartialEq, Eq)]
pub struct ExampleAddressableContent {
    pub content: Content,
}

impl AddressableContent for ExampleAddressableContent {
    open spec fn content_spec(&self) -> Seq<u8> {
        self.content@
    }

    open spec fn decodable(content: Seq<u8>) -> bool {
        true
    }

    fn content(&self) -> (c: Content)
    {
        clone_bytes(&self.content)
    }

    fn try_from_content(content: &Content) -> (r: Option<Self>)
    {
        Some(ExampleAddressableContent { content: clone_bytes(content) })
    }

    fn address(&self) -> (a: Address)
    {
        compute_address(&self.content)
    }
}

/// A second self-describing content type, to show that values of
/// different types share one store.
#[derive(Debug, PartialEq, Eq)]
pub struct OtherExampleAddressableContent {
    pub content: Content,
}

impl AddressableContent for OtherExampleAddressableContent {
    open spec fn content_spec(&self) -> Seq<u8> {
        self.content@
    }

    open spec fn decodable(content: Seq<u8>) -> bool {
        true
    }

    fn content(&self) -> (c: Content)
    {
        clone_bytes(&self.content)
    }

    fn try_from_content(content: &Content) -> (r: Option<Self>)
    {
        Some(OtherExampleAddressableContent { content: clone_bytes(content) })
    }

    fn address(&self) -> (a: Address)
    {
        compute_address(&self.content)
    }
}

} // verus!
