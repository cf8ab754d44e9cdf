use vstd::prelude::*;

use vstd::utf8::{decode_utf8, encode_utf8, encode_utf8_decode_utf8, encode_utf8_valid_utf8,
    valid_utf8};

verus! {

/// The wire form of a 64-bit integer: eight bytes, least significant
/// first.  It prefixes every length, count, tag and flag of the codec.
pub open spec fn enc_u64(n: u64) -> Seq<u8> {
    seq![
        (n & 0xff) as u8,
        ((n >> 8) & 0xff) as u8,
        ((n >> 16) & 0xff) as u8,
        ((n >> 24) & 0xff) as u8,
        ((n >> 32) & 0xff) as u8,
        ((n >> 40) & 0xff) as u8,
        ((n >> 48) & 0xff) as u8,
        ((n >> 56) & 0xff) as u8,
    ]
}

/// The integer read from the first eight bytes.
#[verifier::opaque]
pub open spec fn u64_of_8(b: Seq<u8>) -> u64
    recommends
        b.len() >= 8,
{
    (b[0] as u64) | ((b[1] as u64) << 8) | ((b[2] as u64) << 16) | ((b[3] as u64) << 24) | ((
    b[4] as u64) << 32) | ((b[5] as u64) << 40) | ((b[6] as u64) << 48) | ((b[7] as u64) << 56)
}

/// Reading a 64-bit integer: the first eight bytes, then the rest.
pub open spec fn dec_u64(b: Seq<u8>) -> Option<(u64, Seq<u8>)> {
    if b.len() < 8 {
        None
    } else {
        Some((u64_of_8(b), b.skip(8)))
    }
}

/// Reading back an encoded integer yields the integer and the suffix.
pub proof fn lemma_dec_enc_u64(n: u64, rest: Seq<u8>)
    ensures
        dec_u64(enc_u64(n) + rest) == Some((n, rest)),
{
    reveal(u64_of_8);
    let b = enc_u64(n) + rest;
    assert(b.skip(8) =~= rest);
    assert(b[0] == (n & 0xff) as u8);
    assert(b[1] == ((n >> 8) & 0xff) as u8);
    assert(b[2] == ((n >> 16) & 0xff) as u8);
    assert(b[3] == ((n >> 24) & 0xff) as u8);
    assert(b[4] == ((n >> 32) & 0xff) as u8);
    assert(b[5] == ((n >> 40) & 0xff) as u8);
    assert(b[6] == ((n >> 48) & 0xff) as u8);
    assert(b[7] == ((n >> 56) & 0xff) as u8);
    assert(((n & 0xff) as u8 as u64) | ((((n >> 8) & 0xff) as u8 as u64) << 8) | ((((n >> 16)
        & 0xff) as u8 as u64) << 16) | ((((n >> 24) & 0xff) as u8 as u64) << 24) | ((((n >> 32)
        & 0xff) as u8 as u64) << 32) | ((((n >> 40) & 0xff) as u8 as u64) << 40) | ((((n >> 48)
        & 0xff) as u8 as u64) << 48) | ((((n >> 56) & 0xff) as u8 as u64) << 56) == n)
        by (bit_vector);
}

/// The wire form of a raw byte string: its length, then its bytes.
pub open spec fn enc_bytes(b: Seq<u8>) -> Seq<u8>
    recommends
        b.len() < 0x1_0000_0000_0000_0000,
{
    enc_u64(b.len() as u64) + b
}

/// Reading a raw byte string: a length, then that many bytes.
pub open spec fn dec_bytes(b: Seq<u8>) -> Option<(Seq<u8>, Seq<u8>)> {
    match dec_u64(b) {
        Some((n, rest)) => if rest.len() >= n {
            Some((rest.take(n as int), rest.skip(n as int)))
        } else {
            None
        },
        None => None,
    }
}

/// Reading back an encoded byte string yields the bytes and the suffix.
pub proof fn lemma_dec_enc_bytes(data: Seq<u8>, rest: Seq<u8>)
    requires
        data.len() < 0x1_0000_0000_0000_0000,
    ensures
        dec_bytes(enc_bytes(data) + rest) == Some((data, rest)),
{
    let n = data.len() as u64;
    assert(enc_bytes(data) + rest =~= enc_u64(n) + (data + rest));
    lemma_dec_enc_u64(n, data + rest);
    assert((data + rest).take(n as int) =~= data);
    assert((data + rest).skip(n as int) =~= rest);
}

/// The wire form of a string: its UTF-8 bytes as a byte string.
#[verifier::opaque]
pub open spec fn enc_str(s: Seq<char>) -> Seq<u8> {
    enc_bytes(encode_utf8(s))
}

/// Reading a string: a byte string holding valid UTF-8.
#[verifier::opaque]
pub open spec fn dec_str(b: Seq<u8>) -> Option<(Seq<char>, Seq<u8>)> {
    match dec_bytes(b) {
        Some((bytes, rest)) => if valid_utf8(bytes) {
            Some((decode_utf8(bytes), rest))
        } else {
            None
        },
        None => None,
    }
}

/// Strings whose UTF-8 form the length prefix can carry.  Every string
/// held in memory is within it.
pub open spec fn str_fits(s: Seq<char>) -> bool {
    encode_utf8(s).len() < 0x1_0000_0000_0000_0000
}

/// Reading back an encoded string yields the string and the suffix.
pub proof fn lemma_dec_enc_str(s: Seq<char>, rest: Seq<u8>)
    requires
        str_fits(s),
    ensures
        dec_str(enc_str(s) + rest) == Some((s, rest)),
{
    reveal(enc_str);
    reveal(dec_str);
    lemma_dec_enc_bytes(encode_utf8(s), rest);
    encode_utf8_valid_utf8(s);
    encode_utf8_decode_utf8(s);
}

/// Appends the wire form of an integer.
pub fn encode_u64(out: &mut Vec<u8>, n: u64)
    ensures
        final(out)@ == old(out)@ + enc_u64(n),
{
    out.push((n & 0xff) as u8);
    out.push(((n >> 8) & 0xff) as u8);
    out.push(((n >> 16) & 0xff) as u8);
    out.push(((n >> 24) & 0xff) as u8);
    out.push(((n >> 32) & 0xff) as u8);
    out.push(((n >> 40) & 0xff) as u8);
    out.push(((n >> 48) & 0xff) as u8);
    out.push(((n >> 56) & 0xff) as u8);
    assert(out@ =~= old(out)@ + enc_u64(n));
}

/// Reads an integer at the position, returning it and the position after.
pub fn decode_u64(data: &Vec<u8>, pos: usize) -> (r: Option<(u64, usize)>)
    requires
        pos <= data@.len(),
    ensures
        match r {
            Some(p) => dec_u64(data@.skip(pos as int)) == Some((p.0, data@.skip(p.1 as int)))
                && pos < p.1 <= data@.len(),
            None => dec_u64(data@.skip(pos as int)) is None,
        },
{
    if data.len() - pos < 8 {
        return None;
    }
    let b0 = data[pos];
    let b1 = data[pos + 1];
    let b2 = data[pos + 2];
    let b3 = data[pos + 3];
    let b4 = data[pos + 4];
    let b5 = data[pos + 5];
    let b6 = data[pos + 6];
    let b7 = data[pos + 7];
    let v = (b0 as u64) | ((b1 as u64) << 8) | ((b2 as u64) << 16) | ((b3 as u64) << 24) | ((
    b4 as u64) << 32) | ((b5 as u64) << 40) | ((b6 as u64) << 48) | ((b7 as u64) << 56);
    proof {
        reveal(u64_of_8);
        let b = data@.skip(pos as int);
        assert(b.len() >= 8);
        assert(b[0] == b0 && b[1] == b1 && b[2] == b2 && b[3] == b3 && b[4] == b4 && b[5] == b5
            && b[6] == b6 && b[7] == b7);
        assert(u64_of_8(b) == v);
        assert(b.skip(8) =~= data@.skip(pos as int + 8));
    }
    Some((v, pos + 8))
}

/// Reads a raw byte string at the position.
pub fn decode_bytes(data: &Vec<u8>, pos: usize) -> (r: Option<(Vec<u8>, usize)>)
    requires
        pos <= data@.len(),
    ensures
        match r {
            Some(p) => dec_bytes(data@.skip(pos as int)) == Some((p.0@, data@.skip(p.1 as int)))
                && pos < p.1 <= data@.len(),
            None => dec_bytes(data@.skip(pos as int)) is None,
        },
{
    let (n, p1) = match decode_u64(data, pos) {
        Some(p) => p,
        None => {
            return None;
        },
    };
    if ((data.len() - p1) as u64) < n {
        proof {
            let b = data@.skip(pos as int);
            assert(dec_u64(b) == Some((n, data@.skip(p1 as int))));
        }
        return None;
    }
    let count = n as usize;
    let mut taken: Vec<u8> = Vec::new();
    let mut i: usize = 0;
    while i < count
        invariant
            data@.len() <= usize::MAX,
            p1 + count <= data@.len(),
            i <= count,
            taken@ =~= data@.subrange(p1 as int, p1 as int + i as int),
        decreases count - i,
    {
        assert(p1 + i < data@.len());
        taken.push(data[p1 + i]);
        i = i + 1;
    }
    proof {
        let b = data@.skip(pos as int);
        let rest = data@.skip(p1 as int);
        assert(taken@ =~= rest.take(n as int));
        assert(rest.skip(n as int) =~= data@.skip(p1 as int + count as int));
    }
    Some((taken, p1 + count))
}

/// Relies on std's `String::from_utf8`: it succeeds exactly on valid
/// UTF-8 and returns the string whose byte encoding is the input.
#[verifier::external_body]
fn bytes_to_string(v: Vec<u8>) -> (r: Option<String>)
    ensures
        match r {
            Some(s) => valid_utf8(v@) && s@ == decode_utf8(v@),
            None => !valid_utf8(v@),
        },
{
    String::from_utf8(v).ok()
}

/// Appends the wire form of a string.
pub fn encode_string(out: &mut Vec<u8>, s: &str)
    ensures
        final(out)@ == old(out)@ + enc_str(s@),
        str_fits(s@),
{
    let bytes = s.as_bytes();
    encode_u64(out, bytes.len() as u64);
    out.extend_from_slice(bytes);
    proof {
        reveal(enc_str);
        assert(out@ =~= old(out)@ + enc_str(s@));
    }
}

/// True of two byte strings holding the same bytes.
pub fn bytes_eq(a: &Vec<u8>, b: &Vec<u8>) -> (r: bool)
    ensures
        r == (a@ == b@),
{
    if a.len() != b.len() {
        return false;
    }
    let mut i: usize = 0;
    while i < a.len()
        invariant
            a@.len() == b@.len(),
            i <= a@.len(),
            forall|j: int| 0 <= j < i ==> a@[j] == b@[j],
        decreases a@.len() - i,
    {
        if a[i] != b[i] {
            return false;
        }
        i = i + 1;
    }
    proof {
        assert(a@ =~= b@);
    }
    true
}

/// Reads a string at the position.
pub fn decode_string(data: &Vec<u8>, pos: usize) -> (r: Option<(String, usize)>)
    requires
        pos <= data@.len(),
    ensures
        match r {
            Some(p) => dec_str(data@.skip(pos as int)) == Some((p.0@, data@.skip(p.1 as int)))
                && pos < p.1 <= data@.len(),
            None => dec_str(data@.skip(pos as int)) is None,
        },
{
    proof {
        reveal(dec_str);
    }
    let (bytes, p1) = match decode_bytes(data, pos) {
        Some(p) => p,
        None => {
            return None;
        },
    };
    match bytes_to_string(bytes) {
        Some(s) => Some((s, p1)),
        None => None,
    }
}

} // verus!
