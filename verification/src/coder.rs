//! Canonical byte encoding and the content digest.
//!
//! Every record of the ledger is committed to by hashing a deterministic
//! byte encoding of its fields in declared order: fixed-width integers in
//! little-endian form, byte arrays verbatim, and strings as their UTF-8
//! bytes behind a 64-bit length prefix.

use vstd::prelude::*;

verus! {

use vstd::utf8::{encode_utf8, decode_utf8, valid_utf8};

/// The digest of a byte sequence, as computed by the fixed 256-bit hash
/// function every commitment in the chain uses.
pub uninterp spec fn digest_of(bytes: Seq<u8>) -> Seq<u8>;

/// Relies on crypto::sha3::Sha3::sha3_256 (input then result): the digest
/// is a function of the input bytes alone, 32 bytes long.
#[verifier::external_body]
pub fn get_hash(value: &[u8]) -> (r: [u8; 32])
    ensures
        r@ == digest_of(value@),
{
    let mut hasher = crypto::sha3::Sha3::sha3_256();
    crypto::digest::Digest::input(&mut hasher, value);
    let mut hash = [0u8; 32];
    crypto::digest::Digest::result(&mut hasher, &mut hash);
    hash
}

/// Relies on chrono::Utc::now (read as Unix seconds): nothing is
/// promised of the clock's value.
#[verifier::external_body]
pub fn now_seconds() -> i64 {
    chrono::Utc::now().timestamp()
}

/// Relies on String::from_utf8: returns the decoding of the bytes exactly
/// when they are valid UTF-8, and an error otherwise.
#[verifier::external_body]
pub fn bytes_to_string(v: Vec<u8>) -> (r: Option<String>)
    ensures
        r is Some <==> valid_utf8(v@),
        r matches Some(s) ==> s@ == decode_utf8(v@),
{
    match String::from_utf8(v) {
        Ok(s) => Some(s),
        Err(_) => None,
    }
}

/// Little-endian bytes of a 64-bit value.
pub open spec fn u64_le(n: u64) -> Seq<u8> {
    seq![
        (n & 0xFF) as u8,
        ((n >> 8) & 0xFF) as u8,
        ((n >> 16) & 0xFF) as u8,
        ((n >> 24) & 0xFF) as u8,
        ((n >> 32) & 0xFF) as u8,
        ((n >> 40) & 0xFF) as u8,
        ((n >> 48) & 0xFF) as u8,
        ((n >> 56) & 0xFF) as u8,
    ]
}

/// The value read back from 8 little-endian bytes.
pub open spec fn u64_from_le(s: Seq<u8>) -> u64
    recommends
        s.len() == 8,
{
    (s[0] as u64) | ((s[1] as u64) << 8) | ((s[2] as u64) << 16) | ((s[3] as u64) << 24)
        | ((s[4] as u64) << 32) | ((s[5] as u64) << 40) | ((s[6] as u64) << 48)
        | ((s[7] as u64) << 56)
}

/// Little-endian bytes of a 32-bit value.
pub open spec fn u32_le(n: u32) -> Seq<u8> {
    seq![
        (n & 0xFF) as u8,
        ((n >> 8) & 0xFF) as u8,
        ((n >> 16) & 0xFF) as u8,
        ((n >> 24) & 0xFF) as u8,
    ]
}

/// The value read back from 4 little-endian bytes.
pub open spec fn u32_from_le(s: Seq<u8>) -> u32
    recommends
        s.len() == 4,
{
    (s[0] as u32) | ((s[1] as u32) << 8) | ((s[2] as u32) << 16) | ((s[3] as u32) << 24)
}

/// Reading the little-endian bytes of a value gives the value back.
pub proof fn lemma_u64_le_from_le(n: u64)
    ensures
        u64_from_le(u64_le(n)) == n,
{
    assert(((n & 0xFF) as u8 as u64) | ((((n >> 8) & 0xFF) as u8 as u64) << 8)
        | ((((n >> 16) & 0xFF) as u8 as u64) << 16) | ((((n >> 24) & 0xFF) as u8 as u64) << 24)
        | ((((n >> 32) & 0xFF) as u8 as u64) << 32) | ((((n >> 40) & 0xFF) as u8 as u64) << 40)
        | ((((n >> 48) & 0xFF) as u8 as u64) << 48) | ((((n >> 56) & 0xFF) as u8 as u64) << 56)
        == n) by (bit_vector);
}

/// Writing back the value read from 8 bytes gives the same bytes.
pub proof fn lemma_u64_from_le_le(s: Seq<u8>)
    requires
        s.len() == 8,
    ensures
        u64_le(u64_from_le(s)) =~= s,
{
    let b0 = s[0];
    let b1 = s[1];
    let b2 = s[2];
    let b3 = s[3];
    let b4 = s[4];
    let b5 = s[5];
    let b6 = s[6];
    let b7 = s[7];
    let n = u64_from_le(s);
    assert({
        let m = (b0 as u64) | ((b1 as u64) << 8) | ((b2 as u64) << 16) | ((b3 as u64) << 24)
            | ((b4 as u64) << 32) | ((b5 as u64) << 40) | ((b6 as u64) << 48)
            | ((b7 as u64) << 56);
        (m & 0xFF) as u8 == b0 && ((m >> 8) & 0xFF) as u8 == b1 && ((m >> 16) & 0xFF) as u8 == b2
            && ((m >> 24) & 0xFF) as u8 == b3 && ((m >> 32) & 0xFF) as u8 == b4
            && ((m >> 40) & 0xFF) as u8 == b5 && ((m >> 48) & 0xFF) as u8 == b6
            && ((m >> 56) & 0xFF) as u8 == b7
    }) by (bit_vector);
}

/// Reading the little-endian bytes of a 32-bit value gives the value back.
pub proof fn lemma_u32_le_from_le(n: u32)
    ensures
        u32_from_le(u32_le(n)) == n,
{
    assert(((n & 0xFF) as u8 as u32) | ((((n >> 8) & 0xFF) as u8 as u32) << 8)
        | ((((n >> 16) & 0xFF) as u8 as u32) << 16) | ((((n >> 24) & 0xFF) as u8 as u32) << 24)
        == n) by (bit_vector);
}

/// A signed 64-bit value round-trips through its unsigned bit pattern.
pub proof fn lemma_i64_cast(t: i64)
    ensures
        (t as u64) as i64 == t,
{
    assert((t as u64) as i64 == t) by (bit_vector);
}

/// Appends the 8 little-endian bytes of `n`.
pub fn push_u64_le(v: &mut Vec<u8>, n: u64)
    ensures
        final(v)@ =~= old(v)@ + u64_le(n),
{
    v.push((n & 0xFF) as u8);
    v.push(((n >> 8) & 0xFF) as u8);
    v.push(((n >> 16) & 0xFF) as u8);
    v.push(((n >> 24) & 0xFF) as u8);
    v.push(((n >> 32) & 0xFF) as u8);
    v.push(((n >> 40) & 0xFF) as u8);
    v.push(((n >> 48) & 0xFF) as u8);
    v.push(((n >> 56) & 0xFF) as u8);
}

/// Appends the 4 little-endian bytes of `n`.
pub fn push_u32_le(v: &mut Vec<u8>, n: u32)
    ensures
        final(v)@ =~= old(v)@ + u32_le(n),
{
    v.push((n & 0xFF) as u8);
    v.push(((n >> 8) & 0xFF) as u8);
    v.push(((n >> 16) & 0xFF) as u8);
    v.push(((n >> 24) & 0xFF) as u8);
}

/// Appends all bytes of a 32-byte array.
pub fn push_bytes32(v: &mut Vec<u8>, b: &[u8; 32])
    ensures
        final(v)@ =~= old(v)@ + b@,
{
    let mut i: usize = 0;
    while i < 32
        invariant
            i <= 32,
            v@ =~= old(v)@ + b@.subrange(0, i as int),
        decreases 32 - i,
    {
        v.push(b[i]);
        i = i + 1;
    }
    assert(b@.subrange(0, 32) =~= b@);
}

/// Reads the u64 encoded at `off`.
pub fn read_u64_le(b: &Vec<u8>, off: usize) -> (r: u64)
    requires
        off + 8 <= b@.len(),
    ensures
        r == u64_from_le(b@.subrange(off as int, off as int + 8)),
{
    let n = b.len();
    let ghost s = b@.subrange(off as int, off as int + 8);
    let r = (b[off] as u64) | ((b[off + 1] as u64) << 8u64) | ((b[off + 2] as u64) << 16u64)
        | ((b[off + 3] as u64) << 24u64) | ((b[off + 4] as u64) << 32u64)
        | ((b[off + 5] as u64) << 40u64) | ((b[off + 6] as u64) << 48u64)
        | ((b[off + 7] as u64) << 56u64);
    assert(s[0] == b@[off as int] && s[1] == b@[off + 1] && s[2] == b@[off + 2] && s[3] == b@[off
        + 3] && s[4] == b@[off + 4] && s[5] == b@[off + 5] && s[6] == b@[off + 6] && s[7] == b@[off
        + 7]);
    r
}

/// Reads the u32 encoded at `off`.
pub fn read_u32_le(b: &Vec<u8>, off: usize) -> (r: u32)
    requires
        off + 4 <= b@.len(),
    ensures
        r == u32_from_le(b@.subrange(off as int, off as int + 4)),
{
    let n = b.len();
    let ghost s = b@.subrange(off as int, off as int + 4);
    let r = (b[off] as u32) | ((b[off + 1] as u32) << 8u32) | ((b[off + 2] as u32) << 16u32)
        | ((b[off + 3] as u32) << 24u32);
    assert(s[0] == b@[off as int] && s[1] == b@[off + 1] && s[2] == b@[off + 2] && s[3] == b@[off
        + 3]);
    r
}

/// Copies the 32 bytes at `off` out as an array.
pub fn read_bytes32(b: &Vec<u8>, off: usize) -> (r: [u8; 32])
    requires
        off + 32 <= b@.len(),
    ensures
        r@ =~= b@.subrange(off as int, off as int + 32),
{
    let n = b.len();
    let mut r = [0u8; 32];
    let mut i: usize = 0;
    while i < 32
        invariant
            i <= 32,
            off + 32 <= n == b@.len(),
            r@.len() == 32,
            forall|j: int| 0 <= j < i ==> r@[j] == b@[off + j],
        decreases 32 - i,
    {
        r[i] = b[off + i];
        i = i + 1;
    }
    r
}

/// The all-zero digest value.
pub open spec fn zero32() -> Seq<u8> {
    Seq::new(32, |i: int| 0u8)
}

/// Byte-for-byte equality of two 32-byte arrays.
pub fn bytes32_eq(a: &[u8; 32], b: &[u8; 32]) -> (r: bool)
    ensures
        r == (a@ =~= b@),
{
    let mut i: usize = 0;
    while i < 32
        invariant
            i <= 32,
            forall|j: int| 0 <= j < i ==> a@[j] == b@[j],
        decreases 32 - i,
    {
        if a[i] != b[i] {
            return false;
        }
        i = i + 1;
    }
    true
}

/// Copies the bytes of `b` in positions `from..to` into a fresh vector.
pub fn copy_range(b: &Vec<u8>, from: usize, to: usize) -> (r: Vec<u8>)
    requires
        from <= to <= b@.len(),
    ensures
        r@ =~= b@.subrange(from as int, to as int),
{
    let mut r: Vec<u8> = Vec::new();
    let mut i: usize = from;
    while i < to
        invariant
            from <= i <= to <= b@.len(),
            r@ =~= b@.subrange(from as int, i as int),
        decreases to - i,
    {
        r.push(b[i]);
        i = i + 1;
    }
    r
}

/// Appends every byte of `other`.
pub fn push_all(v: &mut Vec<u8>, other: &Vec<u8>)
    ensures
        final(v)@ =~= old(v)@ + other@,
{
    let mut i: usize = 0;
    while i < other.len()
        invariant
            i <= other@.len(),
            v@ =~= old(v)@ + other@.subrange(0, i as int),
        decreases other@.len() - i,
    {
        v.push(other[i]);
        i = i + 1;
    }
    assert(other@.subrange(0, other@.len() as int) =~= other@);
}

/// The canonical encoding of a string: a 64-bit byte count, then the
/// UTF-8 bytes themselves.
pub open spec fn enc_str(s: Seq<char>) -> Seq<u8> {
    u64_le(encode_utf8(s).len() as u64) + encode_utf8(s)
}

/// Appends the canonical encoding of `s`.
pub fn push_str(v: &mut Vec<u8>, s: &String)
    ensures
        final(v)@ =~= old(v)@ + enc_str(s@),
{
    let bytes = s.as_str().as_bytes();
    push_u64_le(v, bytes.len() as u64);
    let mut i: usize = 0;
    while i < bytes.len()
        invariant
            i <= bytes@.len(),
            bytes@ == encode_utf8(s@),
            bytes@.len() <= u64::MAX,
            v@ =~= old(v)@ + u64_le(bytes@.len() as u64) + bytes@.subrange(0, i as int),
        decreases bytes@.len() - i,
    {
        v.push(bytes[i]);
        i = i + 1;
    }
    assert(bytes@.subrange(0, bytes@.len() as int) =~= bytes@);
}

} // verus!
