//! Proof of work: compact difficulty decoding and the nonce search.
//!
//! The 32-bit `bits` value is a base-256 floating-point encoding of a
//! 256-bit target: an 8-bit exponent over a 24-bit mantissa. A block
//! proves its work by a header digest that, read as a big-endian
//! 256-bit number, does not exceed the target.

use vstd::prelude::*;

verus! {

use crate::coder;
use crate::coder::digest_of;
use crate::block::{Block, HeaderView, enc_header};
use crate::ChainError;

/// Upper bound of the nonce search space.
pub const MAX_NONCE: u32 = 0x7FFFFFFF;

/// A byte string read as a big-endian unsigned number.
pub open spec fn be_val(s: Seq<u8>) -> nat
    decreases s.len(),
{
    if s.len() == 0 {
        0
    } else {
        (be_val(s.drop_last()) * 256 + s.last()) as nat
    }
}

/// Big-endian strings of equal length order lexicographically: the
/// first differing byte decides.
pub proof fn lemma_be_lex(a: Seq<u8>, b: Seq<u8>, k: int)
    requires
        a.len() == b.len(),
        0 <= k < a.len(),
        forall|j: int| 0 <= j < k ==> a[j] == b[j],
        a[k] < b[k],
    ensures
        be_val(a) < be_val(b),
    decreases a.len(),
{
    if k == a.len() - 1 {
        assert(a.drop_last() =~= b.drop_last());
    } else {
        lemma_be_lex(a.drop_last(), b.drop_last(), k);
        let x = be_val(a.drop_last());
        let y = be_val(b.drop_last());
        assert(x + 1 <= y);
        assert(x * 256 + 256 <= y * 256) by (nonlinear_arith)
            requires
                x + 1 <= y,
        ;
    }
}

/// `<=` on digests read as big-endian 256-bit numbers.
pub fn digest_le(a: &[u8; 32], b: &[u8; 32]) -> (r: bool)
    ensures
        r == (be_val(a@) <= be_val(b@)),
{
    let mut i: usize = 0;
    while i < 32
        invariant
            i <= 32,
            forall|j: int| 0 <= j < i ==> a@[j] == b@[j],
        decreases 32 - i,
    {
        if a[i] < b[i] {
            proof {
                lemma_be_lex(a@, b@, i as int);
            }
            return true;
        }
        if a[i] > b[i] {
            proof {
                lemma_be_lex(b@, a@, i as int);
            }
            return false;
        }
        i = i + 1;
    }
    assert(a@ =~= b@);
    true
}

/// The mantissa: the low 24 bits of a compact difficulty value.
pub open spec fn mantissa_of(bits: u32) -> u32 {
    bits & 0xFFFFFF
}

/// The exponent: the top byte of a compact difficulty value.
pub open spec fn exponent_of(bits: u32) -> u32 {
    bits >> 24
}

/// Byte `i` (big-endian) of the decoded target: the mantissa's three
/// bytes shifted by the exponent, bytes shifted out either end
/// discarded; a mantissa above `0x7FFFFF` (its sign bit set) is
/// rejected and decodes to the all-zero target.
pub open spec fn target_byte(bits: u32, i: int) -> u8 {
    let m = mantissa_of(bits);
    let j = 34 - i - exponent_of(bits);
    if m > 0x7FFFFF {
        0
    } else if j == 0 {
        (m & 0xFF) as u8
    } else if j == 1 {
        ((m >> 8) & 0xFF) as u8
    } else if j == 2 {
        ((m >> 16) & 0xFF) as u8
    } else {
        0
    }
}

/// The decoded target, as 32 big-endian bytes.
pub open spec fn target_bytes(bits: u32) -> Seq<u8> {
    Seq::new(32, |i: int| target_byte(bits, i))
}

pub struct ProofOfWork {
    /// The decoded 256-bit target, big-endian.
    pub target: [u8; 32],
}

/// The header digest tried at a given nonce.
pub open spec fn header_with_nonce(h: HeaderView, n: u32) -> HeaderView {
    HeaderView { nonce: n, ..h }
}

pub open spec fn attempt(h: HeaderView, n: u32) -> Seq<u8> {
    digest_of(enc_header(header_with_nonce(h, n)))
}

/// `n` wins the search for `h` against `target`: its digest meets the
/// target and no smaller nonce's does.
pub open spec fn pow_wins(h: HeaderView, target: Seq<u8>, n: u32) -> bool {
    &&& be_val(attempt(h, n)) <= be_val(target)
    &&& forall|k: u32| k < n ==> be_val(#[trigger] attempt(h, k)) > be_val(target)
}

/// The search is deterministic: a fixed header and target admit one
/// winning nonce at most.
pub proof fn lemma_pow_deterministic(h: HeaderView, target: Seq<u8>, n1: u32, n2: u32)
    requires
        pow_wins(h, target, n1),
        pow_wins(h, target, n2),
    ensures
        n1 == n2,
{
    if n1 < n2 {
        assert(be_val(attempt(h, n1)) > be_val(target));
    }
    if n2 < n1 {
        assert(be_val(attempt(h, n2)) > be_val(target));
    }
}

impl ProofOfWork {
    /// Decodes the compact difficulty into the 256-bit target.
    pub fn new(bits: u32) -> (pow: ProofOfWork)
        ensures
            pow.target@ =~= target_bytes(bits),
    {
        let mantissa = bits & 0xFFFFFF;
        let mut target = [0u8; 32];
        if mantissa > 0x7FFFFF {
            assert(target@ =~= target_bytes(bits));
            return ProofOfWork { target };
        }

        let exponent = (bits >> 24) as u64;
        let m0 = (mantissa & 0xFF) as u8;
        let m1 = ((mantissa >> 8) & 0xFF) as u8;
        let m2 = ((mantissa >> 16) & 0xFF) as u8;
        if exponent + 0 <= 34 && 34 - exponent - 0 <= 31 {
            target[(34 - exponent - 0) as usize] = m0;
        }
        if exponent + 1 <= 34 && 34 - exponent - 1 <= 31 {
            target[(34 - exponent - 1) as usize] = m1;
        }
        if exponent + 2 <= 34 && 34 - exponent - 2 <= 31 {
            target[(34 - exponent - 2) as usize] = m2;
        }
        assert forall|i: int| 0 <= i < 32 implies target@[i] == target_byte(bits, i) by {
            assert(exponent == exponent_of(bits));
            assert(mantissa == mantissa_of(bits));
        }
        assert(target@ =~= target_bytes(bits));
        ProofOfWork { target }
    }

    /// Sets the header's nonce and encodes the header: the bytes the
    /// search digests at that nonce.
    pub fn block_header_se(b: &mut Block, nonce: u32) -> (r: Vec<u8>)
        ensures
            final(b)@.header == header_with_nonce(old(b)@.header, nonce),
            final(b).hash == old(b).hash,
            final(b).transactions == old(b).transactions,
            r@ =~= enc_header(header_with_nonce(old(b)@.header, nonce)),
    {
        b.header.nonce = nonce;
        assert(b@.header =~= header_with_nonce(old(b)@.header, nonce));
        b.header.encode()
    }

    /// Runs the bounded nonce search.
    ///
    /// On success the block's nonce is the least winning one and its
    /// hash is the winning digest; everything else stays. When every
    /// nonce up to `MAX_NONCE` misses the target, the search reports
    /// `MiningExhausted` and the block stays unfinalized (its hash
    /// unchanged, the nonce left at the bound).
    pub fn run(&self, b: &mut Block) -> (r: Result<(), ChainError>)
        ensures
            final(b)@.header.height == old(b)@.header.height,
            final(b)@.header.time == old(b)@.header.time,
            final(b)@.header.tx_hash == old(b)@.header.tx_hash,
            final(b)@.header.pre_hash == old(b)@.header.pre_hash,
            final(b)@.header.bits == old(b)@.header.bits,
            final(b)@.header.state_root == old(b)@.header.state_root,
            final(b).transactions == old(b).transactions,
            r is Ok ==> final(b)@.header.nonce <= MAX_NONCE && pow_wins(
                old(b)@.header,
                self.target@,
                final(b)@.header.nonce,
            ) && final(b).hash@ == attempt(old(b)@.header, final(b)@.header.nonce),
            r is Err ==> r == Result::<(), ChainError>::Err(ChainError::MiningExhausted)
                && final(b).hash == old(b).hash && final(b)@.header.nonce == MAX_NONCE
                && forall|k: u32|
                k <= MAX_NONCE ==> be_val(#[trigger] attempt(old(b)@.header, k)) > be_val(
                    self.target@,
                ),
    {
        let mut nonce: u32 = 0;
        loop
            invariant
                nonce <= MAX_NONCE,
                b@.header == header_with_nonce(old(b)@.header, b@.header.nonce),
                b.hash == old(b).hash,
                b.transactions == old(b).transactions,
                forall|k: u32|
                    k < nonce ==> be_val(#[trigger] attempt(old(b)@.header, k)) > be_val(
                        self.target@,
                    ),
            decreases MAX_NONCE - nonce,
        {
            let data = Self::block_header_se(b, nonce);
            proof {
                assert(header_with_nonce(b@.header, nonce) =~= header_with_nonce(
                    old(b)@.header,
                    nonce,
                ));
            }
            let hash = coder::get_hash(data.as_slice());
            if digest_le(&hash, &self.target) {
                b.hash = hash;
                return Ok(());
            }
            if nonce == MAX_NONCE {
                return Err(ChainError::MiningExhausted);
            }
            nonce = nonce + 1;
        }
    }
}

} // verus!


