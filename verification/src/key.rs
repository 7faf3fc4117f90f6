//! Storage keys: fixed 256-bit big-endian values the key-value store
//! orders its records by.

use vstd::prelude::*;

verus! {

use crate::coder::zero32;

/// A 256-bit store key, held as 32 big-endian bytes.
#[derive(Clone, Copy, Debug)]
pub struct MyKey {
    pub val: [u8; 32],
}

/// The key of the tail pointer record: the bytes of the marker word
/// `"tail"`, right-aligned in 32 bytes.
pub open spec fn tail_key_bytes() -> Seq<u8> {
    zero32().update(28, 0x74u8).update(29, 0x61u8).update(30, 0x69u8).update(31, 0x6cu8)
}

impl MyKey {
    /// A key from exactly 32 bytes.
    pub fn from_u8(key: &[u8]) -> (r: MyKey)
        requires
            key@.len() == 32,
        ensures
            r.val@ =~= key@,
    {
        let mut val = [0u8; 32];
        let mut i: usize = 0;
        while i < 32
            invariant
                i <= 32,
                key@.len() == 32,
                val@.len() == 32,
                forall|j: int| 0 <= j < i ==> val@[j] == key@[j],
            decreases 32 - i,
        {
            val[i] = key[i];
            i = i + 1;
        }
        MyKey { val }
    }

    /// The key's bytes.
    pub fn as_slice(&self) -> (r: &[u8; 32])
        ensures
            r@ =~= self.val@,
    {
        &self.val
    }

    /// The key a block record is stored under: the block's hash itself.
    pub fn for_block_hash(hash: &[u8; 32]) -> (r: MyKey)
        ensures
            r.val@ =~= hash@,
    {
        MyKey { val: *hash }
    }

    /// The key of the tail pointer record.
    pub fn for_tail() -> (r: MyKey)
        ensures
            r.val@ =~= tail_key_bytes(),
    {
        let mut val = [0u8; 32];
        val[28] = 0x74;
        val[29] = 0x61;
        val[30] = 0x69;
        val[31] = 0x6c;
        assert(val@ =~= tail_key_bytes());
        MyKey { val }
    }
}

} // verus!
