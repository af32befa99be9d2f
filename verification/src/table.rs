//! String hashing (FNV-1a, 32-bit) and the table type reserved for future
//! string interning.

use crate::runtime_val::RuntimeValue;
use vstd::prelude::*;
use vstd::string::StringSliceAdditionalSpecFns;

verus! {

/// The FNV-1a offset basis.
pub const FNV_OFFSET_BASIS: u32 = 0x811C9DC5;

/// The FNV-1a prime.
pub const FNV_PRIME: u32 = 0x01000193;

/// One FNV-1a round: fold a byte into the running hash.
pub open spec fn fnv1a_step(h: u32, b: u8) -> u32 {
    ((((h ^ (b as u32)) as nat) * (FNV_PRIME as nat)) % 0x1_0000_0000nat) as u32
}

/// FNV-1a over a byte sequence, starting from the offset basis.
pub open spec fn fnv1a(bytes: Seq<u8>) -> u32
    decreases bytes.len(),
{
    if bytes.len() == 0 {
        FNV_OFFSET_BASIS
    } else {
        fnv1a_step(fnv1a(bytes.drop_last()), bytes.last())
    }
}

/// The 32-bit FNV-1a hash of the UTF-8 bytes of `s`: initial `0x811C9DC5`,
/// then for each byte `b`: `h = (h XOR b) * 0x01000193` modulo 2^32.
pub fn hash_str(s: &str) -> (h: u32)
    ensures
        h == fnv1a(s.spec_bytes()),
{
    let bytes = s.as_bytes();
    let mut h: u32 = FNV_OFFSET_BASIS;
    let mut i: usize = 0;
    proof {
        assert(s.spec_bytes().subrange(0, 0) =~= Seq::<u8>::empty());
    }
    while i < bytes.len()
        invariant
            i <= bytes@.len(),
            bytes@ == s.spec_bytes(),
            h == fnv1a(s.spec_bytes().subrange(0, i as int)),
        decreases bytes@.len() - i,
    {
        let b = bytes[i];
        proof {
            assert(s.spec_bytes().subrange(0, i + 1).drop_last() =~= s.spec_bytes().subrange(
                0,
                i as int,
            ));
            assert(s.spec_bytes().subrange(0, i + 1).last() == s.spec_bytes()[i as int]);
        }
        h = (h ^ (b as u32)).wrapping_mul(FNV_PRIME);
        i = i + 1;
    }
    proof {
        assert(s.spec_bytes().subrange(0, s.spec_bytes().len() as int) =~= s.spec_bytes());
    }
    h
}

/// A hash-table entry: a handle to an interned string object and its value.
/// Reserved for future string interning; nothing consults it yet.
pub struct Entry {
    pub key: usize,
    pub value: RuntimeValue,
}

/// A table keyed by string objects. Reserved for future string interning.
pub struct Table {
    pub entries: Vec<Entry>,
}

} // verus!
