use vstd::prelude::*;
use vstd::std_specs::iter::IteratorSpec;

verus! {

broadcast use vstd::string::axiom_spec_iter, vstd::string::next_postcondition;

/// Offset basis of the 64-bit FNV-1a hash.
pub const FNV_OFFSET: u64 = 0xcbf29ce484222325;

/// Prime of the 64-bit FNV-1a hash.
pub const FNV_PRIME: u64 = 0x100000001b3;

/// One FNV-1a step: fold one character into the running hash.
pub open spec fn fnv_mix(h: u64, c: char) -> u64 {
    vstd::wrapping::u64_specs::wrapping_mul(h ^ (c as u64), FNV_PRIME)
}

/// FNV-1a folded over a character sequence, starting from `h`.
pub open spec fn fnv_fold(h: u64, s: Seq<char>) -> u64
    decreases s.len(),
{
    if s.len() == 0 {
        h
    } else {
        fnv_fold(fnv_mix(h, s[0]), s.drop_first())
    }
}

/// A key the map can store: it can be hashed to a stable 64-bit value,
/// compared, and duplicated, and each operation is pinned to the key's
/// abstract value, so equal keys always hash alike.
pub trait MapKey: View + Sized {
    /// The hash, as a function of the key's abstract value alone.
    spec fn hash_of(v: Self::V) -> u64;

    /// The stable 64-bit hash used for probing.
    fn full_hash(&self) -> (h: u64)
        ensures
            h == Self::hash_of(self@),
    ;

    /// Content equality.
    fn key_eq(&self, other: &Self) -> (r: bool)
        ensures
            r == (self@ == other@),
    ;

    /// A copy with the same abstract value.
    fn dup_key(&self) -> (r: Self)
        ensures
            r@ == self@,
    ;
}

/// A value the map can store: it can be compared and duplicated, both
/// pinned to the value's abstract value.
pub trait MapValue: View + Sized {
    /// Content equality.
    fn val_eq(&self, other: &Self) -> (r: bool)
        ensures
            r == (self@ == other@),
    ;

    /// A copy with the same abstract value.
    fn dup_val(&self) -> (r: Self)
        ensures
            r@ == self@,
    ;
}

impl MapKey for u64 {
    /// An integer hashes to itself.
    open spec fn hash_of(v: u64) -> u64 {
        v
    }

    fn full_hash(&self) -> u64 {
        *self
    }

    fn key_eq(&self, other: &u64) -> bool {
        *self == *other
    }

    fn dup_key(&self) -> u64 {
        *self
    }
}

impl MapValue for u64 {
    fn val_eq(&self, other: &u64) -> bool {
        *self == *other
    }

    fn dup_val(&self) -> u64 {
        *self
    }
}

impl MapKey for i32 {
    /// Sign-agnostic identity hash: the key's two's-complement bits.
    open spec fn hash_of(v: i32) -> u64 {
        v as u64
    }

    fn full_hash(&self) -> u64 {
        *self as u64
    }

    fn key_eq(&self, other: &i32) -> bool {
        *self == *other
    }

    fn dup_key(&self) -> i32 {
        *self
    }
}

impl MapValue for i32 {
    fn val_eq(&self, other: &i32) -> bool {
        *self == *other
    }

    fn dup_val(&self) -> i32 {
        *self
    }
}

impl MapKey for usize {
    /// An integer hashes to itself.
    open spec fn hash_of(v: usize) -> u64 {
        v as u64
    }

    fn full_hash(&self) -> u64 {
        *self as u64
    }

    fn key_eq(&self, other: &usize) -> bool {
        *self == *other
    }

    fn dup_key(&self) -> usize {
        *self
    }
}

impl MapValue for usize {
    fn val_eq(&self, other: &usize) -> bool {
        *self == *other
    }

    fn dup_val(&self) -> usize {
        *self
    }
}

impl MapKey for String {
    /// FNV-1a over the characters of the string.
    open spec fn hash_of(v: Seq<char>) -> u64 {
        fnv_fold(FNV_OFFSET, v)
    }

    fn full_hash(&self) -> (h: u64)
        ensures
            h == Self::hash_of(self@),
    {
        let mut h: u64 = FNV_OFFSET;
        let mut it = self.as_str().chars();
        loop
            invariant
                it.decrease() is Some,
                fnv_fold(h, it.remaining()) == fnv_fold(FNV_OFFSET, self@),
            decreases it.decrease()->0,
        {
            match it.next() {
                Some(c) => {
                    h = (h ^ (c as u64)).wrapping_mul(FNV_PRIME);
                },
                None => {
                    return h;
                },
            }
        }
    }

    fn key_eq(&self, other: &String) -> bool {
        self.eq(other)
    }

    fn dup_key(&self) -> String {
        self.clone()
    }
}

impl MapValue for String {
    fn val_eq(&self, other: &String) -> bool {
        self.eq(other)
    }

    fn dup_val(&self) -> String {
        self.clone()
    }
}

} // verus!
