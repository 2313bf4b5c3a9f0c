//! The hash combinator: one code path that digests an ordered list of
//! hashable parts into a fixed-width `u64` digest.
//!
//! Determinism comes from `std`'s `DefaultHasher`, whose behaviour vstd
//! models: the hasher's abstract state is the sequence of byte strings
//! written to it, and `finish` is a fixed function of that state.

use vstd::prelude::*;

verus! {

use std::collections::hash_map::DefaultHasher;
use std::hash::Hasher;
use vstd::std_specs::hash::DefaultHasherAdditionalSpecFns;

/// The `n` little-endian bytes of `x` (low byte first).
pub open spec fn spec_le_bytes(x: u128, n: nat) -> Seq<u8>
    decreases n,
{
    if n == 0 {
        Seq::empty()
    } else {
        seq![(x % 256) as u8] + spec_le_bytes(x / 256, (n - 1) as nat)
    }
}

/// Render the `n` little-endian bytes of `x`.
fn le_bytes(x: u128, n: usize) -> (r: Vec<u8>)
    ensures
        r@ == spec_le_bytes(x, n as nat),
    decreases n,
{
    if n == 0 {
        let r: Vec<u8> = Vec::new();
        proof {
            assert(r@ =~= spec_le_bytes(x, 0));
        }
        r
    } else {
        let mut r: Vec<u8> = Vec::new();
        r.push((x % 256) as u8);
        let mut rest = le_bytes(x / 256, n - 1);
        r.append(&mut rest);
        proof {
            assert(r@ =~= spec_le_bytes(x, n as nat));
        }
        r
    }
}

/// A value the tree can commit to: it renders itself as a byte string, and
/// that rendering is the only thing the hash combinator ever sees of it.
pub trait Hashable: Sized {
    /// The byte string that stands for this value under hashing.
    spec fn encoding(&self) -> Seq<u8>;

    /// Produce the byte string that `encoding` describes.
    fn encode(&self) -> (r: Vec<u8>)
        ensures
            r@ == self.encoding(),
    ;
}

impl Hashable for u64 {
    open spec fn encoding(&self) -> Seq<u8> {
        spec_le_bytes(*self as u128, 8)
    }

    fn encode(&self) -> (r: Vec<u8>) {
        le_bytes(*self as u128, 8)
    }
}

impl Hashable for i32 {
    open spec fn encoding(&self) -> Seq<u8> {
        spec_le_bytes((*self as u32) as u128, 4)
    }

    fn encode(&self) -> (r: Vec<u8>) {
        le_bytes(#[verifier::truncate] (*self as u32) as u128, 4)
    }
}

impl Hashable for i64 {
    open spec fn encoding(&self) -> Seq<u8> {
        spec_le_bytes((*self as u64) as u128, 8)
    }

    fn encode(&self) -> (r: Vec<u8>) {
        le_bytes(#[verifier::truncate] (*self as u64) as u128, 8)
    }
}

impl Hashable for u128 {
    open spec fn encoding(&self) -> Seq<u8> {
        spec_le_bytes(*self, 16)
    }

    fn encode(&self) -> (r: Vec<u8>) {
        le_bytes(*self, 16)
    }
}

/// A leaf slot: `None` is a padding slot and must hash apart from every
/// present value, so the presence tag is always part of the rendering.
impl<T: Hashable> Hashable for Option<T> {
    open spec fn encoding(&self) -> Seq<u8> {
        match self {
            None => seq![0u8],
            Some(v) => seq![1u8] + v.encoding(),
        }
    }

    fn encode(&self) -> (r: Vec<u8>) {
        match self {
            None => {
                let mut r: Vec<u8> = Vec::new();
                r.push(0u8);
                proof {
                    assert(r@ =~= self.encoding());
                }
                r
            },
            Some(v) => {
                let mut r: Vec<u8> = Vec::new();
                r.push(1u8);
                let mut rest = v.encode();
                r.append(&mut rest);
                proof {
                    assert(r@ =~= self.encoding());
                }
                r
            },
        }
    }
}

/// The byte strings that stand for the values of `vs`, in order.
pub open spec fn encodings_of<H: Hashable>(vs: Seq<H>) -> Seq<Seq<u8>> {
    vs.map(|i: int, v: H| v.encoding())
}

/// The digest that `hash_values` computes for the values of `vs`.
pub open spec fn spec_hash_values<H: Hashable>(vs: Seq<H>) -> u64 {
    DefaultHasher::spec_finish(encodings_of(vs))
}

/// Digest an ordered list of hashable values: each value's rendering is
/// written, in order, to one fresh hasher, whose output is the digest.
pub fn hash_values<H: Hashable>(values: Vec<H>) -> (r: u64)
    ensures
        r == spec_hash_values(values@),
{
    let mut hasher = DefaultHasher::new();
    proof {
        assert(encodings_of(values@.take(0)) =~= hasher@);
    }
    let mut i: usize = 0;
    while i < values.len()
        invariant
            i <= values.len(),
            hasher@ == encodings_of(values@.take(i as int)),
        decreases values.len() - i,
    {
        let bytes = values[i].encode();
        hasher.write(bytes.as_slice());
        proof {
            assert(encodings_of(values@.take(i + 1)) =~= encodings_of(
                values@.take(i as int),
            ).push(values@[i as int].encoding()));
        }
        i += 1;
    }
    proof {
        assert(values@.take(values.len() as int) =~= values@);
    }
    hasher.finish()
}

} // verus!
