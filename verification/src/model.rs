//! The mathematical model of the tree: what the root digest, an inclusion
//! proof, and proof verification are, as pure functions over sequences.
//!
//! The leaf-slot sequence always has power-of-two length. `spec_subroot`
//! gives the digest of the subtree over a contiguous slot interval;
//! `spec_proof_in` gives the sibling digests met on the descent to one slot,
//! closest-to-leaf first; `spec_reconstruct` is the verifier's fold, which
//! consumes the siblings in that same order while halving the index.

use vstd::prelude::*;

verus! {

use vstd::arithmetic::div_mod::lemma_div_denominator;
use vstd::arithmetic::div_mod::lemma_fundamental_div_mod;
use vstd::arithmetic::div_mod::lemma_fundamental_div_mod_converse;
use vstd::arithmetic::power2::is_pow2;
use vstd::arithmetic::power2::lemma2_to64;
use vstd::arithmetic::power2::lemma_pow2_pos;
use vstd::arithmetic::power2::lemma_pow2_unfold;
use vstd::arithmetic::power2::pow2;
use crate::hashing::Hashable;
use crate::hashing::spec_hash_values;

/// The digest of two child digests, left before right: the one combination
/// step used at every internal level of the tree.
pub open spec fn spec_combine(l: u64, r: u64) -> u64 {
    spec_hash_values(seq![l, r])
}

/// The digest of one leaf slot (presence tag included, so padding hashes
/// apart from every present value).
pub open spec fn spec_leaf_hash<T: Hashable>(slot: Option<T>) -> u64 {
    spec_hash_values(seq![slot])
}

/// The leaf digests of a slot sequence, in slot order.
pub open spec fn digests_of<T: Hashable>(slots: Seq<Option<T>>) -> Seq<u64> {
    slots.map(|i: int, s: Option<T>| spec_leaf_hash(s))
}

/// The smallest power of two that is at least `max(n, 1)`.
pub open spec fn spec_pow2_ceil(n: int) -> int
    decreases n,
{
    if n <= 1 {
        1
    } else {
        2 * spec_pow2_ceil((n + 1) / 2)
    }
}

/// The leaf-slot sequence committed for an input sequence: every value
/// wrapped in `Some`, in order, then `None` padding up to the next power of
/// two (one padding slot for an empty input).
pub open spec fn spec_pad<T>(vs: Seq<T>) -> Seq<Option<T>> {
    vs.map(|i: int, v: T| Some(v)) + Seq::new(
        (spec_pow2_ceil(vs.len() as int) - vs.len()) as nat,
        |i: int| None::<T>,
    )
}

/// The digest of the subtree over the `len` leaf digests starting at `lo`.
pub open spec fn spec_subroot(ds: Seq<u64>, lo: int, len: int) -> u64
    decreases len,
{
    if len <= 1 {
        ds[lo]
    } else {
        spec_combine(spec_subroot(ds, lo, len / 2), spec_subroot(ds, lo + len / 2, len / 2))
    }
}

/// The root digest over a full leaf-digest sequence.
pub open spec fn spec_root_of(ds: Seq<u64>) -> u64 {
    spec_subroot(ds, 0, ds.len() as int)
}

/// The sibling digests met while descending from the subtree over
/// `[lo, lo + len)` to leaf `i`, ordered closest-to-leaf first.
pub open spec fn spec_proof_in(ds: Seq<u64>, lo: int, len: int, i: int) -> Seq<u64>
    decreases len,
{
    if len <= 1 {
        Seq::empty()
    } else if i < lo + len / 2 {
        spec_proof_in(ds, lo, len / 2, i).push(spec_subroot(ds, lo + len / 2, len / 2))
    } else {
        spec_proof_in(ds, lo + len / 2, len / 2, i).push(spec_subroot(ds, lo, len / 2))
    }
}

/// The inclusion proof for leaf `i` of a full leaf-digest sequence.
pub open spec fn spec_proof(ds: Seq<u64>, i: int) -> Seq<u64> {
    spec_proof_in(ds, 0, ds.len() as int, i)
}

/// The verifier's fold: starting from one leaf digest and its index,
/// combine each sibling on the correct side (right child when the current
/// index bit is set), halving the index after every step.
pub open spec fn spec_reconstruct(cur: u64, i: nat, siblings: Seq<u64>) -> u64
    decreases siblings.len(),
{
    if siblings.len() == 0 {
        cur
    } else {
        let next = if i % 2 == 1 {
            spec_combine(siblings[0], cur)
        } else {
            spec_combine(cur, siblings[0])
        };
        spec_reconstruct(next, i / 2, siblings.drop_first())
    }
}

/// The root digest that committing `vs` yields.
pub open spec fn spec_commit_root<T: Hashable>(vs: Seq<T>) -> u64 {
    spec_root_of(digests_of(spec_pad(vs)))
}

pub(crate) proof fn lemma_is_pow2_one()
    ensures
        is_pow2(1),
{
    reveal(vstd::arithmetic::power2::is_pow2);
}

pub(crate) proof fn lemma_is_pow2_pos(p: int)
    requires
        is_pow2(p),
    ensures
        p >= 1,
{
    reveal(vstd::arithmetic::power2::is_pow2);
}

pub(crate) proof fn lemma_is_pow2_double(p: int)
    requires
        is_pow2(p),
    ensures
        is_pow2(2 * p),
{
    reveal(vstd::arithmetic::power2::is_pow2);
}

pub(crate) proof fn lemma_is_pow2_halves(p: int)
    requires
        is_pow2(p),
        p >= 2,
    ensures
        p % 2 == 0,
        is_pow2(p / 2),
        p / 2 >= 1,
        p / 2 + p / 2 == p,
{
    reveal(vstd::arithmetic::power2::is_pow2);
    lemma_is_pow2_pos(p / 2);
}

pub(crate) proof fn lemma_pow2_ceil_props(n: int)
    ensures
        spec_pow2_ceil(n) >= 1,
        spec_pow2_ceil(n) >= n,
        is_pow2(spec_pow2_ceil(n)),
    decreases n,
{
    if n <= 1 {
        lemma_is_pow2_one();
    } else {
        let m = (n + 1) / 2;
        lemma_pow2_ceil_props(m);
        lemma_is_pow2_double(spec_pow2_ceil(m));
        lemma_fundamental_div_mod(n + 1, 2);
    }
}

/// Between one power of two and a larger one there is a factor of two.
pub(crate) proof fn lemma_two_pow2s(a: int, b: int)
    requires
        is_pow2(a),
        is_pow2(b),
        a < b,
    ensures
        2 * a <= b,
    decreases a,
{
    reveal(vstd::arithmetic::power2::is_pow2);
    if a > 1 {
        lemma_two_pow2s(a / 2, b / 2);
    }
}

/// `spec_pow2_ceil(n)` is the least power of two at or above `n`.
pub(crate) proof fn lemma_pow2_le_ceil(p: int, n: int)
    requires
        is_pow2(p),
        p >= n,
    ensures
        p >= spec_pow2_ceil(n),
    decreases n,
{
    reveal(vstd::arithmetic::power2::is_pow2);
    if n <= 1 {
        lemma_is_pow2_pos(p);
    } else {
        lemma_is_pow2_halves(p);
        lemma_fundamental_div_mod(n + 1, 2);
        lemma_pow2_le_ceil(p / 2, (n + 1) / 2);
    }
}

/// A subtree digest reads only the digests inside its own interval.
pub(crate) proof fn lemma_subroot_frame(ds1: Seq<u64>, ds2: Seq<u64>, lo: int, len: int)
    requires
        0 <= lo,
        1 <= len,
        lo + len <= ds1.len(),
        lo + len <= ds2.len(),
        forall|k: int| lo <= k < lo + len ==> ds1[k] == ds2[k],
    ensures
        spec_subroot(ds1, lo, len) == spec_subroot(ds2, lo, len),
    decreases len,
{
    if len > 1 {
        lemma_subroot_frame(ds1, ds2, lo, len / 2);
        lemma_subroot_frame(ds1, ds2, lo + len / 2, len / 2);
    }
}

/// Updating one slot updates exactly one leaf digest.
pub(crate) proof fn lemma_digests_update<T: Hashable>(slots: Seq<Option<T>>, i: int, s: Option<T>)
    requires
        0 <= i < slots.len(),
    ensures
        digests_of(slots.update(i, s)) =~= digests_of(slots).update(i, spec_leaf_hash(s)),
{
}

/// Appending one sibling to the fold combines it at the top, on the side
/// named by the next-higher index bit.
pub(crate) proof fn lemma_reconstruct_push(cur: u64, i: nat, p: Seq<u64>, x: u64)
    ensures
        spec_reconstruct(cur, i, p.push(x)) == (if (i / pow2(p.len())) % 2 == 1 {
            spec_combine(x, spec_reconstruct(cur, i, p))
        } else {
            spec_combine(spec_reconstruct(cur, i, p), x)
        }),
    decreases p.len(),
{
    if p.len() == 0 {
        reveal_with_fuel(spec_reconstruct, 2);
        lemma2_to64();
        assert(p.push(x).drop_first() =~= Seq::<u64>::empty());
    } else {
        let pdf = p.drop_first();
        let next = if i % 2 == 1 {
            spec_combine(p[0], cur)
        } else {
            spec_combine(cur, p[0])
        };
        assert(p.push(x).drop_first() =~= pdf.push(x));
        lemma_reconstruct_push(next, i / 2, pdf, x);
        lemma_pow2_unfold(p.len());
        lemma_pow2_pos((p.len() - 1) as nat);
        lemma_div_denominator(i as int, 2, pow2((p.len() - 1) as nat) as int);
    }
}

/// The fold reads only as many low index bits as it has siblings.
pub(crate) proof fn lemma_reconstruct_high_bits(cur: u64, j: nat, k: nat, p: Seq<u64>)
    ensures
        spec_reconstruct(cur, (j + k * pow2(p.len())) as nat, p) == spec_reconstruct(cur, j, p),
    decreases p.len(),
{
    if p.len() > 0 {
        lemma_pow2_unfold(p.len());
        let h = pow2((p.len() - 1) as nat);
        let t = (k * h) as nat;
        assert(k * pow2(p.len()) == 2 * t) by (nonlinear_arith)
            requires
                pow2(p.len()) == 2 * h,
                t == k * h,
        ;
        let jj = (j + 2 * t) as nat;
        lemma_fundamental_div_mod(j as int, 2);
        lemma_fundamental_div_mod_converse(jj as int, 2, j as int / 2 + t, j as int % 2);
        assert(jj % 2 == j % 2);
        assert(jj / 2 == j / 2 + t);
        let next = if j % 2 == 1 {
            spec_combine(p[0], cur)
        } else {
            spec_combine(cur, p[0])
        };
        lemma_reconstruct_high_bits(next, j / 2, k, p.drop_first());
    }
}

/// Soundness of the sibling path within one subtree: folding the leaf digest
/// at `i` with the path extracted for `i` rebuilds exactly the subtree digest,
/// and the path is one sibling per level.
pub(crate) proof fn lemma_subtree_sound(ds: Seq<u64>, lo: int, len: int, i: int)
    requires
        is_pow2(len),
        0 <= lo,
        lo + len <= ds.len(),
        lo <= i < lo + len,
    ensures
        pow2(spec_proof_in(ds, lo, len, i).len()) == len,
        spec_reconstruct(ds[i], (i - lo) as nat, spec_proof_in(ds, lo, len, i)) == spec_subroot(
            ds,
            lo,
            len,
        ),
    decreases len,
{
    lemma_is_pow2_pos(len);
    if len == 1 {
        lemma2_to64();
    } else {
        lemma_is_pow2_halves(len);
        let h = len / 2;
        let rel = (i - lo) as nat;
        if i < lo + h {
            let p = spec_proof_in(ds, lo, h, i);
            let x = spec_subroot(ds, lo + h, h);
            lemma_subtree_sound(ds, lo, h, i);
            lemma_reconstruct_push(ds[i], rel, p, x);
            lemma_fundamental_div_mod_converse(rel as int, h, 0, rel as int);
            lemma_pow2_unfold((p.len() + 1) as nat);
        } else {
            let p = spec_proof_in(ds, lo + h, h, i);
            let x = spec_subroot(ds, lo, h);
            lemma_subtree_sound(ds, lo + h, h, i);
            lemma_reconstruct_high_bits(ds[i], (i - lo - h) as nat, 1, p);
            assert((i - lo - h) + 1 * pow2(p.len()) == rel);
            lemma_reconstruct_push(ds[i], rel, p, x);
            lemma_fundamental_div_mod_converse(rel as int, h, 1, (i - lo - h) as int);
            lemma_pow2_unfold((p.len() + 1) as nat);
        }
    }
}

/// Soundness at the root: for every leaf index of a power-of-two digest
/// sequence, folding that leaf's digest with its extracted proof yields the
/// root digest.
pub(crate) proof fn lemma_root_sound(ds: Seq<u64>, i: int)
    requires
        is_pow2(ds.len() as int),
        0 <= i < ds.len(),
    ensures
        pow2(spec_proof(ds, i).len()) == ds.len(),
        spec_reconstruct(ds[i], i as nat, spec_proof(ds, i)) == spec_root_of(ds),
{
    lemma_subtree_sound(ds, 0, ds.len() as int, i);
}

} // verus!
