//! The laws the library states about itself, proved over the same spec
//! functions its public contracts use.

use vstd::prelude::*;

verus! {

use vstd::arithmetic::power2::is_pow2;
use crate::hashing::Hashable;
use crate::model::digests_of;
use crate::model::lemma_pow2_ceil_props;
use crate::model::lemma_root_sound;
use crate::model::spec_pow2_ceil;
use crate::model::spec_commit_root;
use crate::model::spec_leaf_hash;
use crate::model::spec_pad;
use crate::model::spec_proof;
use crate::model::spec_reconstruct;
use crate::model::spec_root_of;

/// Construction is deterministic: the committed root digest is a pure
/// function of the input values, so building twice from equal inputs yields
/// identical root digests.
pub proof fn lemma_construction_deterministic<T: Hashable>(vs1: Seq<T>, vs2: Seq<T>)
    requires
        vs1 == vs2,
    ensures
        spec_commit_root(vs1) == spec_commit_root(vs2),
{
}

/// The committed slot sequence is the input padded to the next power of
/// two: at least as long as the input, never empty, and of power-of-two
/// length — which is what the other laws ask of a slot sequence.
pub proof fn lemma_pad_length<T>(vs: Seq<T>)
    ensures
        spec_pad(vs).len() == spec_pow2_ceil(vs.len() as int),
        is_pow2(spec_pad(vs).len() as int),
        spec_pad(vs).len() >= vs.len(),
        spec_pad(vs).len() >= 1,
{
    lemma_pow2_ceil_props(vs.len() as int);
}

/// Proof soundness: for every committed slot sequence, every in-range index
/// holding a value, and the proof extracted for that index, the verifier's
/// fold rebuilds exactly the root digest — so `verify` accepts it.
pub proof fn lemma_proof_soundness<T: Hashable>(slots: Seq<Option<T>>, i: int, v: T)
    requires
        is_pow2(slots.len() as int),
        0 <= i < slots.len(),
        slots[i] == Some(v),
    ensures
        spec_reconstruct(
            spec_leaf_hash(Some(v)),
            i as nat,
            spec_proof(digests_of(slots), i),
        ) == spec_root_of(digests_of(slots)),
{
    lemma_root_sound(digests_of(slots), i);
}

/// Update locality: replacing the value in slot `i` leaves every other
/// slot's value unchanged, and the proof extracted for any other value slot
/// in the updated tree still verifies against the updated root digest.
pub proof fn lemma_update_locality<T: Hashable>(
    slots: Seq<Option<T>>,
    i: int,
    v: T,
    j: int,
    w: T,
)
    requires
        is_pow2(slots.len() as int),
        0 <= i < slots.len(),
        0 <= j < slots.len(),
        j != i,
        slots[j] == Some(w),
    ensures
        slots.update(i, Some(v))[j] == slots[j],
        spec_reconstruct(
            spec_leaf_hash(Some(w)),
            j as nat,
            spec_proof(digests_of(slots.update(i, Some(v))), j),
        ) == spec_root_of(digests_of(slots.update(i, Some(v)))),
{
    lemma_proof_soundness(slots.update(i, Some(v)), j, w);
}

/// Build/update equivalence: committing `vs` and then replacing the value
/// at `i` yields the same root digest as committing `vs` with its `i`-th
/// value already replaced.
pub proof fn lemma_build_update_equivalence<T: Hashable>(vs: Seq<T>, i: int, v: T)
    requires
        0 <= i < vs.len(),
    ensures
        spec_root_of(digests_of(spec_pad(vs).update(i, Some(v)))) == spec_commit_root(
            vs.update(i, v),
        ),
{
    assert(spec_pad(vs).update(i, Some(v)) =~= spec_pad(vs.update(i, v)));
}

} // verus!
