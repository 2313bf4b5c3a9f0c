//! The tree engine: one-shot construction over a padded power-of-two leaf
//! sequence, root-digest read, sibling-path extraction, single-leaf update
//! with ancestor recomputation, and stateless proof verification.

use vstd::prelude::*;

verus! {

use vstd::arithmetic::power2::is_pow2;
use crate::hashing::Hashable;
use crate::hashing::hash_values;
use crate::model::digests_of;
use crate::model::lemma_digests_update;
use crate::model::lemma_is_pow2_double;
use crate::model::lemma_is_pow2_halves;
use crate::model::lemma_is_pow2_one;
use crate::model::lemma_is_pow2_pos;
use crate::model::lemma_pow2_ceil_props;
use crate::model::lemma_pow2_le_ceil;
use crate::model::lemma_subroot_frame;
use crate::model::lemma_two_pow2s;
use crate::model::spec_combine;
use crate::model::spec_commit_root;
use crate::model::spec_leaf_hash;
use crate::model::spec_pad;
use crate::model::spec_pow2_ceil;
use crate::model::spec_proof;
use crate::model::spec_proof_in;
use crate::model::spec_reconstruct;
use crate::model::spec_root_of;
use crate::model::spec_subroot;

/// Why an operation on the tree was refused.
#[derive(Clone, Copy, Debug, PartialEq, Eq, Structural)]
pub enum MerkleError {
    /// The index is at or beyond the slot count.
    IndexOutOfRange,
    /// The slot at the index is padding, which has no user-visible value.
    PaddingSlotAccess,
    /// The tree was already committed.
    DoubleCommit,
    /// The tree was never committed.
    UninitializedTree,
}

/// One node of the digest tree. A node covers the contiguous leaf-slot
/// interval `[interval.0, interval.1]`; a leaf node (equal endpoints) owns no
/// children, an internal node owns exactly the two halves of its interval.
pub struct Node {
    node_hash: u64,
    interval: (usize, usize),
    left: Option<Box<Node>>,
    right: Option<Box<Node>>,
}

impl Node {
    /// Well-formedness over the leaf digests `ds`: intervals are in bounds
    /// and split exactly in half all the way down, and every node's digest
    /// is the subtree digest of its interval.
    spec fn wf(self, ds: Seq<u64>) -> bool
        decreases self,
    {
        let lo = self.interval.0 as int;
        let hi = self.interval.1 as int;
        let len = hi - lo + 1;
        &&& 0 <= lo <= hi < ds.len()
        &&& self.node_hash == spec_subroot(ds, lo, len)
        &&& if lo == hi {
            self.left is None && self.right is None
        } else {
            &&& len % 2 == 0
            &&& self.left is Some
            &&& self.right is Some
            &&& (self.left->0).interval.0 == lo
            &&& (self.left->0).interval.1 == lo + len / 2 - 1
            &&& (self.right->0).interval.0 == lo + len / 2
            &&& (self.right->0).interval.1 == hi
            &&& (self.left->0).wf(ds)
            &&& (self.right->0).wf(ds)
        }
    }
}

/// A node's digest depends only on the leaf digests inside its interval.
proof fn lemma_node_wf_frame(n: Node, ds1: Seq<u64>, ds2: Seq<u64>)
    requires
        n.wf(ds1),
        ds1.len() == ds2.len(),
        forall|k: int| n.interval.0 <= k <= n.interval.1 ==> ds1[k] == ds2[k],
    ensures
        n.wf(ds2),
    decreases n,
{
    let lo = n.interval.0 as int;
    let hi = n.interval.1 as int;
    lemma_subroot_frame(ds1, ds2, lo, hi - lo + 1);
    if lo != hi {
        lemma_node_wf_frame(*n.left->0, ds1, ds2);
        lemma_node_wf_frame(*n.right->0, ds1, ds2);
    }
}

/// The tree: the full ordered leaf-slot sequence (padded to a power of two
/// once committed) and the digest tree layered over it.
pub struct MerkleTree<T> {
    root: Option<Box<Node>>,
    values: Vec<Option<T>>,
}

impl<T> View for MerkleTree<T> {
    type V = Seq<Option<T>>;

    closed spec fn view(&self) -> Seq<Option<T>> {
        self.values@
    }
}

impl<T: Hashable + Copy> MerkleTree<T> {
    /// Whether a commitment has been made: the slot sequence is non-empty
    /// exactly from the one successful `commit` on.
    pub open spec fn committed(self) -> bool {
        self@.len() > 0
    }

    /// The tree's invariant: uncommitted trees hold no slots and no root;
    /// committed trees hold a power-of-two slot count and a well-formed
    /// digest tree over exactly the slots' digests.
    pub closed spec fn wf(self) -> bool {
        if self.values@.len() == 0 {
            self.root is None
        } else {
            &&& is_pow2(self.values@.len() as int)
            &&& self.root is Some
            &&& (self.root->0).wf(digests_of(self.values@))
            &&& (self.root->0).interval.0 == 0
            &&& (self.root->0).interval.1 == self.values@.len() - 1
        }
    }

    /// A fresh, uncommitted tree.
    pub fn new() -> (r: MerkleTree<T>)
        ensures
            r.wf(),
            !r.committed(),
            r@ == Seq::<Option<T>>::empty(),
    {
        let values: Vec<Option<T>> = Vec::new();
        proof {
            assert(values@ =~= Seq::<Option<T>>::empty());
        }
        MerkleTree { root: None, values }
    }

    /// Commit an input sequence: pad it with `None` slots up to the next
    /// power of two (one padding-only slot for an empty input), build the
    /// digest tree over it, and return the root digest. A second commit is
    /// refused and leaves the first commitment intact.
    pub fn commit(&mut self, values: &Vec<T>) -> (r: Result<u64, MerkleError>)
        requires
            old(self).wf(),
            values@.len() <= usize::MAX / 2 + 1,
        ensures
            final(self).wf(),
            !old(self).committed() ==> r == Ok::<u64, MerkleError>(spec_commit_root(values@))
                && final(self)@ == spec_pad(values@) && final(self).committed(),
            old(self).committed() ==> r == Err::<u64, MerkleError>(MerkleError::DoubleCommit)
                && *final(self) == *old(self),
    {
        if self.values.len() != 0 {
            return Err(MerkleError::DoubleCommit);
        }
        let mut slots: Vec<Option<T>> = Vec::new();
        let mut i: usize = 0;
        while i < values.len()
            invariant
                i <= values@.len(),
                slots@.len() == i,
                forall|k: int| 0 <= k < i ==> slots@[k] == Some(values@[k]),
            decreases values@.len() - i,
        {
            slots.push(Some(values[i]));
            i += 1;
        }
        let ghost n = values@.len() as int;
        let ghost ceil = spec_pow2_ceil(n);
        proof {
            lemma_is_pow2_one();
            lemma_pow2_ceil_props(n);
        }
        let mut pow2_len: usize = 1;
        while pow2_len < values.len()
            invariant
                1 <= pow2_len,
                is_pow2(pow2_len as int),
                pow2_len as int <= ceil,
                ceil == spec_pow2_ceil(values@.len() as int),
                values@.len() <= usize::MAX / 2 + 1,
            decreases ceil - pow2_len,
        {
            proof {
                lemma_pow2_ceil_props(values@.len() as int);
                lemma_two_pow2s(pow2_len as int, ceil);
                lemma_is_pow2_double(pow2_len as int);
            }
            pow2_len = pow2_len * 2;
        }
        proof {
            lemma_pow2_le_ceil(pow2_len as int, n);
        }
        while slots.len() < pow2_len
            invariant
                values@.len() <= slots@.len() <= pow2_len,
                forall|k: int| 0 <= k < values@.len() ==> slots@[k] == Some(values@[k]),
                forall|k: int| values@.len() <= k < slots@.len() ==> slots@[k] is None,
            decreases pow2_len - slots@.len(),
        {
            slots.push(None);
        }
        proof {
            assert(slots@ =~= spec_pad(values@));
            lemma_is_pow2_pos(pow2_len as int);
        }
        let root = Self::build_node(&slots, 0, pow2_len);
        let root_hash = root.node_hash;
        self.values = slots;
        self.root = Some(Box::new(root));
        Ok(root_hash)
    }

    /// The current root digest: the public commitment to the whole slot
    /// sequence. Refused before the one `commit`.
    pub fn get_root_hash(&self) -> (r: Result<u64, MerkleError>)
        requires
            self.wf(),
        ensures
            !self.committed() ==> r == Err::<u64, MerkleError>(MerkleError::UninitializedTree),
            self.committed() ==> r == Ok::<u64, MerkleError>(spec_root_of(digests_of(self@))),
    {
        match &self.root {
            None => Err(MerkleError::UninitializedTree),
            Some(node) => Ok(node.node_hash),
        }
    }

    /// Whether `index` lies inside the closed interval.
    pub fn in_range(index: usize, interval: (usize, usize)) -> (r: bool)
        ensures
            r == (interval.0 <= index && index <= interval.1),
    {
        interval.0 <= index && index <= interval.1
    }

    /// Range check shared by the index-taking operations.
    fn check_index_range(&self, index: usize) -> (r: Result<(), MerkleError>)
        ensures
            r == if index < self@.len() {
                Ok::<(), MerkleError>(())
            } else {
                Err::<(), MerkleError>(MerkleError::IndexOutOfRange)
            },
    {
        if index >= self.values.len() {
            Err(MerkleError::IndexOutOfRange)
        } else {
            Ok(())
        }
    }

    /// Build the digest subtree over `len` slots starting at `lo`,
    /// leaves first, each internal digest combining its two children.
    fn build_node(slots: &Vec<Option<T>>, lo: usize, len: usize) -> (r: Node)
        requires
            1 <= len,
            lo + len <= slots@.len(),
            is_pow2(len as int),
        ensures
            r.wf(digests_of(slots@)),
            r.interval.0 == lo,
            r.interval.1 == lo + len - 1,
        decreases len,
    {
        proof {
            assert(slots.len() == slots@.len());
        }
        if len == 1 {
            let h = Self::hash_leaf(slots[lo]);
            proof {
                assert(digests_of(slots@)[lo as int] == spec_leaf_hash(slots@[lo as int]));
            }
            Node { node_hash: h, interval: (lo, lo), left: None, right: None }
        } else {
            proof {
                lemma_is_pow2_halves(len as int);
            }
            let half = len / 2;
            let left = Self::build_node(slots, lo, half);
            let right = Self::build_node(slots, lo + half, half);
            let h = Self::hash_pair(left.node_hash, right.node_hash);
            Node {
                node_hash: h,
                interval: (lo, lo + len - 1),
                left: Some(Box::new(left)),
                right: Some(Box::new(right)),
            }
        }
    }

    /// Descend to leaf `index`, recording each sibling digest on the way
    /// back up: closest-to-leaf sibling first, root-level sibling last.
    fn get_recursive_path(node: &Node, index: usize, Ghost(ds): Ghost<Seq<u64>>) -> (path: Vec<
        u64,
    >)
        requires
            node.wf(ds),
            node.interval.0 <= index <= node.interval.1,
        ensures
            path@ == spec_proof_in(
                ds,
                node.interval.0 as int,
                node.interval.1 - node.interval.0 + 1,
                index as int,
            ),
        decreases node,
    {
        if node.interval.0 == node.interval.1 {
            let path: Vec<u64> = Vec::new();
            proof {
                assert(path@ =~= spec_proof_in(
                    ds,
                    node.interval.0 as int,
                    1,
                    index as int,
                ));
            }
            path
        } else {
            let left_ref = node.left.as_ref().unwrap();
            let right_ref = node.right.as_ref().unwrap();
            proof {
                let lo = node.interval.0 as int;
                let hi = node.interval.1 as int;
                let len = hi - lo + 1;
                assert(len % 2 == 0);
                assert(hi - (lo + len / 2) + 1 == len / 2);
            }
            if Self::in_range(index, left_ref.interval) {
                let mut path = Self::get_recursive_path(&**left_ref, index, Ghost(ds));
                path.push(right_ref.node_hash);
                path
            } else {
                let mut path = Self::get_recursive_path(&**right_ref, index, Ghost(ds));
                path.push(left_ref.node_hash);
                path
            }
        }
    }

    /// The value at `index` together with its inclusion proof. Refused for
    /// an index at or beyond the slot count, and for a padding slot, which
    /// holds no user-visible value.
    pub fn get_with_proof(&self, index: usize) -> (r: Result<(T, Vec<u64>), MerkleError>)
        requires
            self.wf(),
        ensures
            index >= self@.len() ==> r == Err::<(T, Vec<u64>), MerkleError>(
                MerkleError::IndexOutOfRange,
            ),
            index < self@.len() && self@[index as int] is None ==> r == Err::<
                (T, Vec<u64>),
                MerkleError,
            >(MerkleError::PaddingSlotAccess),
            index < self@.len() && self@[index as int] is Some ==> (r matches Ok(p)
                && self@[index as int] == Some(p.0) && p.1@ == spec_proof(
                digests_of(self@),
                index as int,
            )),
    {
        if let Err(e) = self.check_index_range(index) {
            return Err(e);
        }
        let value = match self.values[index] {
            None => {
                return Err(MerkleError::PaddingSlotAccess);
            },
            Some(v) => v,
        };
        let root_ref = self.root.as_ref().unwrap();
        let path = Self::get_recursive_path(&**root_ref, index, Ghost(digests_of(self@)));
        Ok((value, path))
    }

    /// Recompute the digest of the leaf at `index` from the replacement
    /// value, then each ancestor's digest from its two children, unwinding
    /// back to this node.
    fn recalculate_hashes(
        node: &mut Node,
        index: usize,
        new_value: T,
        Ghost(ds): Ghost<Seq<u64>>,
    )
        requires
            old(node).wf(ds),
            old(node).interval.0 <= index <= old(node).interval.1,
        ensures
            final(node).wf(ds.update(index as int, spec_leaf_hash(Some(new_value)))),
            final(node).interval == old(node).interval,
        decreases *old(node),
    {
        let ghost new_ds = ds.update(index as int, spec_leaf_hash(Some(new_value)));
        if node.interval.0 == node.interval.1 {
            node.node_hash = Self::hash_leaf(Some(new_value));
        } else {
            let go_left = Self::in_range(index, node.left.as_ref().unwrap().interval);
            if go_left {
                let mut l = node.left.take().unwrap();
                Self::recalculate_hashes(&mut *l, index, new_value, Ghost(ds));
                node.left = Some(l);
                proof {
                    lemma_node_wf_frame(*node.right->0, ds, new_ds);
                }
            } else {
                let mut rgt = node.right.take().unwrap();
                Self::recalculate_hashes(&mut *rgt, index, new_value, Ghost(ds));
                node.right = Some(rgt);
                proof {
                    lemma_node_wf_frame(*node.left->0, ds, new_ds);
                }
            }
            let lh = node.left.as_ref().unwrap().node_hash;
            let rh = node.right.as_ref().unwrap().node_hash;
            node.node_hash = Self::hash_pair(lh, rh);
        }
    }

    /// Replace the value at `index` (padding slots included) and return the
    /// new root digest; only the digests on the path from that leaf to the
    /// root change. Refused, with the tree untouched, for an index at or
    /// beyond the slot count.
    pub fn change_value(&mut self, index: usize, new_value: T) -> (r: Result<u64, MerkleError>)
        requires
            old(self).wf(),
        ensures
            final(self).wf(),
            index < old(self)@.len() ==> final(self)@ == old(self)@.update(
                index as int,
                Some(new_value),
            ) && r == Ok::<u64, MerkleError>(spec_root_of(digests_of(final(self)@))),
            index >= old(self)@.len() ==> r == Err::<u64, MerkleError>(
                MerkleError::IndexOutOfRange,
            ) && *final(self) == *old(self),
    {
        if let Err(e) = self.check_index_range(index) {
            return Err(e);
        }
        let ghost old_slots = self.values@;
        let ghost ds = digests_of(old_slots);
        self.values[index] = Some(new_value);
        proof {
            lemma_digests_update(old_slots, index as int, Some(new_value));
        }
        if let Some(root_box) = &mut self.root {
            Self::recalculate_hashes(&mut **root_box, index, new_value, Ghost(ds));
        }
        let root_ref = self.root.as_ref().unwrap();
        Ok(root_ref.node_hash)
    }

    /// Digest of one leaf slot, through the shared combinator.
    fn hash_leaf(slot: Option<T>) -> (r: u64)
        ensures
            r == spec_leaf_hash(slot),
    {
        let mut parts: Vec<Option<T>> = Vec::new();
        parts.push(slot);
        proof {
            assert(parts@ =~= seq![slot]);
        }
        hash_values(parts)
    }

    /// Digest of two child digests, left before right, through the shared
    /// combinator.
    fn hash_pair(l: u64, r: u64) -> (res: u64)
        ensures
            res == spec_combine(l, r),
    {
        let mut parts: Vec<u64> = Vec::new();
        parts.push(l);
        parts.push(r);
        proof {
            assert(parts@ =~= seq![l, r]);
        }
        hash_values(parts)
    }
}

/// Stateless proof verification, usable by a party holding only the root
/// digest: fold the claimed value's leaf digest with each sibling, taking
/// the sibling on the left exactly when the current index bit is set, and
/// compare the result with the trusted root digest.
pub fn verify<T: Hashable + Copy>(
    value: T,
    index: usize,
    siblings: &Vec<u64>,
    root_hash: u64,
) -> (r: bool)
    ensures
        r == (spec_reconstruct(spec_leaf_hash(Some(value)), index as nat, siblings@)
            == root_hash),
{
    let mut current = MerkleTree::<T>::hash_leaf(Some(value));
    let mut idx = index;
    let mut k: usize = 0;
    proof {
        assert(siblings@.skip(0) =~= siblings@);
    }
    while k < siblings.len()
        invariant
            k <= siblings@.len(),
            spec_reconstruct(spec_leaf_hash(Some(value)), index as nat, siblings@)
                == spec_reconstruct(current, idx as nat, siblings@.skip(k as int)),
        decreases siblings@.len() - k,
    {
        let s = siblings[k];
        if idx % 2 == 1 {
            current = MerkleTree::<T>::hash_pair(s, current);
        } else {
            current = MerkleTree::<T>::hash_pair(current, s);
        }
        idx = idx / 2;
        k = k + 1;
        proof {
            assert(siblings@.skip(k - 1).drop_first() =~= siblings@.skip(k as int));
        }
    }
    current == root_hash
}

} // verus!
