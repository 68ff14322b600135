use vstd::prelude::*;

use crate::codec::push_all;
use crate::crypto::digest_bytes;
use crate::crypto::hash_bytes;
use crate::crypto::sha256_of;
use crate::crypto::BitDigest;

verus! {

/// The root an append-only accumulator reaches after absorbing `leaves` in
/// order: each append chains the previous root with the new leaf through
/// the digest, so the root commits to the whole history.
pub open spec fn root_of(leaves: Seq<BitDigest>) -> Seq<u8>
    decreases leaves.len(),
{
    if leaves.len() == 0 {
        (BitDigest { w0: 0, w1: 0, w2: 0, w3: 0 }).bytes()
    } else {
        sha256_of(root_of(leaves.drop_last()) + leaves.last().bytes())
    }
}

/// An inclusion statement for one accumulator leaf: the leaf's index and
/// digest, and the accumulator size and root it was read under.
#[derive(Clone, Copy, Debug, PartialEq, Eq, Structural)]
pub struct Proof {
    pub tx_id: u64,
    pub state: u64,
    pub leaf: BitDigest,
    pub root_hash: BitDigest,
}

/// An append-only accumulator over leaf digests. The root is maintained
/// incrementally and always equals the chained digest of every leaf
/// appended so far.
#[derive(Clone, Debug, PartialEq, Eq)]
pub struct AppendOnlyMerkle {
    pub leaves: Vec<BitDigest>,
    pub root: BitDigest,
}

impl AppendOnlyMerkle {
    /// The stored root is the chained digest of the stored leaves.
    pub open spec fn wf(self) -> bool {
        self.root.bytes() == root_of(self.leaves@)
    }

    /// An empty accumulator.
    pub fn new() -> (r: AppendOnlyMerkle)
        ensures
            r.wf(),
            r.leaves@.len() == 0,
    {
        AppendOnlyMerkle { leaves: Vec::new(), root: BitDigest::zero() }
    }

    /// How many leaves the accumulator holds.
    pub fn total_size(&self) -> (r: u64)
        requires
            self.leaves@.len() <= u64::MAX,
        ensures
            r == self.leaves@.len(),
    {
        self.leaves.len() as u64
    }

    /// Absorb one leaf and return its index.
    pub fn append(&mut self, h: &BitDigest) -> (id: u64)
        requires
            old(self).wf(),
            old(self).leaves@.len() < u64::MAX,
        ensures
            final(self).wf(),
            id == old(self).leaves@.len(),
            final(self).leaves@ == old(self).leaves@.push(*h),
    {
        let id = self.leaves.len() as u64;
        let mut buf = digest_bytes(&self.root);
        push_all(&mut buf, &digest_bytes(h));
        self.root = hash_bytes(&buf);
        self.leaves.push(*h);
        proof {
            assert(self.leaves@.drop_last() =~= old(self).leaves@);
            assert(buf@ =~= root_of(self.leaves@.drop_last()) + self.leaves@.last().bytes());
        }
        id
    }

    /// The current root.
    pub fn get_root_hash(&self) -> (r: BitDigest)
        ensures
            r == self.root,
    {
        self.root
    }

    /// The inclusion statement for leaf `id`, if the accumulator holds it.
    pub fn get_proof(&self, id: u64) -> (r: Option<Proof>)
        requires
            self.leaves@.len() <= u64::MAX,
        ensures
            match r {
                Some(p) => {
                    &&& id < self.leaves@.len()
                    &&& p.tx_id == id
                    &&& p.state == self.leaves@.len()
                    &&& p.leaf == self.leaves@[id as int]
                    &&& p.root_hash == self.root
                },
                None => id >= self.leaves@.len(),
            },
    {
        if id < self.leaves.len() as u64 {
            Some(
                Proof {
                    tx_id: id,
                    state: self.leaves.len() as u64,
                    leaf: self.leaves[id as usize],
                    root_hash: self.root,
                },
            )
        } else {
            None
        }
    }
}

} // verus!
