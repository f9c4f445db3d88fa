//! Merkle inclusion proofs: the path from a leaf to the root of a committed
//! block, and the recomputation of the root along it.
use vstd::prelude::*;
use crate::hashing::{blake2_256, blake2b_32};
use crate::primitives::{Digest, digest_views};

verus! {

/// The digest of an inner node: that of its two children, left then right.
pub open spec fn spec_hash_pair(left: Seq<u8>, right: Seq<u8>) -> Seq<u8> {
    blake2_256(left + right)
}

/// The node reached from `node` by climbing past `siblings`, the lowest
/// first. At each level the lowest bit of `index` tells on which side the
/// node stands: on the left where it is 0.
pub open spec fn climb(node: Seq<u8>, siblings: Seq<Seq<u8>>, index: nat) -> Seq<u8>
    decreases siblings.len(),
{
    if siblings.len() == 0 {
        node
    } else {
        let parent = if index % 2 == 0 {
            spec_hash_pair(node, siblings.first())
        } else {
            spec_hash_pair(siblings.first(), node)
        };
        climb(parent, siblings.drop_first(), index / 2)
    }
}

/// Whether `index` numbers a leaf of a tree with `depth` levels below its
/// root.
pub open spec fn leaf_index_fits(index: nat, depth: nat) -> bool
    decreases depth,
{
    if depth == 0 {
        index == 0
    } else {
        leaf_index_fits(index / 2, (depth - 1) as nat)
    }
}

/// The model of a `MerkleProof`.
pub struct MerkleProofView {
    pub proofs: Seq<Seq<u8>>,
    pub depth: u8,
    pub index: u64,
}

impl MerkleProofView {
    /// Whether the proof has the shape of a path: the leaf, one sibling for
    /// each level, and an index that fits the depth.
    pub open spec fn well_formed(self) -> bool {
        self.proofs.len() == self.depth + 1 && leaf_index_fits(
            self.index as nat,
            self.depth as nat,
        )
    }

    /// The leaf that the proof declares.
    pub open spec fn leaf(self) -> Seq<u8> {
        self.proofs[0]
    }

    /// The siblings along the path, the lowest first.
    pub open spec fn siblings(self) -> Seq<Seq<u8>> {
        self.proofs.skip(1)
    }

    /// The root reached from `leaf` along the path.
    pub open spec fn root_from(self, leaf: Seq<u8>) -> Seq<u8> {
        climb(leaf, self.siblings(), self.index as nat)
    }

    /// The root reached from the declared leaf.
    pub open spec fn root(self) -> Seq<u8> {
        self.root_from(self.leaf())
    }
}

/// An inclusion proof: the declared leaf followed by its siblings from the
/// lowest level up, the depth of the tree, and the index of the leaf.
#[derive(Debug, PartialEq, Eq)]
pub struct MerkleProof {
    proofs: Vec<Digest>,
    depth: u8,
    index: u64,
}

impl View for MerkleProof {
    type V = MerkleProofView;

    closed spec fn view(&self) -> MerkleProofView {
        MerkleProofView { proofs: digest_views(self.proofs@), depth: self.depth, index: self.index }
    }
}

/// The digest of an inner node: that of its two children, left then right.
pub fn hash_pair(left: &Digest, right: &Digest) -> (digest: Digest)
    ensures
        digest@ == spec_hash_pair(left@, right@),
{
    let mut preimage: Vec<u8> = Vec::new();
    let mut i: usize = 0;
    while i < 32
        invariant
            i <= 32,
            preimage@ == left@.take(i as int),
        decreases 32 - i,
    {
        preimage.push(left[i]);
        assert(left@.take(i + 1) =~= left@.take(i as int).push(left@[i as int]));
        i = i + 1;
    }
    assert(left@.take(32) =~= left@);
    let mut j: usize = 0;
    while j < 32
        invariant
            j <= 32,
            preimage@ == left@ + right@.take(j as int),
        decreases 32 - j,
    {
        preimage.push(right[j]);
        assert(right@.take(j + 1) =~= right@.take(j as int).push(right@[j as int]));
        j = j + 1;
    }
    assert(right@.take(32) =~= right@);
    blake2b_32(preimage.as_slice())
}

impl Clone for MerkleProof {
    fn clone(&self) -> (copy: Self)
        ensures
            copy@ == self@,
    {
        proof {
            use_type_invariant(self);
        }
        let proofs = self.proofs.clone();
        assert(digest_views(proofs@) =~= digest_views(self.proofs@));
        MerkleProof { proofs, depth: self.depth, index: self.index }
    }
}

impl MerkleProof {
    /// What holds of every `MerkleProof`: it has the shape of a path.
    #[verifier::type_invariant]
    pub open spec fn inv(&self) -> bool {
        self@.well_formed()
    }

    /// The proof made of these parts; nothing where they do not have the
    /// shape of a path.
    pub fn new(proofs: Vec<Digest>, depth: u8, index: u64) -> (r: Option<MerkleProof>)
        ensures
            r is Some <==> (MerkleProofView { proofs: digest_views(proofs@), depth, index })
                .well_formed(),
            r matches Some(proof) ==> proof@ == (MerkleProofView {
                proofs: digest_views(proofs@),
                depth,
                index,
            }),
    {
        if proofs.len() != depth as usize + 1 {
            return None;
        }
        let mut rest: u64 = index;
        let mut level: u8 = 0;
        while level < depth
            invariant
                level <= depth,
                leaf_index_fits(index as nat, depth as nat) == leaf_index_fits(
                    rest as nat,
                    (depth - level) as nat,
                ),
            decreases depth - level,
        {
            rest = rest / 2;
            level = level + 1;
        }
        if rest != 0 {
            return None;
        }
        Some(MerkleProof { proofs, depth, index })
    }

    /// The leaf that the proof declares.
    pub fn leaf(&self) -> (leaf: &Digest)
        ensures
            leaf@ == self@.leaf(),
    {
        proof {
            use_type_invariant(self);
        }
        &self.proofs[0]
    }

    /// The declared leaf and the siblings, the lowest first.
    pub fn proofs(&self) -> (proofs: &Vec<Digest>)
        ensures
            digest_views(proofs@) == self@.proofs,
    {
        &self.proofs
    }

    /// The number of levels below the root.
    pub fn depth(&self) -> (depth: u8)
        ensures
            depth == self@.depth,
    {
        self.depth
    }

    /// The index of the leaf among the leaves.
    pub fn index(&self) -> (index: u64)
        ensures
            index == self@.index,
    {
        self.index
    }

    /// The root reached from `leaf` along the path.
    pub fn root_from(&self, leaf: &Digest) -> (root: Digest)
        ensures
            root@ == self@.root_from(leaf@),
    {
        proof {
            use_type_invariant(self);
        }
        let ghost siblings = self@.siblings();
        let mut node: Digest = *leaf;
        let mut rest: u64 = self.index;
        let mut level: usize = 0;
        assert(siblings.skip(0) =~= siblings);
        while level < self.depth as usize
            invariant
                level <= self.depth,
                self.proofs@.len() == self.depth + 1,
                siblings == self@.siblings(),
                climb(leaf@, siblings, self.index as nat) == climb(
                    node@,
                    siblings.skip(level as int),
                    rest as nat,
                ),
            decreases self.depth - level,
        {
            let sibling = &self.proofs[level + 1];
            proof {
                let here = siblings.skip(level as int);
                assert(here.first() == sibling@);
                assert(here.drop_first() =~= siblings.skip(level + 1));
            }
            if rest % 2 == 0 {
                node = hash_pair(&node, sibling);
            } else {
                node = hash_pair(sibling, &node);
            }
            rest = rest / 2;
            level = level + 1;
        }
        node
    }

    /// The root reached from the declared leaf.
    pub fn root(&self) -> (root: Digest)
        ensures
            root@ == self@.root(),
    {
        proof {
            use_type_invariant(self);
        }
        let leaf: Digest = self.proofs[0];
        self.root_from(&leaf)
    }
}

} // verus!
