use plasm_parent::merkle::{MerkleProof, hash_pair};
use plasm_parent::primitives::Digest;

const LEAF: Digest = [0u8; 32];
const ONE: Digest = [1u8; 32];
const TWO: Digest = [2u8; 32];

#[test]
fn hash_pair_is_the_digest_of_left_then_right() {
    let expected: Digest = [
        0x03, 0x7f, 0x2d, 0xa1, 0xed, 0xda, 0xee, 0x43, 0x6a, 0x85, 0xdc, 0xcc, 0x07, 0x22, 0x45,
        0xe4, 0x7b, 0xc4, 0x0f, 0x15, 0x9a, 0x9c, 0x43, 0x5e, 0x27, 0x51, 0x29, 0x96, 0x36, 0xb1,
        0xef, 0x03,
    ];
    assert_eq!(hash_pair(&LEAF, &ONE), expected);
    assert_ne!(hash_pair(&ONE, &LEAF), expected);
    assert_ne!(hash_pair(&LEAF, &ONE), LEAF);
    let mut preimage = vec![0u8; 32];
    preimage.extend_from_slice(&[1u8; 32]);
    assert_eq!(&hash_pair(&LEAF, &ONE)[..], blake2_rfc::blake2b::blake2b(32, &[], &preimage).as_bytes());
}

#[test]
fn a_tree_of_one_leaf_has_the_leaf_as_root() {
    let proof = MerkleProof::new(vec![LEAF], 0, 0).unwrap();
    assert_eq!(proof.root(), LEAF);
    assert_eq!(proof.leaf(), &LEAF);
    assert_eq!(proof.root_from(&ONE), ONE);
    assert_eq!(proof.depth(), 0);
    assert_eq!(proof.index(), 0);
    assert_eq!(proof.proofs(), &vec![LEAF]);
}

#[test]
fn the_index_tells_the_side() {
    let left = MerkleProof::new(vec![LEAF, ONE], 1, 0).unwrap();
    assert_eq!(left.root(), hash_pair(&LEAF, &ONE));
    let right = MerkleProof::new(vec![LEAF, ONE], 1, 1).unwrap();
    assert_eq!(right.root(), hash_pair(&ONE, &LEAF));
    assert_ne!(left.root(), right.root());
}

#[test]
fn the_path_climbs_from_the_lowest_sibling() {
    let third: Digest = [
        0xaf, 0xfc, 0x6b, 0x4f, 0xf7, 0x4c, 0x6b, 0x19, 0xcc, 0x27, 0x8d, 0x40, 0x3d, 0x11, 0x9e,
        0x86, 0xc5, 0x5a, 0xad, 0x9d, 0xe0, 0x5d, 0x30, 0x8e, 0x2c, 0x5c, 0x79, 0x5e, 0xef, 0x72,
        0xac, 0xd9,
    ];
    let second: Digest = [
        0x9f, 0xe4, 0xd1, 0x16, 0xb0, 0xf0, 0x79, 0x31, 0x5e, 0xc3, 0x0e, 0x30, 0x36, 0xd8, 0xff,
        0x1f, 0xf6, 0xbf, 0x0a, 0x27, 0xb2, 0x1e, 0xff, 0x17, 0xb7, 0x92, 0x51, 0xfb, 0xe6, 0x84,
        0xea, 0xaa,
    ];
    let proof = MerkleProof::new(vec![LEAF, ONE, TWO], 2, 2).unwrap();
    assert_eq!(proof.root(), third);
    assert_eq!(proof.root(), hash_pair(&TWO, &hash_pair(&LEAF, &ONE)));
    let proof = MerkleProof::new(vec![LEAF, ONE, TWO], 2, 1).unwrap();
    assert_eq!(proof.root(), second);
    assert_eq!(proof.root(), hash_pair(&hash_pair(&ONE, &LEAF), &TWO));
}

#[test]
fn root_from_replaces_the_declared_leaf() {
    let proof = MerkleProof::new(vec![LEAF, ONE, TWO], 2, 0).unwrap();
    assert_eq!(proof.root_from(&LEAF), proof.root());
    assert_eq!(proof.root_from(&TWO), hash_pair(&hash_pair(&TWO, &ONE), &TWO));
    assert_ne!(proof.root_from(&TWO), proof.root());
}

#[test]
fn new_refuses_a_path_of_the_wrong_length() {
    assert!(MerkleProof::new(vec![], 0, 0).is_none());
    assert!(MerkleProof::new(vec![LEAF, ONE], 0, 0).is_none());
    assert!(MerkleProof::new(vec![LEAF], 1, 0).is_none());
    assert!(MerkleProof::new(vec![LEAF, ONE, TWO], 1, 0).is_none());
}

#[test]
fn new_refuses_an_index_that_the_depth_cannot_hold() {
    assert!(MerkleProof::new(vec![LEAF], 0, 1).is_none());
    assert!(MerkleProof::new(vec![LEAF, ONE], 1, 2).is_none());
    assert!(MerkleProof::new(vec![LEAF, ONE, TWO], 2, 4).is_none());
    assert!(MerkleProof::new(vec![LEAF, ONE, TWO], 2, 3).is_some());
    assert!(MerkleProof::new(vec![LEAF, ONE, TWO], 2, u64::MAX).is_none());
}

#[test]
fn a_deep_path_holds_every_index() {
    let mut proofs = vec![LEAF];
    for _ in 0..64 {
        proofs.push(ONE);
    }
    let proof = MerkleProof::new(proofs.clone(), 64, u64::MAX).unwrap();
    let mut node = LEAF;
    for _ in 0..64 {
        node = hash_pair(&ONE, &node);
    }
    assert_eq!(proof.root(), node);
    assert!(MerkleProof::new(proofs, 64, 0).is_some());
}

#[test]
fn clone_keeps_the_proof() {
    let proof = MerkleProof::new(vec![LEAF, ONE, TWO], 2, 2).unwrap();
    assert_eq!(proof.clone(), proof);
    assert_eq!(proof.clone().root(), proof.root());
}
