use crate::error::AuditError;
use crate::field::le_value;
use crate::field::modulus;
use crate::field::FieldElement;
use crate::hash::sha256;
use crate::hash::sha256_digest;
use rs_merkle::algorithms::Sha256;
use rs_merkle::MerkleProof;
use rs_merkle::MerkleTree;
use vstd::prelude::*;

verus! {

/// A SHA-256 Merkle tree of rs_merkle, built over a sequence of leaf hashes.
#[verifier::external_body]
pub struct Sha256Tree {
    tree: MerkleTree<Sha256>,
}

/// The leaf hashes over which a tree was built, in their order.
pub uninterp spec fn tree_leaves(tree: Sha256Tree) -> Seq<Seq<u8>>;

/// The root of the SHA-256 Merkle tree that rs_merkle builds over the given
/// leaf hashes, in their order; nothing where it builds no tree.
pub uninterp spec fn merkle_root_of(leaf_hashes: Seq<Seq<u8>>) -> Option<Seq<u8>>;

/// The hashes of the inclusion proof that rs_merkle gives, in that tree, for
/// the leaves at the given positions.
pub uninterp spec fn merkle_proof_of(leaf_hashes: Seq<Seq<u8>>, indices: Seq<usize>) -> Seq<
    Seq<u8>,
>;

/// Whether rs_merkle finds that the hashes of a proof lead from the given
/// leaf hashes at the given positions, in a tree of `total` leaves, to the
/// given root.
pub uninterp spec fn merkle_proof_accepts(
    proof_hashes: Seq<Seq<u8>>,
    root: Seq<u8>,
    indices: Seq<usize>,
    leaf_hashes: Seq<Seq<u8>>,
    total: usize,
) -> bool;

/// The byte strings that a sequence of 32-byte hashes holds.
pub open spec fn digest_views(hashes: Seq<[u8; 32]>) -> Seq<Seq<u8>> {
    hashes.map_values(|h: [u8; 32]| h@)
}

/// The byte strings one after the other.
pub open spec fn joined(parts: Seq<Seq<u8>>) -> Seq<u8>
    decreases parts.len(),
{
    if parts.len() == 0 {
        Seq::empty()
    } else {
        joined(parts.drop_last()) + parts.last()
    }
}

/// The bytes cut into pieces of 32; bytes that are left over are dropped.
pub open spec fn pieces(bytes: Seq<u8>) -> Seq<Seq<u8>> {
    Seq::new((bytes.len() / 32) as nat, |i: int| bytes.subrange(32 * i, 32 * i + 32))
}

/// Byte strings of 32 bytes each, joined and cut into pieces again, are what
/// they were.
pub proof fn lemma_pieces_of_joined(parts: Seq<Seq<u8>>)
    requires
        forall|i: int| 0 <= i < parts.len() ==> (#[trigger] parts[i]).len() == 32,
    ensures
        joined(parts).len() == 32 * parts.len(),
        pieces(joined(parts)) == parts,
    decreases parts.len(),
{
    if parts.len() == 0 {
        assert(pieces(joined(parts)) =~= parts);
    } else {
        let before = parts.drop_last();
        lemma_pieces_of_joined(before);
        let whole = joined(parts);
        assert(whole.len() == 32 * parts.len());
        assert forall|i: int| 0 <= i < parts.len() implies #[trigger] pieces(whole)[i]
            == parts[i] by {
            if i < parts.len() - 1 {
                assert(pieces(joined(before))[i] == before[i]);
                assert(whole.subrange(32 * i, 32 * i + 32) =~= joined(before).subrange(
                    32 * i,
                    32 * i + 32,
                ));
            } else {
                assert(whole.subrange(32 * i, 32 * i + 32) =~= parts.last());
            }
        }
        assert(pieces(whole) =~= parts);
    }
}

/// Builds a tree with `MerkleTree::<Sha256>::from_leaves` of rs_merkle, which
/// keeps the given hashes as its leaves, in their order.
#[verifier::external_body]
fn tree_from_leaves(leaf_hashes: &Vec<[u8; 32]>) -> (tree: Sha256Tree)
    ensures
        tree_leaves(tree) == digest_views(leaf_hashes@),
{
    Sha256Tree { tree: MerkleTree::<Sha256>::from_leaves(leaf_hashes) }
}

/// Calls `MerkleTree::root`: the top hash of the tree, or nothing where the
/// tree is empty.
#[verifier::external_body]
fn tree_root(tree: &Sha256Tree) -> (root: Option<[u8; 32]>)
    ensures
        match root {
            Some(r) => merkle_root_of(tree_leaves(*tree)) == Some(r@),
            None => merkle_root_of(tree_leaves(*tree)) is None,
        },
{
    tree.tree.root()
}

/// Calls `MerkleTree::proof` for the leaves at `indices` and hands out the
/// hashes that the proof holds.
#[verifier::external_body]
fn tree_proof(tree: &Sha256Tree, indices: &Vec<usize>) -> (proof_hashes: Vec<[u8; 32]>)
    ensures
        digest_views(proof_hashes@) == merkle_proof_of(tree_leaves(*tree), indices@),
{
    tree.tree.proof(indices).proof_hashes().to_vec()
}

/// Serialises a proof with `MerkleProof::to_bytes` of rs_merkle, which writes
/// the hashes of the proof one after the other.
#[verifier::external_body]
fn proof_to_bytes(proof_hashes: &Vec<[u8; 32]>) -> (bytes: Vec<u8>)
    ensures
        bytes@ == joined(digest_views(proof_hashes@)),
{
    MerkleProof::<Sha256>::new(proof_hashes.clone()).to_bytes()
}

/// Parses a proof with `MerkleProof::<Sha256>::try_from` of rs_merkle, which
/// refuses bytes whose number is no multiple of 32 and otherwise reads one
/// hash from each 32 bytes.
#[verifier::external_body]
fn proof_from_bytes(bytes: Vec<u8>) -> (proof_hashes: Option<Vec<[u8; 32]>>)
    ensures
        proof_hashes is Some <==> bytes.len() % 32 == 0,
        proof_hashes matches Some(hashes) ==> digest_views(hashes@) == pieces(bytes@),
{
    match MerkleProof::<Sha256>::try_from(bytes) {
        Ok(proof) => Some(proof.proof_hashes().to_vec()),
        Err(_) => None,
    }
}

/// Calls `MerkleProof::verify` of rs_merkle on a proof with the given hashes.
#[verifier::external_body]
fn proof_verify(
    proof_hashes: Vec<[u8; 32]>,
    root: [u8; 32],
    indices: &Vec<usize>,
    leaf_hashes: &Vec<[u8; 32]>,
    total: usize,
) -> (accepted: bool)
    ensures
        accepted == merkle_proof_accepts(
            digest_views(proof_hashes@),
            root@,
            indices@,
            digest_views(leaf_hashes@),
            total,
        ),
{
    MerkleProof::<Sha256>::new(proof_hashes).verify(root, indices, leaf_hashes, total)
}

impl Sha256Tree {
    /// The top hash of the tree; nothing where the tree has no leaves to
    /// stand on.
    pub fn root(&self) -> (root: Option<[u8; 32]>)
        ensures
            match root {
                Some(r) => merkle_root_of(tree_leaves(*self)) == Some(r@),
                None => merkle_root_of(tree_leaves(*self)) is None,
            },
    {
        tree_root(self)
    }
}

/// Root hashing and inclusion checks over an ordered sequence of field
/// elements. A leaf is hashed as the SHA-256 digest of its 32 little-endian
/// bytes.
pub struct MerkleTreeGadget;

impl MerkleTreeGadget {
    /// The hash of each leaf, in order.
    pub open spec fn leaf_digests(leaves: Seq<FieldElement>) -> Seq<Seq<u8>> {
        leaves.map_values(|leaf: FieldElement| sha256_digest(leaf.le_bytes()))
    }

    /// The hashes at those of the given positions that lie inside the
    /// sequence, in the order of the positions.
    pub open spec fn selected(digests: Seq<Seq<u8>>, indices: Seq<usize>) -> Seq<Seq<u8>>
        decreases indices.len(),
    {
        if indices.len() == 0 {
            Seq::empty()
        } else {
            let before = Self::selected(digests, indices.drop_last());
            if indices.last() < digests.len() {
                before.push(digests[indices.last() as int])
            } else {
                before
            }
        }
    }

    /// The root of the tree over the leaves as a field element: the top hash
    /// read as a little-endian integer and reduced modulo the field order.
    pub open spec fn root_spec(leaves: Seq<FieldElement>) -> Option<nat> {
        match merkle_root_of(Self::leaf_digests(leaves)) {
            Some(top) => Some(le_value(top) % modulus()),
            None => None,
        }
    }

    /// Whether the inclusion proof that the tree gives for the leaves at
    /// `indices` is accepted against the root of the tree.
    pub open spec fn validates_spec(leaves: Seq<FieldElement>, indices: Seq<usize>) -> bool {
        let digests = Self::leaf_digests(leaves);
        match merkle_root_of(digests) {
            Some(top) => merkle_proof_accepts(
                merkle_proof_of(digests, indices),
                top,
                indices,
                Self::selected(digests, indices),
                leaves.len() as usize,
            ),
            None => false,
        }
    }

    /// Whether the leaf at position `i` alone passes its inclusion check.
    pub open spec fn leaf_validates(leaves: Seq<FieldElement>, i: int) -> bool {
        Self::validates_spec(leaves, seq![i as usize])
    }

    /// The root of the tree over the leaves, where each single leaf passes
    /// its inclusion check; nothing where one fails or the tree has no root.
    pub open spec fn checked_root_spec(leaves: Seq<FieldElement>) -> Option<nat> {
        if forall|i: int| 0 <= i < leaves.len() ==> #[trigger] Self::leaf_validates(leaves, i) {
            Self::root_spec(leaves)
        } else {
            None
        }
    }

    /// Hashes every leaf.
    pub fn hash_leaves(leaves: &Vec<FieldElement>) -> (hashes: Vec<[u8; 32]>)
        ensures
            digest_views(hashes@) == Self::leaf_digests(leaves@),
            hashes.len() == leaves.len(),
    {
        let mut hashes: Vec<[u8; 32]> = Vec::new();
        let mut i: usize = 0;
        while i < leaves.len()
            invariant
                i <= leaves.len(),
                hashes.len() == i,
                digest_views(hashes@) == Self::leaf_digests(leaves@.take(i as int)),
            decreases leaves.len() - i,
        {
            let bytes = leaves[i].to_bytes_le();
            let digest = sha256(bytes.as_slice());
            let ghost before = hashes@;
            hashes.push(digest);
            proof {
                assert(digest_views(hashes@) =~= digest_views(before).push(digest@));
                assert(Self::leaf_digests(leaves@.take(i + 1)) =~= Self::leaf_digests(
                    leaves@.take(i as int),
                ).push(sha256_digest(leaves@[i as int].le_bytes())));
            }
            i += 1;
        }
        proof {
            assert(leaves@.take(leaves.len() as int) =~= leaves@);
        }
        hashes
    }

    /// The Merkle tree over the hashes of the leaves, in their order.
    pub fn create_merkle_tree(leaves: &Vec<FieldElement>) -> (tree: Sha256Tree)
        ensures
            tree_leaves(tree) == Self::leaf_digests(leaves@),
    {
        let hashes = Self::hash_leaves(leaves);
        tree_from_leaves(&hashes)
    }

    /// The root of the Merkle tree over the leaves, in their order, as a
    /// field element. An empty sequence of leaves has no root.
    pub fn create_root_hash(leaves: &Vec<FieldElement>) -> (root: Option<FieldElement>)
        ensures
            match root {
                Some(r) => Self::root_spec(leaves@) == Some(r@),
                None => Self::root_spec(leaves@) is None,
            },
    {
        let tree = Self::create_merkle_tree(leaves);
        match tree_root(&tree) {
            Some(top) => Some(FieldElement::from_le_bytes_mod_order(top.as_slice())),
            None => None,
        }
    }

    /// Builds the tree over the leaves, produces the inclusion proof for the
    /// leaves at the given positions, serialises it, parses it again and
    /// checks it against the root. The proof survives the round trip through
    /// its bytes unchanged. Positions outside the tree contribute no leaf,
    /// and a tree without a root validates nothing.
    pub fn generate_proof_and_validate(leaves: &Vec<FieldElement>, indices_to_prove: Vec<usize>) -> (valid:
        bool)
        ensures
            valid == Self::validates_spec(leaves@, indices_to_prove@),
    {
        let hashes = Self::hash_leaves(leaves);
        let tree = tree_from_leaves(&hashes);
        let root = match tree_root(&tree) {
            Some(top) => top,
            None => {
                return false;
            },
        };
        let mut leaves_to_prove: Vec<[u8; 32]> = Vec::new();
        let mut k: usize = 0;
        while k < indices_to_prove.len()
            invariant
                k <= indices_to_prove.len(),
                digest_views(leaves_to_prove@) == Self::selected(
                    digest_views(hashes@),
                    indices_to_prove@.take(k as int),
                ),
            decreases indices_to_prove.len() - k,
        {
            let index = indices_to_prove[k];
            let ghost before = leaves_to_prove@;
            proof {
                assert(indices_to_prove@.take(k + 1).drop_last() =~= indices_to_prove@.take(
                    k as int,
                ));
            }
            if index < hashes.len() {
                leaves_to_prove.push(hashes[index]);
                proof {
                    assert(digest_views(leaves_to_prove@) =~= digest_views(before).push(
                        hashes@[index as int]@,
                    ));
                }
            }
            k += 1;
        }
        proof {
            assert(indices_to_prove@.take(indices_to_prove.len() as int) =~= indices_to_prove@);
        }
        let merkle_proof = tree_proof(&tree, &indices_to_prove);
        let proof_bytes = proof_to_bytes(&merkle_proof);
        proof {
            lemma_pieces_of_joined(digest_views(merkle_proof@));
        }
        match proof_from_bytes(proof_bytes) {
            Some(parsed) => proof_verify(
                parsed,
                root,
                &indices_to_prove,
                &leaves_to_prove,
                leaves.len(),
            ),
            None => false,
        }
    }

    /// Checks the inclusion of every leaf, one at a time, and then returns the
    /// root of the tree. A leaf that fails its check, or a tree without a
    /// root, is an invalid witness.
    pub fn checked_root(leaves: &Vec<FieldElement>) -> (root: Result<FieldElement, AuditError>)
        ensures
            match root {
                Ok(r) => Self::checked_root_spec(leaves@) == Some(r@),
                Err(e) => e == AuditError::InvalidMerkleWitness && Self::checked_root_spec(leaves@)
                    is None,
            },
    {
        let mut idx: usize = 0;
        while idx < leaves.len()
            invariant
                idx <= leaves.len(),
                forall|i: int| 0 <= i < idx ==> #[trigger] Self::leaf_validates(leaves@, i),
            decreases leaves.len() - idx,
        {
            let mut indices: Vec<usize> = Vec::new();
            indices.push(idx);
            proof {
                assert(indices@ =~= seq![idx]);
            }
            if !Self::generate_proof_and_validate(leaves, indices) {
                assert(!Self::leaf_validates(leaves@, idx as int));
                return Err(AuditError::InvalidMerkleWitness);
            }
            assert(Self::leaf_validates(leaves@, idx as int));
            idx += 1;
        }
        match Self::create_root_hash(leaves) {
            Some(r) => Ok(r),
            None => Err(AuditError::InvalidMerkleWitness),
        }
    }
}

} // verus!
