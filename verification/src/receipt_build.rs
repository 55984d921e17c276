//! A COSE Receipt over a two-leaf RFC 9162 tree, as a mock Transparency
//! Service issues it: protected `vds` = RFC9162_SHA256, one inclusion proof
//! for leaf 0 under `vdp`, a detached payload, and an Ed25519 signature over
//! the reconstructed root.
use vstd::prelude::*;
use vstd::string::StrSliceExecFns;
use crate::cbor::{CborValue, CborV, cbor_read, cbor_written, cbor_write, view_items, view_entries, lemma_view_items, lemma_view_entries,
    no_bignum_tag, nests_within, no_float, lemma_read_back_exact, key_index, map_value};
use crate::receipt::{leaf_hash, node_hash, leaf_hash_spec, node_hash_spec, reconstructed_root, sig_structure, encode_sig_structure, copy_bytes,
    inclusion_outcome, sign1_items, receipt_from_items, receipt_proofs, proofs_from_items, proof_from_bytes, proof_from_item, path_problem,
    first_verified, fold_path, VDS_LABEL, VDP_LABEL, INCLUSION_PROOF_LABEL};
use crate::crypto::{ed25519_sign, ed25519_signature, ed25519_public, ed25519_accepts};
use crate::error::Error;

verus! {

/// The fixed entry registered as leaf 1, so the tree is deterministic for
/// a given entry.
pub const MOCK_SECOND_ENTRY: &'static str = "pask-ts-client mock second leaf";

/// A two-leaf Merkle tree: the caller's entry as leaf 0 and a fixed second
/// entry as leaf 1; the smallest tree whose inclusion proof is nonempty.
#[derive(Debug)]
pub struct TwoLeafTree {
    pub root: [u8; 32],
    pub sibling: [u8; 32],
}

/// The leaf hash of the fixed second entry.
pub open spec fn second_leaf() -> Seq<u8> {
    leaf_hash_spec(vstd::utf8::encode_utf8(MOCK_SECOND_ENTRY@))
}

impl TwoLeafTree {
    /// Builds the tree for the entry the service registers as leaf 0.
    pub fn new(entry: &[u8]) -> (t: Self)
        ensures
            t.sibling@ == second_leaf(),
            t.root@ == node_hash_spec(leaf_hash_spec(entry@), second_leaf()),
    {
        let left = leaf_hash(entry);
        let second = MOCK_SECOND_ENTRY.as_bytes_vec();
        let right = leaf_hash(second.as_slice());
        let root = node_hash(&left, &right);
        TwoLeafTree { root, sibling: right }
    }

    /// The Merkle root, also the detached payload of the receipt.
    pub fn root(&self) -> (r: [u8; 32])
        ensures
            r == self.root,
    {
        self.root
    }

    /// The inclusion proof path for leaf 0: the sibling leaf hash.
    pub fn inclusion_proof(&self) -> (r: Vec<[u8; 32]>)
        ensures
            r@ == seq![self.sibling],
    {
        let mut path: Vec<[u8; 32]> = Vec::new();
        path.push(self.sibling);
        path
    }
}

/// The inclusion proof of a two-leaf tree (tree size 2, leaf index 0, the
/// sibling as path) reconstructs the tree's root from the entry's leaf hash.
pub proof fn lemma_two_leaf_proof(entry: Seq<u8>, tree: TwoLeafTree)
    requires
        tree.sibling@ == second_leaf(),
        tree.root@ == node_hash_spec(leaf_hash_spec(entry), second_leaf()),
    ensures
        reconstructed_root(0, 2, leaf_hash_spec(entry), seq![tree.sibling@]) == Ok::<Seq<u8>, &'static str>(tree.root@),
{
    let path = seq![tree.sibling@];
    assert(path.drop_first() =~= Seq::<Seq<u8>>::empty());
    reveal_with_fuel(crate::receipt::fold_path, 2);
}

/// Errors from receipt construction.
#[derive(Debug, Clone, Copy, PartialEq, Eq)]
pub enum ReceiptBuildError {
    EncodeProtected,
    EncodeProof,
    EncodeSigStructure,
    EncodeReceipt,
}

impl ReceiptBuildError {
    /// The human-readable message of this error.
    pub fn message(&self) -> (r: &'static str)
        ensures
            r@ == match *self {
                ReceiptBuildError::EncodeProtected => "failed to encode protected header"@,
                ReceiptBuildError::EncodeProof => "failed to encode inclusion proof"@,
                ReceiptBuildError::EncodeSigStructure => "failed to encode Sig_structure"@,
                ReceiptBuildError::EncodeReceipt => "failed to encode the receipt"@,
            },
    {
        match self {
            ReceiptBuildError::EncodeProtected => "failed to encode protected header",
            ReceiptBuildError::EncodeProof => "failed to encode inclusion proof",
            ReceiptBuildError::EncodeSigStructure => "failed to encode Sig_structure",
            ReceiptBuildError::EncodeReceipt => "failed to encode the receipt",
        }
    }
}

/// The protected header `{395: 1}`.
pub open spec fn receipt_protected() -> CborV {
    CborV::Entries(seq![(CborV::Integer(395), CborV::Integer(1))])
}

/// The inclusion proof `[2, 0, [sibling]]`.
pub open spec fn two_leaf_proof(sibling: Seq<u8>) -> CborV {
    CborV::Array(seq![CborV::Integer(2), CborV::Integer(0), CborV::Array(seq![CborV::Bytes(sibling)])])
}

/// The unprotected header `{396: {-1: [proof]}}`.
pub open spec fn receipt_unprotected(proof: Seq<u8>) -> CborV {
    CborV::Entries(seq![(CborV::Integer(396), CborV::Entries(seq![(CborV::Integer(-1), CborV::Array(seq![CborV::Bytes(proof)]))]))])
}

/// The bytes of the receipt for a tree signed with `secret`, or the step
/// that failed to encode.
pub open spec fn built_receipt(root: Seq<u8>, sibling: Seq<u8>, secret: Seq<u8>) -> Result<Seq<u8>, ReceiptBuildError> {
    match cbor_written(receipt_protected()) {
        None => Err(ReceiptBuildError::EncodeProtected),
        Some(protected) => match cbor_written(two_leaf_proof(sibling)) {
            None => Err(ReceiptBuildError::EncodeProof),
            Some(proof) => match cbor_written(sig_structure(protected, root)) {
                None => Err(ReceiptBuildError::EncodeSigStructure),
                Some(message) => match cbor_written(CborV::Tag(18, Box::new(CborV::Array(seq![
                    CborV::Bytes(protected),
                    receipt_unprotected(proof),
                    CborV::Null,
                    CborV::Bytes(ed25519_signature(secret, message)),
                ])))) {
                    None => Err(ReceiptBuildError::EncodeReceipt),
                    Some(bytes) => Ok(bytes),
                },
            },
        },
    }
}

fn single_entry(key: i128, value: CborValue) -> (r: CborValue)
    ensures
        r@ == CborV::Entries(seq![(CborV::Integer(key as int), value@)]),
{
    let mut entries: Vec<(CborValue, CborValue)> = Vec::new();
    entries.push((CborValue::Integer(key), value));
    proof {
        lemma_view_entries(entries@);
        assert(view_entries(entries@) =~= seq![(CborV::Integer(key as int), entries@[0].1@)]);
    }
    CborValue::Entries(entries)
}

fn single_item(value: CborValue) -> (r: CborValue)
    ensures
        r@ == CborV::Array(seq![value@]),
{
    let mut items: Vec<CborValue> = Vec::new();
    items.push(value);
    proof {
        lemma_view_items(items@);
        assert(view_items(items@) =~= seq![items@[0]@]);
    }
    CborValue::Array(items)
}

/// The receipt data item: tag 18 around `[protected, unprotected, null,
/// signature]`.
pub open spec fn receipt_item(protected: Seq<u8>, proof: Seq<u8>, signature: Seq<u8>) -> CborV {
    CborV::Tag(18, Box::new(CborV::Array(seq![
        CborV::Bytes(protected),
        receipt_unprotected(proof),
        CborV::Null,
        CborV::Bytes(signature),
    ])))
}

proof fn lemma_one_entry(k: CborV, v: CborV)
    ensures
        no_float(CborV::Entries(seq![(k, v)])) == (no_float(k) && no_float(v)),
        no_bignum_tag(CborV::Entries(seq![(k, v)])) == (no_bignum_tag(k) && no_bignum_tag(v)),
        forall|n: nat| n > 0 ==> #[trigger] nests_within(CborV::Entries(seq![(k, v)]), n)
            == (nests_within(k, (n - 1) as nat) && nests_within(v, (n - 1) as nat)),
{
    reveal_with_fuel(no_float, 2);
    reveal_with_fuel(no_bignum_tag, 2);
    reveal_with_fuel(nests_within, 2);
    let es = seq![(k, v)];
    assert(es.len() == 1 && es[0] == (k, v));
    assert(CborV::Entries(es)->Entries_0 == es);
    if no_float(CborV::Entries(es)) {
        assert(no_float(es[0].0) && no_float(es[0].1));
    }
    if no_bignum_tag(CborV::Entries(es)) {
        assert(no_bignum_tag(es[0].0) && no_bignum_tag(es[0].1));
    }
}

/// The parts of a built receipt hold no float and no bignum tag, and nest
/// a few levels deep.
proof fn lemma_receipt_parts_plain(sibling: Seq<u8>, proof: Seq<u8>, protected: Seq<u8>, signature: Seq<u8>)
    ensures
        no_bignum_tag(receipt_protected()) && nests_within(receipt_protected(), 256) && no_float(receipt_protected()),
        no_bignum_tag(two_leaf_proof(sibling)) && nests_within(two_leaf_proof(sibling), 256) && no_float(two_leaf_proof(sibling)),
        no_bignum_tag(receipt_item(protected, proof, signature)) && nests_within(receipt_item(protected, proof, signature), 256)
            && no_float(receipt_item(protected, proof, signature)),
{
    reveal_with_fuel(no_float, 3);
    reveal_with_fuel(no_bignum_tag, 3);
    reveal_with_fuel(nests_within, 3);
    lemma_one_entry(CborV::Integer(395), CborV::Integer(1));
    let path = seq![CborV::Bytes(sibling)];
    assert(path.len() == 1 && path[0] == CborV::Bytes(sibling));
    assert(no_float(CborV::Array(path)) && no_bignum_tag(CborV::Array(path)) && nests_within(CborV::Array(path), 254));
    let pitems = seq![CborV::Integer(2), CborV::Integer(0), CborV::Array(path)];
    assert(pitems.len() == 3 && pitems[0] == CborV::Integer(2) && pitems[1] == CborV::Integer(0) && pitems[2] == CborV::Array(path));
    assert(forall|i: int| 0 <= i < 3 ==> nests_within(#[trigger] pitems[i], 255));
    assert(forall|i: int| 0 <= i < 3 ==> no_float(#[trigger] pitems[i]) && no_bignum_tag(pitems[i]));
    assert(two_leaf_proof(sibling) == CborV::Array(pitems));
    let proofs = seq![CborV::Bytes(proof)];
    assert(proofs.len() == 1 && proofs[0] == CborV::Bytes(proof));
    assert(no_float(CborV::Array(proofs)) && no_bignum_tag(CborV::Array(proofs)) && nests_within(CborV::Array(proofs), 251));
    let vdp = CborV::Entries(seq![(CborV::Integer(-1), CborV::Array(proofs))]);
    lemma_one_entry(CborV::Integer(-1), CborV::Array(proofs));
    assert(nests_within(vdp, 252));
    lemma_one_entry(CborV::Integer(396), vdp);
    assert(receipt_unprotected(proof) == CborV::Entries(seq![(CborV::Integer(396), vdp)]));
    assert(nests_within(receipt_unprotected(proof), 253));
    let items = seq![CborV::Bytes(protected), receipt_unprotected(proof), CborV::Null, CborV::Bytes(signature)];
    assert(items.len() == 4 && items[0] == CborV::Bytes(protected) && items[1] == receipt_unprotected(proof)
        && items[2] == CborV::Null && items[3] == CborV::Bytes(signature));
    assert(forall|i: int| 0 <= i < 4 ==> nests_within(#[trigger] items[i], 254));
    assert(forall|i: int| 0 <= i < 4 ==> no_float(#[trigger] items[i]) && no_bignum_tag(items[i]));
    assert(nests_within(CborV::Array(items), 255));
    assert(receipt_item(protected, proof, signature) == CborV::Tag(18, Box::new(CborV::Array(items))));
}

/// A receipt built for a two-leaf tree proves the inclusion of the tree's
/// entry under the public key of the signing secret.
proof fn lemma_built_receipt_verifies(bytes: Seq<u8>, protected: Seq<u8>, proof: Seq<u8>, sibling: Seq<u8>,
    root: Seq<u8>, secret: Seq<u8>, message: Seq<u8>, entry: Seq<u8>)
    requires
        cbor_read(protected) == Some((receipt_protected(), 0nat)),
        cbor_read(proof) == Some((two_leaf_proof(sibling), 0nat)),
        cbor_read(bytes) == Some((receipt_item(protected, proof, ed25519_signature(secret, message)), 0nat)),
        cbor_written(sig_structure(protected, root)) == Some(message),
        ed25519_accepts(ed25519_public(secret), message, ed25519_signature(secret, message)),
        ed25519_signature(secret, message).len() == 64,
        sibling.len() == 32,
        reconstructed_root(0, 2, leaf_hash_spec(entry), seq![sibling]) == Ok::<Seq<u8>, &'static str>(root),
    ensures
        inclusion_outcome(bytes, entry, ed25519_public(secret)) == Ok::<(Seq<u8>, int, int), Error>((root, 2, 0)),
{
    reveal_with_fuel(key_index, 2);
    reveal_with_fuel(path_problem, 2);
    reveal_with_fuel(proofs_from_items, 2);
    reveal_with_fuel(first_verified, 2);
    let sig = ed25519_signature(secret, message);
    let items = seq![CborV::Bytes(protected), receipt_unprotected(proof), CborV::Null, CborV::Bytes(sig)];
    assert(sign1_items(receipt_item(protected, proof, sig)) == Some(items));
    let pe = seq![(CborV::Integer(395), CborV::Integer(1))];
    assert(pe.drop_last() =~= Seq::<(CborV, CborV)>::empty());
    assert(map_value(receipt_protected(), VDS_LABEL as int) == Some(CborV::Integer(1)));
    let proofs = seq![CborV::Bytes(proof)];
    let ve = seq![(CborV::Integer(-1), CborV::Array(proofs))];
    assert(ve.drop_last() =~= Seq::<(CborV, CborV)>::empty());
    let vdp = CborV::Entries(ve);
    let ue = seq![(CborV::Integer(396), vdp)];
    assert(ue.drop_last() =~= Seq::<(CborV, CborV)>::empty());
    assert(map_value(receipt_unprotected(proof), VDP_LABEL as int) == Some(vdp));
    assert(map_value(vdp, INCLUSION_PROOF_LABEL as int) == Some(CborV::Array(proofs)));
    let path = seq![CborV::Bytes(sibling)];
    assert(path.drop_first() =~= Seq::<CborV>::empty());
    assert(path_problem(path) is None);
    let p = proof_from_item(two_leaf_proof(sibling))->Ok_0;
    assert(proof_from_item(two_leaf_proof(sibling)) is Ok);
    assert(p.path =~= seq![sibling]);
    assert(p.tree_size == 2 && p.leaf_index == 0);
    assert(proof_from_bytes(proof) == Ok::<_, &'static str>(p));
    assert(proofs.drop_first() =~= Seq::<CborV>::empty());
    assert(proofs_from_items(proofs) == Ok::<Seq<_>, &'static str>(seq![p] + Seq::empty()));
    assert(seq![p] + Seq::empty() =~= seq![p]);
    assert(receipt_proofs(receipt_unprotected(proof)) == Ok::<Seq<_>, &'static str>(seq![p]));
    let rc = receipt_from_items(items)->Ok_0;
    assert(receipt_from_items(items) is Ok);
    assert(rc.vds == 1 && rc.proofs == seq![p] && rc.payload is None && rc.protected == protected && rc.signature == sig);
    assert(seq![p].drop_first() =~= Seq::empty());
}

/// Builds the signed COSE Receipt for a two-leaf tree, signed with the
/// Transparency Service's Ed25519 secret key over the reconstructed root.
pub fn build_receipt(tree: &TwoLeafTree, ts_secret: &[u8; 32]) -> (r: Result<Vec<u8>, ReceiptBuildError>)
    ensures
        match built_receipt(tree.root@, tree.sibling@, ts_secret@) {
            Ok(bytes) => r matches Ok(v) && v@ == bytes,
            Err(e) => r == Err::<Vec<u8>, ReceiptBuildError>(e),
        },
        r matches Ok(bytes) ==> forall|entry: Seq<u8>| tree.sibling@ == second_leaf()
            && tree.root@ == node_hash_spec(leaf_hash_spec(entry), second_leaf())
            ==> #[trigger] inclusion_outcome(bytes@, entry, ed25519_public(ts_secret@))
                == Ok::<(Seq<u8>, int, int), Error>((tree.root@, 2, 0)),
{
    let protected_map = single_entry(395, CborValue::Integer(1));
    let protected = match cbor_write(&protected_map) {
        Some(p) => p,
        None => {
            return Err(ReceiptBuildError::EncodeProtected);
        }
    };
    let path = single_item(CborValue::Bytes(copy_bytes(&tree.sibling)));
    let mut proof_items: Vec<CborValue> = Vec::new();
    proof_items.push(CborValue::Integer(2));
    proof_items.push(CborValue::Integer(0));
    proof_items.push(path);
    proof {
        lemma_view_items(proof_items@);
        assert(view_items(proof_items@) =~= two_leaf_proof(tree.sibling@)->Array_0);
    }
    let proof_bytes = match cbor_write(&CborValue::Array(proof_items)) {
        Some(p) => p,
        None => {
            return Err(ReceiptBuildError::EncodeProof);
        }
    };
    let ghost proof_view = proof_bytes@;
    let vdp = single_entry(-1, single_item(CborValue::Bytes(proof_bytes)));
    let unprotected = single_entry(396, vdp);
    let root = tree.root();
    let message = match encode_sig_structure(protected.as_slice(), &root) {
        Some(m) => m,
        None => {
            return Err(ReceiptBuildError::EncodeSigStructure);
        }
    };
    let signature = ed25519_sign(ts_secret, message.as_slice());
    let ghost protected_view = protected@;
    let mut items: Vec<CborValue> = Vec::new();
    items.push(CborValue::Bytes(protected));
    items.push(unprotected);
    items.push(CborValue::Null);
    items.push(CborValue::Bytes(copy_bytes(&signature)));
    proof {
        lemma_view_items(items@);
        assert(unprotected@ == receipt_unprotected(proof_view));
        assert(view_items(items@) =~= seq![
            CborV::Bytes(protected_view),
            receipt_unprotected(proof_view),
            CborV::Null,
            CborV::Bytes(ed25519_signature(ts_secret@, message@)),
        ]);
    }
    let array = CborValue::Array(items);
    let receipt = CborValue::Tag(18, Box::new(array));
    assert(receipt@ == CborV::Tag(18, Box::new(array@)));
    match cbor_write(&receipt) {
        Some(bytes) => {
            proof {
                let sig = ed25519_signature(ts_secret@, message@);
                lemma_receipt_parts_plain(tree.sibling@, proof_view, protected_view, sig);
                assert(receipt@ == receipt_item(protected_view, proof_view, sig));
                let w0 = cbor_read(protected_view)->Some_0.0;
                lemma_read_back_exact(receipt_protected(), w0);
                let w1 = cbor_read(proof_view)->Some_0.0;
                lemma_read_back_exact(two_leaf_proof(tree.sibling@), w1);
                let w2 = cbor_read(bytes@)->Some_0.0;
                lemma_read_back_exact(receipt_item(protected_view, proof_view, sig), w2);
                assert forall|entry: Seq<u8>| tree.sibling@ == second_leaf()
                    && tree.root@ == node_hash_spec(leaf_hash_spec(entry), second_leaf())
                    implies #[trigger] inclusion_outcome(bytes@, entry, ed25519_public(ts_secret@))
                        == Ok::<(Seq<u8>, int, int), Error>((tree.root@, 2, 0)) by {
                    lemma_two_leaf_proof(entry, *tree);
                    lemma_built_receipt_verifies(bytes@, protected_view, proof_view, tree.sibling@, tree.root@,
                        ts_secret@, message@, entry);
                }
            }
            Ok(bytes)
        },
        None => Err(ReceiptBuildError::EncodeReceipt),
    }
}

} // verus!
