//! Offline verification of a SCITT Receipt attached to a Signed Statement:
//! reading the `receipts` header, decoding a Receipt and its RFC 9162
//! inclusion proofs, and checking a proof and the Receipt signature.
use vstd::prelude::*;
use crate::attach::{envelope_outcome, validate_envelope};
use crate::cbor::{CborValue, CborV, get, entry_value, cbor_read_prefix, cbor_decode, cbor_decode_exact, cbor_read, cbor_write, cbor_written, map_get, map_value, integer, view_items, view_entries, lemma_view_items, lemma_view_entries};
use crate::crypto::{ed25519_accepts, ed25519_verify};
use crate::digest::{sha256, sha256_spec};
use crate::error::Error;

verus! {

/// COSE header parameter carrying attached Receipts (RFC 9942 Section 5.1).
pub const RECEIPTS_LABEL: i64 = 394;

/// COSE protected header parameter carrying the VDS identifier.
pub const VDS_LABEL: i64 = 395;

/// COSE unprotected header parameter carrying Verifiable Data Structure Proofs.
pub const VDP_LABEL: i64 = 396;

/// Key within the `vdp` map holding inclusion proofs.
pub const INCLUSION_PROOF_LABEL: i64 = -1;

/// The `RFC9162_SHA256` Verifiable Data Structure identifier.
pub const RFC9162_SHA256: i64 = 1;

/// `MTH({d})` for a single entry: `HASH(0x00 || d)` (RFC 9162 Section 2.1.1).
pub open spec fn leaf_hash_spec(entry: Seq<u8>) -> Seq<u8> {
    sha256_spec(seq![0u8] + entry)
}

/// An interior node: `HASH(0x01 || left || right)`.
pub open spec fn node_hash_spec(left: Seq<u8>, right: Seq<u8>) -> Seq<u8> {
    sha256_spec(seq![1u8] + left + right)
}

/// `MTH({d})` for a single entry: `HASH(0x00 || d)`.
pub fn leaf_hash(entry: &[u8]) -> (h: [u8; 32])
    ensures
        h@ == leaf_hash_spec(entry@),
{
    let mut data: Vec<u8> = Vec::new();
    data.push(0u8);
    data.extend_from_slice(entry);
    assert(data@ =~= seq![0u8] + entry@);
    sha256(data.as_slice())
}

/// An interior node: `HASH(0x01 || left || right)`.
pub fn node_hash(left: &[u8; 32], right: &[u8; 32]) -> (h: [u8; 32])
    ensures
        h@ == node_hash_spec(left@, right@),
{
    let mut data: Vec<u8> = Vec::new();
    data.push(1u8);
    data.extend_from_slice(left);
    data.extend_from_slice(right);
    assert(data@ =~= seq![1u8] + left@ + right@);
    sha256(data.as_slice())
}

/// A decoded `RFC9162_SHA256` inclusion proof.
#[derive(Debug, Clone, PartialEq, Eq)]
pub struct InclusionProof {
    /// Size of the tree whose root this proof reconstructs.
    pub tree_size: u64,
    /// Index of the proven leaf, relative to `tree_size`.
    pub leaf_index: u64,
    /// Sibling hashes on the path from the leaf to the root.
    pub inclusion_path: Vec<[u8; 32]>,
}

/// The sibling hashes of a path, as byte sequences.
pub open spec fn path_view(path: Seq<[u8; 32]>) -> Seq<Seq<u8>> {
    Seq::new(path.len(), |i: int| path[i]@)
}

/// Step 4b.ii of RFC 9162 Section 2.1.3.2: shift `fn` and `sn` right until
/// the low bit of `fn` is set or `fn` is zero.
pub open spec fn strip_right(f: int, s: int) -> (int, int)
    decreases f,
{
    if f <= 0 {
        (0, s / 2)
    } else {
        let f1 = f / 2;
        let s1 = s / 2;
        if f1 % 2 == 1 || f1 == 0 {
            (f1, s1)
        } else {
            strip_right(f1, s1)
        }
    }
}

/// Steps 4 and 5 of RFC 9162 Section 2.1.3.2 over the remaining `path`,
/// from the running root `r`, `fn` and `sn`.
pub open spec fn fold_path(f: int, s: int, r: Seq<u8>, path: Seq<Seq<u8>>) -> Result<Seq<u8>, &'static str>
    decreases path.len(),
{
    if path.len() == 0 {
        if s == 0 {
            Ok(r)
        } else {
            Err("inclusion proof path ended before the root was reached")
        }
    } else if s == 0 {
        Err("inclusion proof path is longer than the tree permits")
    } else {
        let p = path[0];
        if f % 2 == 1 || f == s {
            let r2 = node_hash_spec(p, r);
            let (f2, s2) = if f % 2 == 0 { strip_right(f, s) } else { (f, s) };
            fold_path(f2 / 2, s2 / 2, r2, path.drop_first())
        } else {
            fold_path(f / 2, s / 2, node_hash_spec(r, p), path.drop_first())
        }
    }
}

/// `strip_right` keeps both counters non-negative and never grows `sn`.
pub proof fn lemma_strip_right_bound(f: int, s: int)
    requires
        f >= 0,
        s >= 0,
    ensures
        strip_right(f, s).0 >= 0,
        0 <= strip_right(f, s).1 <= s,
    decreases f,
{
    if f > 0 {
        let f1 = f / 2;
        let s1 = s / 2;
        if !(f1 % 2 == 1 || f1 == 0) {
            lemma_strip_right_bound(f1, s1);
        }
    }
}

/// The counters after one step of RFC 9162 Section 2.1.3.2 at `fn = f`,
/// `sn = s`.
pub open spec fn path_step(f: int, s: int) -> (int, int) {
    if (f % 2 == 1 || f == s) && f % 2 == 0 {
        (strip_right(f, s).0 / 2, strip_right(f, s).1 / 2)
    } else {
        (f / 2, s / 2)
    }
}

/// The number of sibling hashes RFC 9162 Section 2.1.3.2 consumes from
/// `fn = f`, `sn = s` until `sn` reaches zero: the audit path length of a
/// leaf.
pub open spec fn inclusion_path_len(f: int, s: int) -> int
    decreases s,
    when f >= 0 && s >= 0
{
    if s <= 0 {
        0
    } else {
        proof {
            lemma_strip_right_bound(f, s);
        }
        1 + inclusion_path_len(path_step(f, s).0, path_step(f, s).1)
    }
}

proof fn lemma_path_step_bound(f: int, s: int)
    requires
        f >= 0,
        s > 0,
    ensures
        path_step(f, s).0 >= 0,
        0 <= path_step(f, s).1 < s,
{
    lemma_strip_right_bound(f, s);
}

proof fn lemma_fold_path_length(f: int, s: int, r: Seq<u8>, path: Seq<Seq<u8>>)
    requires
        f >= 0,
        s >= 0,
    ensures
        fold_path(f, s, r, path) is Ok <==> path.len() == inclusion_path_len(f, s),
    decreases path.len(),
{
    if s > 0 {
        lemma_path_step_bound(f, s);
        lemma_path_len_nonneg(path_step(f, s).0, path_step(f, s).1);
    }
    if path.len() > 0 && s != 0 {
        let p = path[0];
        let r2 = if f % 2 == 1 || f == s { node_hash_spec(p, r) } else { node_hash_spec(r, p) };
        lemma_fold_path_length(path_step(f, s).0, path_step(f, s).1, r2, path.drop_first());
    }
}

proof fn lemma_path_len_nonneg(f: int, s: int)
    requires
        f >= 0,
        s >= 0,
    ensures
        inclusion_path_len(f, s) >= 0,
    decreases s,
{
    if s > 0 {
        lemma_path_step_bound(f, s);
        lemma_path_len_nonneg(path_step(f, s).0, path_step(f, s).1);
    }
}

/// The root RFC 9162 Section 2.1.3.2 reconstructs from `leaf`, or the
/// reason it cannot.
pub open spec fn reconstructed_root(leaf_index: int, tree_size: int, leaf: Seq<u8>, path: Seq<Seq<u8>>) -> Result<Seq<u8>, &'static str> {
    if leaf_index >= tree_size {
        Err("inclusion proof leaf_index is not less than tree_size")
    } else {
        fold_path(leaf_index, tree_size - 1, leaf, path)
    }
}

/// The next level of a Merkle tree above the nodes `ls`: adjacent nodes
/// paired by `node_hash_spec`, a last unpaired node carried up unchanged.
pub open spec fn level_up(ls: Seq<Seq<u8>>) -> Seq<Seq<u8>> {
    Seq::new(((ls.len() + 1) / 2) as nat, |i: int|
        if 2 * i + 1 < ls.len() { node_hash_spec(ls[2 * i], ls[2 * i + 1]) } else { ls[2 * i] })
}

/// The root of the Merkle tree above the nodes `ls` of one level.
pub open spec fn level_root(ls: Seq<Seq<u8>>) -> Seq<u8>
    decreases ls.len(),
{
    if ls.len() == 0 {
        Seq::empty()
    } else if ls.len() == 1 {
        ls[0]
    } else {
        level_root(level_up(ls))
    }
}

/// The audit path of node `j` of a level: its sibling on each level on the
/// way up, lowest first; a level on which the node is last and unpaired
/// contributes none.
pub open spec fn level_path(ls: Seq<Seq<u8>>, j: int) -> Seq<Seq<u8>>
    decreases ls.len(),
{
    if ls.len() <= 1 {
        Seq::empty()
    } else if j % 2 == 1 {
        seq![ls[j - 1]] + level_path(level_up(ls), j / 2)
    } else if j + 1 < ls.len() {
        seq![ls[j + 1]] + level_path(level_up(ls), j / 2)
    } else {
        level_path(level_up(ls), j / 2)
    }
}

/// The leaf hashes of a log's entries.
pub open spec fn leaf_level(entries: Seq<Seq<u8>>) -> Seq<Seq<u8>> {
    Seq::new(entries.len(), |i: int| leaf_hash_spec(entries[i]))
}

/// The Merkle tree hash of a log's entries, built level by level from the
/// leaf hashes.
pub open spec fn tree_root(entries: Seq<Seq<u8>>) -> Seq<u8> {
    level_root(leaf_level(entries))
}

/// The audit path of entry `m` of a log.
pub open spec fn audit_path(entries: Seq<Seq<u8>>, m: int) -> Seq<Seq<u8>> {
    level_path(leaf_level(entries), m)
}

/// A node that is last and even on its level is carried up: the fold from
/// `fn = sn = f` goes on as the fold from `fn = sn = f / 2`.
proof fn lemma_fold_carried(f: int, r: Seq<u8>, path: Seq<Seq<u8>>)
    requires
        f >= 2,
        f % 2 == 0,
    ensures
        fold_path(f, f, r, path) == fold_path(f / 2, f / 2, r, path),
{
}

proof fn lemma_level_fold(ls: Seq<Seq<u8>>, j: int)
    requires
        0 <= j < ls.len(),
    ensures
        fold_path(j, ls.len() - 1, ls[j], level_path(ls, j)) == Ok::<Seq<u8>, &'static str>(level_root(ls)),
    decreases ls.len(),
{
    if ls.len() > 1 {
        let up = level_up(ls);
        assert(up.len() - 1 == (ls.len() - 1) / 2);
        lemma_level_fold(up, j / 2);
        if j % 2 == 1 {
            let path = seq![ls[j - 1]] + level_path(up, j / 2);
            assert(path.drop_first() =~= level_path(up, j / 2));
            assert(up[j / 2] == node_hash_spec(ls[j - 1], ls[j]));
        } else if j + 1 < ls.len() {
            let path = seq![ls[j + 1]] + level_path(up, j / 2);
            assert(path.drop_first() =~= level_path(up, j / 2));
            assert(up[j / 2] == node_hash_spec(ls[j], ls[j + 1]));
        } else {
            assert(up[j / 2] == ls[j]);
            lemma_fold_carried(j, ls[j], level_path(up, j / 2));
        }
    }
}

/// The split point of RFC 9162 Section 2.1.1 for `n >= 2` nodes: the
/// largest power of two smaller than `n`.
pub open spec fn split_point(n: int) -> int
    decreases n,
{
    if n <= 2 {
        1
    } else {
        2 * split_point((n + 1) / 2)
    }
}

/// Whether `k` is a power of two.
pub open spec fn is_power_of_two(k: int) -> bool
    decreases k,
{
    if k <= 0 {
        false
    } else if k == 1 {
        true
    } else {
        k % 2 == 0 && is_power_of_two(k / 2)
    }
}

/// The split point is the largest power of two smaller than `n`: a power
/// of two `k` with `k < n <= 2 * k`.
pub proof fn lemma_split_point(n: int)
    requires
        n >= 2,
    ensures
        is_power_of_two(split_point(n)),
        1 <= split_point(n) < n <= 2 * split_point(n),
    decreases n,
{
    if n > 2 {
        lemma_split_point((n + 1) / 2);
        assert(is_power_of_two(2 * split_point((n + 1) / 2)));
    }
}

/// `MTH` of RFC 9162 Section 2.1.1 over leaf hashes `ls`: a single leaf
/// hash is its own tree hash, and a longer list splits at the largest
/// power of two smaller than its length.
pub open spec fn mth(ls: Seq<Seq<u8>>) -> Seq<u8>
    decreases ls.len(),
{
    if ls.len() == 0 {
        Seq::empty()
    } else if ls.len() == 1 {
        ls[0]
    } else {
        proof {
            lemma_split_point(ls.len() as int);
        }
        node_hash_spec(mth(ls.take(split_point(ls.len() as int))), mth(ls.skip(split_point(ls.len() as int))))
    }
}

proof fn lemma_level_up_parts(ls: Seq<Seq<u8>>, k: int)
    requires
        0 < k < ls.len(),
        k % 2 == 0,
    ensures
        level_up(ls).take(k / 2) =~= level_up(ls.take(k)),
        level_up(ls).skip(k / 2) =~= level_up(ls.skip(k)),
{
    assert forall|i: int| 0 <= i < level_up(ls).skip(k / 2).len() implies
        #[trigger] level_up(ls).skip(k / 2)[i] == level_up(ls.skip(k))[i] by {
        assert(ls.skip(k)[2 * i] == ls[k + 2 * i]);
        if 2 * i + 1 < ls.skip(k).len() {
            assert(ls.skip(k)[2 * i + 1] == ls[k + 2 * i + 1]);
        }
    }
}

/// Building a tree level by level gives `MTH` of RFC 9162.
pub proof fn lemma_level_root_is_mth(ls: Seq<Seq<u8>>)
    requires
        ls.len() >= 1,
    ensures
        level_root(ls) == mth(ls),
    decreases ls.len(),
{
    let n = ls.len() as int;
    if n == 2 {
        assert(level_up(ls).len() == 1);
        assert(level_up(ls)[0] == node_hash_spec(ls[0], ls[1]));
        assert(level_root(level_up(ls)) == level_up(ls)[0]);
        assert(split_point(2) == 1);
        assert(ls.take(1) =~= seq![ls[0]]);
        assert(ls.skip(1) =~= seq![ls[1]]);
        assert(mth(seq![ls[0]]) == ls[0]);
        assert(mth(seq![ls[1]]) == ls[1]);
    } else if n > 2 {
        lemma_split_point(n);
        lemma_split_point((n + 1) / 2);
        let k = split_point(n);
        let up = level_up(ls);
        assert(k == 2 * split_point((n + 1) / 2));
        lemma_level_up_parts(ls, k);
        lemma_level_root_is_mth(up);
        let left = ls.take(k);
        let right = ls.skip(k);
        lemma_level_root_is_mth(left);
        lemma_level_root_is_mth(right);
        lemma_level_root_is_mth(level_up(left));
        assert(level_root(left) == level_root(level_up(left)));
        if right.len() >= 2 {
            lemma_level_root_is_mth(level_up(right));
            assert(level_root(right) == level_root(level_up(right)));
        } else {
            assert(level_up(right).len() == 1);
            assert(level_up(right)[0] == right[0]);
        }
        assert(up.take(k / 2) == level_up(left));
        assert(up.skip(k / 2) == level_up(right));
        assert(up.len() == (n + 1) / 2);
        assert(split_point(up.len() as int) == k / 2);
        assert(mth(up) == node_hash_spec(mth(up.take(k / 2)), mth(up.skip(k / 2))));
        assert(mth(ls) == node_hash_spec(mth(left), mth(right)));
        assert(level_root(ls) == level_root(up));
    }
}

/// `PATH(m, D[n])` of RFC 9162 Section 2.1.3.1 over leaf hashes `ls`: the
/// audit path of leaf `m`, lowest sibling first.
pub open spec fn rfc_path(ls: Seq<Seq<u8>>, m: int) -> Seq<Seq<u8>>
    decreases ls.len(),
{
    if ls.len() <= 1 {
        Seq::empty()
    } else {
        proof {
            lemma_split_point(ls.len() as int);
        }
        let k = split_point(ls.len() as int);
        if m < k {
            rfc_path(ls.take(k), m).push(mth(ls.skip(k)))
        } else {
            rfc_path(ls.skip(k), m - k).push(mth(ls.take(k)))
        }
    }
}

/// The level-by-level audit path is `PATH` of RFC 9162.
pub proof fn lemma_level_path_is_rfc_path(ls: Seq<Seq<u8>>, m: int)
    requires
        0 <= m < ls.len(),
    ensures
        level_path(ls, m) == rfc_path(ls, m),
    decreases ls.len(),
{
    let n = ls.len() as int;
    if n == 2 {
        assert(split_point(2) == 1);
        assert(ls.take(1) =~= seq![ls[0]]);
        assert(ls.skip(1) =~= seq![ls[1]]);
        assert(mth(seq![ls[0]]) == ls[0]);
        assert(mth(seq![ls[1]]) == ls[1]);
        assert(level_up(ls).len() == 1);
        assert(level_path(level_up(ls), m / 2) =~= Seq::<Seq<u8>>::empty());
        assert(rfc_path(seq![ls[0]], m) =~= Seq::<Seq<u8>>::empty());
        assert(rfc_path(seq![ls[1]], m - 1) =~= Seq::<Seq<u8>>::empty());
        if m == 0 {
            assert(level_path(ls, m) =~= seq![ls[1]]);
            assert(rfc_path(ls, m) =~= Seq::<Seq<u8>>::empty().push(ls[1]));
        } else {
            assert(level_path(ls, m) =~= seq![ls[0]]);
            assert(rfc_path(ls, m) =~= Seq::<Seq<u8>>::empty().push(ls[0]));
        }
    } else if n > 2 {
        lemma_split_point(n);
        lemma_split_point((n + 1) / 2);
        let k = split_point(n);
        let up = level_up(ls);
        let left = ls.take(k);
        let right = ls.skip(k);
        assert(k == 2 * split_point((n + 1) / 2));
        assert(up.len() == (n + 1) / 2);
        assert(split_point(up.len() as int) == k / 2);
        lemma_level_up_parts(ls, k);
        assert(up.take(k / 2) == level_up(left));
        assert(up.skip(k / 2) == level_up(right));
        lemma_level_path_is_rfc_path(up, m / 2);
        lemma_level_root_is_mth(left);
        lemma_level_root_is_mth(right);
        lemma_level_root_is_mth(level_up(left));
        lemma_level_root_is_mth(level_up(right));
        assert(level_root(left) == level_root(level_up(left)));
        if right.len() >= 2 {
            assert(level_root(right) == level_root(level_up(right)));
        } else {
            assert(level_up(right).len() == 1);
            assert(level_up(right)[0] == right[0]);
        }
        assert(mth(up.take(k / 2)) == mth(left));
        assert(mth(up.skip(k / 2)) == mth(right));
        if m < k {
            lemma_level_path_is_rfc_path(level_up(left), m / 2);
            lemma_level_path_is_rfc_path(left, m);
            assert(rfc_path(up, m / 2) == rfc_path(level_up(left), m / 2).push(mth(right)));
            if m % 2 == 1 {
                assert(level_path(left, m) == seq![left[m - 1]] + level_path(level_up(left), m / 2));
                assert(level_path(ls, m) =~= (seq![left[m - 1]] + level_path(level_up(left), m / 2)).push(mth(right)));
            } else {
                assert(level_path(left, m) == seq![left[m + 1]] + level_path(level_up(left), m / 2));
                assert(level_path(ls, m) =~= (seq![left[m + 1]] + level_path(level_up(left), m / 2)).push(mth(right)));
            }
        } else {
            lemma_level_path_is_rfc_path(right, m - k);
            assert(m / 2 - k / 2 == (m - k) / 2);
            assert(rfc_path(up, m / 2) == rfc_path(level_up(right), (m - k) / 2).push(mth(left)));
            if right.len() >= 2 {
                lemma_level_path_is_rfc_path(level_up(right), (m - k) / 2);
                if m % 2 == 1 {
                    assert(level_path(right, m - k) == seq![right[m - k - 1]] + level_path(level_up(right), (m - k) / 2));
                    assert(level_path(ls, m) =~= (seq![right[m - k - 1]] + level_path(level_up(right), (m - k) / 2)).push(mth(left)));
                } else if m + 1 < n {
                    assert(level_path(right, m - k) == seq![right[m - k + 1]] + level_path(level_up(right), (m - k) / 2));
                    assert(level_path(ls, m) =~= (seq![right[m - k + 1]] + level_path(level_up(right), (m - k) / 2)).push(mth(left)));
                } else {
                    assert(level_path(right, m - k) == level_path(level_up(right), (m - k) / 2));
                    assert(level_path(ls, m) == level_path(up, m / 2));
                }
            } else {
                assert(m == k);
                assert(level_path(level_up(right), 0) =~= Seq::<Seq<u8>>::empty());
                assert(rfc_path(level_up(right), 0) =~= Seq::<Seq<u8>>::empty());
                assert(level_path(right, 0) =~= Seq::<Seq<u8>>::empty());
                assert(level_path(ls, m) == level_path(up, m / 2));
            }
        }
    }
}

/// RFC 9162 inclusion verification reconstructs the tree root from a
/// correct audit path: for every entry `m` of a log `D`, folding
/// `PATH(m, D)` from the entry's leaf hash, with its index and the log's
/// size, gives `MTH(D)`. The level-by-level tree and path are the same
/// root and path.
pub proof fn lemma_inclusion_proof_reconstructs_root(entries: Seq<Seq<u8>>, m: int)
    requires
        0 <= m < entries.len(),
    ensures
        reconstructed_root(m, entries.len() as int, leaf_hash_spec(entries[m]), audit_path(entries, m))
            == Ok::<Seq<u8>, &'static str>(tree_root(entries)),
        tree_root(entries) == mth(leaf_level(entries)),
        audit_path(entries, m) == rfc_path(leaf_level(entries), m),
        reconstructed_root(m, entries.len() as int, leaf_hash_spec(entries[m]), rfc_path(leaf_level(entries), m))
            == Ok::<Seq<u8>, &'static str>(mth(leaf_level(entries))),
{
    lemma_level_fold(leaf_level(entries), m);
    lemma_level_root_is_mth(leaf_level(entries));
    lemma_level_path_is_rfc_path(leaf_level(entries), m);
}

/// RFC 9162 inclusion verification accepts an audit path exactly when it
/// has the length the leaf index and tree size call for, whatever hashes it
/// holds: a path one hash too short or too long is refused.
pub proof fn lemma_inclusion_path_length(leaf_index: int, tree_size: int, leaf: Seq<u8>, path: Seq<Seq<u8>>)
    requires
        0 <= leaf_index < tree_size,
    ensures
        reconstructed_root(leaf_index, tree_size, leaf, path) is Ok
            <==> path.len() == inclusion_path_len(leaf_index, tree_size - 1),
{
    lemma_fold_path_length(leaf_index, tree_size - 1, leaf, path);
}

fn strip(f: u64, s: u64) -> (r: (u64, u64))
    ensures
        (r.0 as int, r.1 as int) == strip_right(f as int, s as int),
        r.0 <= f,
    decreases f,
{
    if f == 0 {
        (0, s / 2)
    } else {
        let f1 = f / 2;
        let s1 = s / 2;
        if f1 % 2 == 1 || f1 == 0 {
            (f1, s1)
        } else {
            strip(f1, s1)
        }
    }
}

impl InclusionProof {
    /// The sibling hashes as byte sequences.
    pub open spec fn path(&self) -> Seq<Seq<u8>> {
        path_view(self.inclusion_path@)
    }

    /// Reconstructs the Merkle root this proof claims, given the proven leaf
    /// hash (RFC 9162 Section 2.1.3.2 up to its final comparison).
    pub fn reconstruct_root(&self, leaf: [u8; 32]) -> (r: Result<[u8; 32], Error>)
        ensures
            match reconstructed_root(self.leaf_index as int, self.tree_size as int, leaf@, self.path()) {
                Ok(root) => r matches Ok(h) && h@ == root,
                Err(code) => r == Err::<[u8; 32], Error>(Error::Receipt(code)),
            },
    {
        if self.leaf_index >= self.tree_size {
            return Err(Error::Receipt("inclusion proof leaf_index is not less than tree_size"));
        }
        let mut node_index = self.leaf_index;
        let mut last_index = self.tree_size - 1;
        let mut root = leaf;
        let mut i: usize = 0;
        let ghost full = self.path();
        assert(full.subrange(0, full.len() as int) =~= full);
        while i < self.inclusion_path.len()
            invariant
                i <= self.inclusion_path@.len(),
                self.leaf_index < self.tree_size,
                full == self.path(),
                fold_path(self.leaf_index as int, self.tree_size - 1, leaf@, full)
                    == fold_path(node_index as int, last_index as int, root@, full.subrange(i as int, full.len() as int)),
            decreases self.inclusion_path@.len() - i,
        {
            let sibling = &self.inclusion_path[i];
            let ghost rest = full.subrange(i as int, full.len() as int);
            proof {
                assert(rest[0] == sibling@);
                assert(rest.drop_first() =~= full.subrange(i + 1, full.len() as int));
            }
            let ghost f = node_index as int;
            let ghost sn = last_index as int;
            let ghost r0 = root@;
            if last_index == 0 {
                proof {
                    assert(rest.len() > 0);
                    assert(fold_path(f, sn, r0, rest) == Err::<Seq<u8>, &'static str>("inclusion proof path is longer than the tree permits"));
                }
                return Err(Error::Receipt("inclusion proof path is longer than the tree permits"));
            }
            if node_index % 2 == 1 || node_index == last_index {
                root = node_hash(sibling, &root);
                if node_index % 2 == 0 {
                    let (f2, s2) = strip(node_index, last_index);
                    node_index = f2;
                    last_index = s2;
                }
            } else {
                root = node_hash(&root, sibling);
            }
            node_index = node_index / 2;
            last_index = last_index / 2;
            proof {
                assert(fold_path(f, sn, r0, rest) == fold_path(node_index as int, last_index as int, root@, rest.drop_first()));
            }
            i = i + 1;
        }
        proof {
            assert(full.subrange(i as int, full.len() as int) =~= Seq::<Seq<u8>>::empty());
        }
        if last_index != 0 {
            return Err(Error::Receipt("inclusion proof path ended before the root was reached"));
        }
        Ok(root)
    }
}

/// The four `COSE_Sign1` elements of a data item, unwrapping a `#6.18` tag.
pub open spec fn sign1_items(value: CborV) -> Option<Seq<CborV>> {
    match value {
        CborV::Tag(tag, inner) => if tag == 18 {
            match *inner {
                CborV::Array(items) => Some(items),
                _ => None,
            }
        } else {
            None
        },
        CborV::Array(items) => Some(items),
        _ => None,
    }
}

/// A data item read as an `i64`.
pub open spec fn as_i64(value: CborV) -> Option<int> {
    match value {
        CborV::Integer(n) => if i64::MIN <= n <= i64::MAX { Some(n) } else { None },
        _ => None,
    }
}

/// A data item read as a `u64`.
pub open spec fn as_u64(value: CborV) -> Option<int> {
    match value {
        CborV::Integer(n) => if 0 <= n <= u64::MAX { Some(n) } else { None },
        _ => None,
    }
}

/// The bytes of a byte-string data item.
pub open spec fn bytes_of(value: CborV) -> Seq<u8> {
    match value {
        CborV::Bytes(b) => b,
        _ => Seq::empty(),
    }
}

/// Returns the four `COSE_Sign1` elements, unwrapping a `#6.18` tag if present.
fn cose_sign1_items(value: &CborValue) -> (r: Option<&Vec<CborValue>>)
    ensures
        match sign1_items(value@) {
            Some(items) => r matches Some(v) && view_items(v@) == items,
            None => r is None,
        },
{
    match value {
        CborValue::Tag(tag, boxed) => {
            if *tag == 18 {
                let inner: &CborValue = &**boxed;
                assert(value@ == CborV::Tag(*tag, Box::new(inner@)));
                match inner {
                    CborValue::Array(items) => Some(items),
                    _ => None,
                }
            } else {
                None
            }
        }
        CborValue::Array(items) => Some(items),
        _ => None,
    }
}

/// Reads a CBOR integer as `i64`.
fn signed(value: &CborValue) -> (r: Option<i64>)
    ensures
        match as_i64(value@) {
            Some(n) => r == Some(n as i64) && n == r.unwrap() as int,
            None => r is None,
        },
{
    match value {
        CborValue::Integer(n) => if *n >= -0x8000_0000_0000_0000i128 && *n <= 0x7fff_ffff_ffff_ffffi128 {
            Some(*n as i64)
        } else {
            None
        },
        _ => None,
    }
}

/// Reads a CBOR unsigned integer as `u64`.
fn unsigned(value: &CborValue) -> (r: Option<u64>)
    ensures
        match as_u64(value@) {
            Some(n) => r == Some(n as u64) && n == r.unwrap() as int,
            None => r is None,
        },
{
    match value {
        CborValue::Integer(n) => if *n >= 0 && *n <= 0xffff_ffff_ffff_ffffi128 {
            Some(*n as u64)
        } else {
            None
        },
        _ => None,
    }
}

/// The 32 bytes of `bytes` as an array.
fn to_hash(bytes: &[u8]) -> (h: [u8; 32])
    requires
        bytes@.len() == 32,
    ensures
        h@ == bytes@,
{
    let mut h = [0u8; 32];
    let mut k: usize = 0;
    while k < 32
        invariant
            k <= 32,
            bytes@.len() == 32,
            h@.len() == 32,
            forall|j: int| 0 <= j < k ==> h@[j] == bytes@[j],
        decreases 32 - k,
    {
        h[k] = bytes[k];
        k = k + 1;
    }
    assert(h@ =~= bytes@);
    h
}

/// An inclusion proof as the library reasons about it.
pub struct ProofModel {
    pub tree_size: int,
    pub leaf_index: int,
    pub path: Seq<Seq<u8>>,
}

/// The first problem among the elements of an `inclusion_path`, in order.
pub open spec fn path_problem(path: Seq<CborV>) -> Option<&'static str>
    decreases path.len(),
{
    if path.len() == 0 {
        None
    } else {
        match path[0] {
            CborV::Bytes(b) => if b.len() == 32 {
                path_problem(path.drop_first())
            } else {
                Some("inclusion proof inclusion_path elements must be 32 bytes")
            },
            _ => Some("inclusion proof inclusion_path elements must be byte strings"),
        }
    }
}

/// The inclusion proof a decoded `[tree_size, leaf_index, inclusion_path]`
/// array carries (RFC 9942 Section 5.2), or the reason it carries none.
pub open spec fn proof_from_item(value: CborV) -> Result<ProofModel, &'static str> {
    match value {
        CborV::Array(items) => if items.len() != 3 {
            Err("inclusion proof must carry exactly three elements")
        } else if as_u64(items[0]) is None {
            Err("inclusion proof tree_size must be a uint")
        } else if as_u64(items[1]) is None {
            Err("inclusion proof leaf_index must be a uint")
        } else {
            match items[2] {
                CborV::Array(path) => if path.len() == 0 {
                    Err("inclusion proof inclusion_path must not be empty")
                } else {
                    match path_problem(path) {
                        Some(code) => Err(code),
                        None => Ok(ProofModel {
                            tree_size: as_u64(items[0]).unwrap(),
                            leaf_index: as_u64(items[1]).unwrap(),
                            path: Seq::new(path.len(), |i: int| bytes_of(path[i])),
                        }),
                    }
                },
                _ => Err("inclusion proof inclusion_path must be an array"),
            }
        },
        _ => Err("inclusion proof must be a CBOR array"),
    }
}

/// The inclusion proof the CBOR bytes inside its `bstr` wrapper encode.
pub open spec fn proof_from_bytes(bytes: Seq<u8>) -> Result<ProofModel, &'static str> {
    match cbor_read(bytes) {
        None => Err("inclusion proof is not valid CBOR"),
        Some((value, rest)) => if rest != 0 {
            Err("trailing bytes after inclusion proof")
        } else {
            proof_from_item(value)
        },
    }
}

impl InclusionProof {
    /// The proof as the library reasons about it.
    pub open spec fn model(&self) -> ProofModel {
        ProofModel {
            tree_size: self.tree_size as int,
            leaf_index: self.leaf_index as int,
            path: self.path(),
        }
    }

    /// Decodes one inclusion proof from the CBOR inside its `bstr` wrapper.
    pub fn from_wrapped_cbor(wrapped: &[u8]) -> (r: Result<Self, Error>)
        ensures
            match proof_from_bytes(wrapped@) {
                Ok(m) => r matches Ok(p) && p.model() == m,
                Err(code) => r == Err::<Self, Error>(Error::Receipt(code)),
            },
    {
        let value = match cbor_decode(wrapped) {
            Ok(v) => v,
            Err(unreadable) => {
                if unreadable {
                    return Err(Error::Receipt("inclusion proof is not valid CBOR"));
                }
                return Err(Error::Receipt("trailing bytes after inclusion proof"));
            }
        };
        let items = match &value {
            CborValue::Array(items) => items,
            _ => return Err(Error::Receipt("inclusion proof must be a CBOR array")),
        };
        proof { lemma_view_items(items@); }
        if items.len() != 3 {
            return Err(Error::Receipt("inclusion proof must carry exactly three elements"));
        }
        let tree_size = match unsigned(&items[0]) {
            Some(n) => n,
            None => return Err(Error::Receipt("inclusion proof tree_size must be a uint")),
        };
        let leaf_index = match unsigned(&items[1]) {
            Some(n) => n,
            None => return Err(Error::Receipt("inclusion proof leaf_index must be a uint")),
        };
        let path = match &items[2] {
            CborValue::Array(p) => p,
            _ => return Err(Error::Receipt("inclusion proof inclusion_path must be an array")),
        };
        let ghost pm = view_items(path@);
        proof { lemma_view_items(path@); }
        if path.len() == 0 {
            return Err(Error::Receipt("inclusion proof inclusion_path must not be empty"));
        }
        assert(pm.subrange(0, pm.len() as int) =~= pm);
        let ghost whole = proof_from_bytes(wrapped@);
        assert(whole == match path_problem(pm) {
            Some(code) => Err::<ProofModel, &'static str>(code),
            None => Ok(ProofModel {
                tree_size: tree_size as int,
                leaf_index: leaf_index as int,
                path: Seq::new(pm.len(), |k: int| bytes_of(pm[k])),
            }),
        });
        let mut inclusion_path: Vec<[u8; 32]> = Vec::new();
        let mut i: usize = 0;
        while i < path.len()
            invariant
                i <= path@.len(),
                pm == view_items(path@),
                pm.len() == path@.len(),
                forall|j: int| 0 <= j < path@.len() ==> #[trigger] pm[j] == path@[j]@,
                path_problem(pm) == path_problem(pm.subrange(i as int, pm.len() as int)),
                whole == proof_from_bytes(wrapped@),
                whole == match path_problem(pm) {
                    Some(code) => Err::<ProofModel, &'static str>(code),
                    None => Ok(ProofModel {
                        tree_size: tree_size as int,
                        leaf_index: leaf_index as int,
                        path: Seq::new(pm.len(), |k: int| bytes_of(pm[k])),
                    }),
                },
                inclusion_path@.len() == i,
                forall|j: int| 0 <= j < i ==> #[trigger] inclusion_path@[j]@ == bytes_of(pm[j]),
            decreases path@.len() - i,
        {
            let ghost rest = pm.subrange(i as int, pm.len() as int);
            proof {
                assert(rest[0] == pm[i as int]);
                assert(rest.drop_first() =~= pm.subrange(i + 1, pm.len() as int));
            }
            match &path[i] {
                CborValue::Bytes(b) => {
                    if b.len() != 32 {
                        return Err(Error::Receipt("inclusion proof inclusion_path elements must be 32 bytes"));
                    }
                    let h = to_hash(b.as_slice());
                    inclusion_path.push(h);
                }
                _ => {
                    return Err(Error::Receipt("inclusion proof inclusion_path elements must be byte strings"));
                }
            }
            i = i + 1;
        }
        proof {
            assert(pm.subrange(i as int, pm.len() as int) =~= Seq::<CborV>::empty());
            assert(path_view(inclusion_path@) =~= Seq::new(pm.len(), |k: int| bytes_of(pm[k])));
        }
        Ok(InclusionProof { tree_size, leaf_index, inclusion_path })
    }
}

/// The models of a sequence of byte vectors.
pub open spec fn byte_vecs(v: Seq<Vec<u8>>) -> Seq<Seq<u8>> {
    Seq::new(v.len(), |i: int| v[i]@)
}

/// The `receipts` (394) header of a Signed Statement, as read.
///
/// A statement with no `receipts` header and one whose header is present but
/// unreadable are kept apart, and there is no single boolean over the set.
#[derive(Debug, Clone, PartialEq, Eq)]
pub enum AttachedReceipts {
    /// The statement carried no `receipts` header.
    Absent,
    /// The statement carried a `receipts` header that could not be read as an
    /// array of Receipts. Carries the reason.
    Malformed(&'static str),
    /// One or more attached Receipts, in the priority order presented.
    Present(Vec<Vec<u8>>),
}

/// The model of an [`AttachedReceipts`].
pub enum AttachedModel {
    Absent,
    Malformed(&'static str),
    Present(Seq<Seq<u8>>),
}

impl View for AttachedReceipts {
    type V = AttachedModel;

    open spec fn view(&self) -> AttachedModel {
        match self {
            AttachedReceipts::Absent => AttachedModel::Absent,
            AttachedReceipts::Malformed(code) => AttachedModel::Malformed(*code),
            AttachedReceipts::Present(receipts) => AttachedModel::Present(byte_vecs(receipts@)),
        }
    }
}

impl AttachedReceipts {
    /// The attached Receipts, or an empty slice in the `Absent` and
    /// `Malformed` cases.
    pub fn as_slice(&self) -> (r: &[Vec<u8>])
        ensures
            match self {
                AttachedReceipts::Present(receipts) => r@ == receipts@,
                _ => r@.len() == 0,
            },
    {
        match self {
            AttachedReceipts::Present(receipts) => receipts.as_slice(),
            _ => &[],
        }
    }
}

/// One element of a `receipts` header as the reader yields it: the contents
/// of a byte string, or the re-encoding of a `COSE_Sign1` array, tagged 18
/// or not, attached before Receipts were wrapped in byte strings; `None`
/// for anything else.
pub open spec fn receipt_element(item: CborV) -> Option<Seq<u8>> {
    match item {
        CborV::Bytes(b) => Some(b),
        _ => match sign1_items(item) {
            Some(items) => if items.len() == 4 { cbor_written(item) } else { None },
            None => None,
        },
    }
}

/// The Receipts a `receipts` header value carries, in order.
pub open spec fn receipts_from_header(value: CborV) -> AttachedModel {
    match value {
        CborV::Array(items) => if items.len() == 0 {
            AttachedModel::Malformed("receipts header is an empty array")
        } else if exists|i: int| 0 <= i < items.len() && #[trigger] receipt_element(items[i]) is None {
            AttachedModel::Malformed("a receipts element is neither a byte string nor a COSE_Sign1")
        } else {
            AttachedModel::Present(Seq::new(items.len(), |i: int| receipt_element(items[i]).unwrap()))
        },
        _ => AttachedModel::Malformed("receipts header is not an array"),
    }
}

/// The `receipts` header of a sound `COSE_Sign1` envelope with protected
/// entries `protected`: the unprotected map first, then the protected one.
pub open spec fn receipts_from_items(items: Seq<CborV>, protected: Seq<(CborV, CborV)>) -> AttachedModel {
    match map_value(items[1], RECEIPTS_LABEL as int) {
        Some(found) => receipts_from_header(found),
        None => match entry_value(protected, RECEIPTS_LABEL as int) {
            Some(found) => receipts_from_header(found),
            None => AttachedModel::Absent,
        },
    }
}

/// The `receipts` header a `COSE_Sign1` Signed Statement carries, or the
/// reason the bytes are not a sound envelope.
pub open spec fn receipts_from_statement(statement: Seq<u8>) -> Result<AttachedModel, &'static str> {
    match cbor_read(statement) {
        None => Err("failed to parse COSE_Sign1 CBOR"),
        Some((value, rest)) => if rest != 0 {
            Err("trailing bytes after COSE_Sign1")
        } else {
            match sign1_items(value) {
                None => Err("COSE_Sign1 must be an array"),
                Some(items) => match envelope_outcome(items, false) {
                    Err(m) => Err(m),
                    Ok(protected) => Ok(receipts_from_items(items, protected)),
                },
            }
        },
    }
}

fn read_receipt_element(item: &CborValue) -> (r: Option<Vec<u8>>)
    ensures
        match receipt_element(item@) {
            Some(b) => r matches Some(v) && v@ == b,
            None => r is None,
        },
{
    match item {
        CborValue::Bytes(b) => Some(copy_bytes(b.as_slice())),
        _ => match cose_sign1_items(item) {
            Some(items) => {
                proof { lemma_view_items(items@); }
                if items.len() == 4 {
                    cbor_write(item)
                } else {
                    None
                }
            },
            None => None,
        },
    }
}

fn read_receipts_array(value: &CborValue) -> (r: AttachedReceipts)
    ensures
        r@ == receipts_from_header(value@),
{
    let items = match value {
        CborValue::Array(items) => items,
        _ => return AttachedReceipts::Malformed("receipts header is not an array"),
    };
    let ghost im = view_items(items@);
    proof { lemma_view_items(items@); }
    if items.len() == 0 {
        return AttachedReceipts::Malformed("receipts header is an empty array");
    }
    let mut receipts: Vec<Vec<u8>> = Vec::new();
    let mut i: usize = 0;
    while i < items.len()
        invariant
            i <= items@.len(),
            im == view_items(items@),
            im.len() == items@.len(),
            value@ == CborV::Array(im),
            forall|j: int| 0 <= j < items@.len() ==> #[trigger] im[j] == items@[j]@,
            receipts@.len() == i,
            forall|j: int| 0 <= j < i ==> receipt_element(#[trigger] im[j]) == Some(receipts@[j]@),
        decreases items@.len() - i,
    {
        match read_receipt_element(&items[i]) {
            Some(encoded) => receipts.push(encoded),
            None => {
                assert(receipt_element(im[i as int]) is None);
                return AttachedReceipts::Malformed("a receipts element is neither a byte string nor a COSE_Sign1");
            }
        }
        i = i + 1;
    }
    proof {
        assert forall|j: int| 0 <= j < im.len() implies #[trigger] receipt_element(im[j]) is Some by {
            assert(receipt_element(im[j]) == Some(receipts@[j]@));
        }
        assert(byte_vecs(receipts@) =~= Seq::new(im.len(), |j: int| receipt_element(im[j]).unwrap()));
    }
    AttachedReceipts::Present(receipts)
}

/// Reads the `receipts` (394) header from a `COSE_Sign1` Signed Statement,
/// tagged 18 or not, from the unprotected map and then the protected map.
/// The envelope's container and header structure must be sound (the checks
/// of the sender); the Issuer signature is not verified.
pub fn attached_receipts(statement: &[u8]) -> (r: Result<AttachedReceipts, Error>)
    ensures
        match receipts_from_statement(statement@) {
            Ok(m) => r matches Ok(a) && a@ == m,
            Err(code) => r == Err::<AttachedReceipts, Error>(Error::Cose(code)),
        },
{
    let value = match cbor_decode(statement) {
        Ok(v) => v,
        Err(unreadable) => {
            if unreadable {
                return Err(Error::Cose("failed to parse COSE_Sign1 CBOR"));
            }
            return Err(Error::Cose("trailing bytes after COSE_Sign1"));
        }
    };
    let items = match cose_sign1_items(&value) {
        Some(items) => items,
        None => return Err(Error::Cose("COSE_Sign1 must be an array")),
    };
    let protected = match validate_envelope(items.as_slice(), false) {
        Ok(es) => es,
        Err(m) => return Err(Error::Cose(m)),
    };
    proof { lemma_view_items(items@); }
    if let Some(found) = map_get(&items[1], RECEIPTS_LABEL as i128) {
        return Ok(read_receipts_array(found));
    }
    if let Some(found) = get(protected.as_slice(), RECEIPTS_LABEL as i128) {
        return Ok(read_receipts_array(found));
    }
    Ok(AttachedReceipts::Absent)
}

/// A decoded attached Receipt, before its signature has been checked.
#[derive(Debug, Clone, PartialEq, Eq)]
pub struct Receipt {
    /// The Verifiable Data Structure identifier from the protected header.
    pub vds: i64,
    /// The inclusion proofs from the `vdp` map, in the order presented.
    pub inclusion_proofs: Vec<InclusionProof>,
    /// The payload, absent when detached.
    pub payload: Option<Vec<u8>>,
    /// The exact protected-header bytes the signature covers.
    pub protected_raw: Vec<u8>,
    /// The signature bytes.
    pub signature: Vec<u8>,
}

/// A Receipt as the library reasons about it.
pub struct ReceiptModel {
    pub vds: int,
    pub proofs: Seq<ProofModel>,
    pub payload: Option<Seq<u8>>,
    pub protected: Seq<u8>,
    pub signature: Seq<u8>,
}

/// The models of a sequence of inclusion proofs.
pub open spec fn proof_models(proofs: Seq<InclusionProof>) -> Seq<ProofModel> {
    Seq::new(proofs.len(), |i: int| proofs[i].model())
}

impl View for Receipt {
    type V = ReceiptModel;

    open spec fn view(&self) -> ReceiptModel {
        ReceiptModel {
            vds: self.vds as int,
            proofs: proof_models(self.inclusion_proofs@),
            payload: match self.payload {
                Some(p) => Some(p@),
                None => None,
            },
            protected: self.protected_raw@,
            signature: self.signature@,
        }
    }
}

/// Prepends decoded proofs to the outcome of decoding the rest.
pub open spec fn prepend_proofs(done: Seq<ProofModel>, rest: Result<Seq<ProofModel>, &'static str>) -> Result<Seq<ProofModel>, &'static str> {
    match rest {
        Ok(more) => Ok(done + more),
        Err(code) => Err(code),
    }
}

/// The inclusion proofs an array of wrapped proofs carries, or the first
/// reason one of them cannot be decoded.
pub open spec fn proofs_from_items(items: Seq<CborV>) -> Result<Seq<ProofModel>, &'static str>
    decreases items.len(),
{
    if items.len() == 0 {
        Ok(Seq::empty())
    } else {
        match items[0] {
            CborV::Bytes(wrapped) => match proof_from_bytes(wrapped) {
                Ok(p) => prepend_proofs(seq![p], proofs_from_items(items.drop_first())),
                Err(code) => Err(code),
            },
            _ => Err("each inclusion proof must be a byte string"),
        }
    }
}

/// The inclusion proofs in the `vdp` map of an unprotected header.
pub open spec fn receipt_proofs(unprotected: CborV) -> Result<Seq<ProofModel>, &'static str> {
    match map_value(unprotected, VDP_LABEL as int) {
        None => Err("receipt unprotected header must carry vdp"),
        Some(vdp) => match map_value(vdp, INCLUSION_PROOF_LABEL as int) {
            None => Err("vdp map must carry an inclusion proof"),
            Some(CborV::Array(items)) => if items.len() == 0 {
                Err("inclusion proofs must not be empty")
            } else {
                proofs_from_items(items)
            },
            Some(_) => Err("inclusion proofs must be an array"),
        },
    }
}

/// The payload element of a Receipt: bytes, or `None` when detached.
pub open spec fn receipt_payload(payload: CborV) -> Result<Option<Seq<u8>>, &'static str> {
    match payload {
        CborV::Bytes(b) => Ok(Some(b)),
        CborV::Null => Ok(None),
        _ => Err("receipt payload must be bytes or null"),
    }
}

/// The Receipt the four `COSE_Sign1` elements carry.
pub open spec fn receipt_from_items(items: Seq<CborV>) -> Result<ReceiptModel, &'static str> {
    match items[0] {
        CborV::Bytes(protected) => match items[3] {
            CborV::Bytes(signature) => match cbor_read(protected) {
                None => Err("receipt protected header is not valid CBOR"),
                Some((header, _)) => match map_value(header, VDS_LABEL as int) {
                    Some(v) if as_i64(v) is Some => match receipt_proofs(items[1]) {
                        Err(code) => Err(code),
                        Ok(proofs) => match receipt_payload(items[2]) {
                            Err(code) => Err(code),
                            Ok(payload) => Ok(ReceiptModel {
                                vds: as_i64(v).unwrap(),
                                proofs,
                                payload,
                                protected,
                                signature,
                            }),
                        },
                    },
                    _ => Err("receipt protected header must carry vds"),
                },
            },
            _ => Err("receipt signature must be bytes"),
        },
        _ => Err("receipt protected header must be bytes"),
    }
}

/// The Receipt the `COSE_Sign1` bytes encode, tagged `#6.18` or not, or the
/// reason they encode none.
pub open spec fn receipt_from_bytes(bytes: Seq<u8>) -> Result<ReceiptModel, &'static str> {
    match cbor_read(bytes) {
        None => Err("receipt is not valid CBOR"),
        Some((value, rest)) => if rest != 0 {
            Err("trailing bytes after receipt")
        } else {
            match sign1_items(value) {
                None => Err("receipt must be a COSE_Sign1 array"),
                Some(items) => if items.len() != 4 {
                    Err("receipt must carry exactly four elements")
                } else {
                    receipt_from_items(items)
                },
            }
        },
    }
}

/// The `Sig_structure` a Receipt signature covers for a given root
/// (RFC 9052 Section 4.4, empty external AAD).
pub open spec fn sig_structure(protected: Seq<u8>, root: Seq<u8>) -> CborV {
    CborV::Array(seq![
        CborV::Text("Signature1"@),
        CborV::Bytes(protected),
        CborV::Bytes(Seq::empty()),
        CborV::Bytes(root),
    ])
}

pub(crate) fn copy_bytes(bytes: &[u8]) -> (v: Vec<u8>)
    ensures
        v@ == bytes@,
{
    let mut v: Vec<u8> = Vec::new();
    v.extend_from_slice(bytes);
    v
}

impl Receipt {
    /// Decodes an attached Receipt from its `COSE_Sign1` bytes, tagged or
    /// untagged.
    pub fn from_cose_sign1(receipt: &[u8]) -> (r: Result<Self, Error>)
        ensures
            match receipt_from_bytes(receipt@) {
                Ok(m) => r matches Ok(rc) && rc@ == m,
                Err(code) => r == Err::<Self, Error>(Error::Receipt(code)),
            },
    {
        let value = match cbor_decode(receipt) {
            Ok(v) => v,
            Err(unreadable) => {
                if unreadable {
                    return Err(Error::Receipt("receipt is not valid CBOR"));
                }
                return Err(Error::Receipt("trailing bytes after receipt"));
            }
        };
        let items = match cose_sign1_items(&value) {
            Some(items) => items,
            None => return Err(Error::Receipt("receipt must be a COSE_Sign1 array")),
        };
        proof { lemma_view_items(items@); }
        if items.len() != 4 {
            return Err(Error::Receipt("receipt must carry exactly four elements"));
        }
        let protected_raw = match &items[0] {
            CborValue::Bytes(b) => b,
            _ => return Err(Error::Receipt("receipt protected header must be bytes")),
        };
        let signature = match &items[3] {
            CborValue::Bytes(b) => b,
            _ => return Err(Error::Receipt("receipt signature must be bytes")),
        };
        let header = match cbor_read_prefix(protected_raw.as_slice()) {
            Some((h, _)) => h,
            None => return Err(Error::Receipt("receipt protected header is not valid CBOR")),
        };
        let vds = match map_get(&header, VDS_LABEL as i128) {
            Some(v) => match signed(v) {
                Some(n) => n,
                None => return Err(Error::Receipt("receipt protected header must carry vds")),
            },
            None => return Err(Error::Receipt("receipt protected header must carry vds")),
        };
        let inclusion_proofs = match Self::read_proofs(&items[1]) {
            Ok(p) => p,
            Err(e) => return Err(e),
        };
        let payload = match &items[2] {
            CborValue::Bytes(b) => Some(copy_bytes(b.as_slice())),
            CborValue::Null => None,
            _ => return Err(Error::Receipt("receipt payload must be bytes or null")),
        };
        let rc = Receipt {
            vds,
            inclusion_proofs,
            payload,
            protected_raw: copy_bytes(protected_raw.as_slice()),
            signature: copy_bytes(signature.as_slice()),
        };
        Ok(rc)
    }

    /// The inclusion proofs in the `vdp` map of the unprotected header.
    fn read_proofs(unprotected: &CborValue) -> (r: Result<Vec<InclusionProof>, Error>)
        ensures
            match receipt_proofs(unprotected@) {
                Ok(m) => r matches Ok(v) && proof_models(v@) == m,
                Err(code) => r == Err::<Vec<InclusionProof>, Error>(Error::Receipt(code)),
            },
    {
        let vdp = match map_get(unprotected, VDP_LABEL as i128) {
            Some(v) => v,
            None => return Err(Error::Receipt("receipt unprotected header must carry vdp")),
        };
        let proofs = match map_get(vdp, INCLUSION_PROOF_LABEL as i128) {
            Some(v) => v,
            None => return Err(Error::Receipt("vdp map must carry an inclusion proof")),
        };
        let proofs = match proofs {
            CborValue::Array(items) => items,
            _ => return Err(Error::Receipt("inclusion proofs must be an array")),
        };
        let ghost pm = view_items(proofs@);
        proof { lemma_view_items(proofs@); }
        if proofs.len() == 0 {
            return Err(Error::Receipt("inclusion proofs must not be empty"));
        }
        let ghost whole = receipt_proofs(unprotected@);
        assert(pm.subrange(0, pm.len() as int) =~= pm);
        assert(whole == prepend_proofs(Seq::empty(), proofs_from_items(pm))) by {
            match proofs_from_items(pm) {
                Ok(m) => assert(Seq::<ProofModel>::empty() + m =~= m),
                Err(_) => {}
            }
        }
        let mut out: Vec<InclusionProof> = Vec::new();
        let mut i: usize = 0;
        while i < proofs.len()
            invariant
                i <= proofs@.len(),
                pm == view_items(proofs@),
                pm.len() == proofs@.len(),
                forall|j: int| 0 <= j < proofs@.len() ==> #[trigger] pm[j] == proofs@[j]@,
                whole == receipt_proofs(unprotected@),
                whole == prepend_proofs(proof_models(out@), proofs_from_items(pm.subrange(i as int, pm.len() as int))),
                out@.len() == i,
            decreases proofs@.len() - i,
        {
            let ghost rest = pm.subrange(i as int, pm.len() as int);
            let ghost done = proof_models(out@);
            proof {
                assert(rest[0] == pm[i as int]);
                assert(rest.drop_first() =~= pm.subrange(i + 1, pm.len() as int));
            }
            let wrapped = match &proofs[i] {
                CborValue::Bytes(w) => w,
                _ => return Err(Error::Receipt("each inclusion proof must be a byte string")),
            };
            let p = match InclusionProof::from_wrapped_cbor(wrapped.as_slice()) {
                Ok(p) => p,
                Err(e) => return Err(e),
            };
            out.push(p);
            proof {
                let tail = proofs_from_items(pm.subrange(i + 1, pm.len() as int));
                assert(proof_models(out@) =~= done.push(p.model()));
                match tail {
                    Ok(more) => {
                        assert(done + (seq![p.model()] + more) =~= done.push(p.model()) + more);
                    }
                    Err(_) => {}
                }
            }
            i = i + 1;
        }
        proof {
            assert(pm.subrange(i as int, pm.len() as int) =~= Seq::<CborV>::empty());
            assert(proof_models(out@) + Seq::<ProofModel>::empty() =~= proof_models(out@));
        }
        Ok(out)
    }

    /// The `Sig_structure` bytes this Receipt's signature covers, for a given root.
    fn signed_bytes(&self, root: &[u8]) -> (r: Result<Vec<u8>, Error>)
        ensures
            match cbor_written(sig_structure(self@.protected, root@)) {
                Some(bytes) => r matches Ok(v) && v@ == bytes,
                None => r == Err::<Vec<u8>, Error>(Error::Receipt("failed to encode Sig_structure")),
            },
    {
        match encode_sig_structure(self.protected_raw.as_slice(), root) {
            Some(encoded) => Ok(encoded),
            None => Err(Error::Receipt("failed to encode Sig_structure")),
        }
    }
}

/// The CBOR encoding of the `Sig_structure` `["Signature1", protected,
/// h'', payload]` (RFC 9052 Section 4.4, empty external AAD).
pub fn encode_sig_structure(protected: &[u8], payload: &[u8]) -> (r: Option<Vec<u8>>)
    ensures
        match cbor_written(sig_structure(protected@, payload@)) {
            Some(bytes) => r matches Some(v) && v@ == bytes,
            None => r is None,
        },
{
    Some(coset_sig_structure(protected, payload))
}

/// `coset::sig_structure_data` for a `COSE_Sign1` whose protected header is
/// kept as the bytes `protected`, with no external data: coset writes the
/// array `["Signature1", protected, h'', payload]` with ciborium into a
/// vector, which the contract states as `cbor_written` of that array.
#[verifier::external_body]
fn coset_sig_structure(protected: &[u8], payload: &[u8]) -> (r: Vec<u8>)
    ensures
        cbor_written(sig_structure(protected@, payload@)) == Some(r@),
{
    coset::sig_structure_data(
        coset::SignatureContext::CoseSign1,
        coset::ProtectedHeader { original_data: Some(protected.to_vec()), header: coset::Header::default() },
        None,
        &[],
        payload,
    )
}

/// What an attached Receipt was found to prove: an inclusion proof
/// reconstructed [`root`](Self::root) over the entry bytes supplied, and the
/// Receipt's signature over that root verified under the key supplied.
#[derive(Debug, Clone, PartialEq, Eq)]
pub struct VerifiedInclusion {
    /// The Merkle root the proof reconstructed and the signature covers.
    pub root: [u8; 32],
    /// Size of the tree the proof was taken against.
    pub tree_size: u64,
    /// Index of the proven leaf.
    pub leaf_index: u64,
}

/// The first of `proofs` that reconstructs a root from `leaf` matching any
/// attached payload and whose `Sig_structure` carries a signature accepted
/// under `key`, as `(root, tree_size, leaf_index)`; otherwise the failure of
/// the last proof tried (`last` when none is left).
pub open spec fn first_verified(rc: ReceiptModel, leaf: Seq<u8>, key: Seq<u8>, proofs: Seq<ProofModel>, last: Error) -> Result<(Seq<u8>, int, int), Error>
    decreases proofs.len(),
{
    if proofs.len() == 0 {
        Err(last)
    } else {
        let p = proofs[0];
        match reconstructed_root(p.leaf_index, p.tree_size, leaf, p.path) {
            Err(code) => first_verified(rc, leaf, key, proofs.drop_first(), Error::Receipt(code)),
            Ok(root) => if rc.payload matches Some(attached) && attached != root {
                first_verified(rc, leaf, key, proofs.drop_first(),
                    Error::Receipt("reconstructed root does not match the receipt's attached payload"))
            } else {
                match cbor_written(sig_structure(rc.protected, root)) {
                    None => Err(Error::Receipt("failed to encode Sig_structure")),
                    Some(message) => if ed25519_accepts(key, message, rc.signature) {
                        Ok((root, p.tree_size, p.leaf_index))
                    } else {
                        first_verified(rc, leaf, key, proofs.drop_first(), Error::Signature)
                    },
                }
            },
        }
    }
}

/// The outcome RFC 9942 Section 5.2 verification gives for a Receipt, the
/// entry bytes and a Transparency Service Ed25519 key.
pub open spec fn inclusion_outcome(receipt: Seq<u8>, entry: Seq<u8>, key: Seq<u8>) -> Result<(Seq<u8>, int, int), Error> {
    match receipt_from_bytes(receipt) {
        Err(code) => Err(Error::Receipt(code)),
        Ok(rc) => if rc.vds != RFC9162_SHA256 as int {
            Err(Error::Receipt("unsupported verifiable data structure; only RFC9162_SHA256 is implemented"))
        } else if rc.signature.len() != 64 {
            Err(Error::Signature)
        } else {
            first_verified(rc, leaf_hash_spec(entry), key, rc.proofs,
                Error::Receipt("receipt carried no usable inclusion proof"))
        },
    }
}

/// Verifies an attached Receipt's inclusion proof and Ed25519 signature,
/// offline, under the Transparency Service public key
/// `transparency_service_key` (32 bytes, RFC 8032 encoding). The first
/// inclusion proof that reconstructs a root over `entry` and carries a
/// verifying signature is returned.
pub fn verify_inclusion(receipt: &[u8], entry: &[u8], transparency_service_key: &[u8; 32]) -> (r: Result<VerifiedInclusion, Error>)
    ensures
        match inclusion_outcome(receipt@, entry@, transparency_service_key@) {
            Ok((root, tree_size, leaf_index)) => r matches Ok(v)
                && v.root@ == root && v.tree_size == tree_size && v.leaf_index == leaf_index,
            Err(e) => r == Err::<VerifiedInclusion, Error>(e),
        },
{
    let rc = match Receipt::from_cose_sign1(receipt) {
        Ok(rc) => rc,
        Err(e) => return Err(e),
    };
    if rc.vds != RFC9162_SHA256 {
        return Err(Error::Receipt("unsupported verifiable data structure; only RFC9162_SHA256 is implemented"));
    }
    if rc.signature.len() != 64 {
        return Err(Error::Signature);
    }
    let leaf = leaf_hash(entry);
    let ghost m = rc@;
    let ghost key = transparency_service_key@;
    let ghost whole = inclusion_outcome(receipt@, entry@, key);
    let ghost all = m.proofs;
    assert(all.subrange(0, all.len() as int) =~= all);
    let mut last = Error::Receipt("receipt carried no usable inclusion proof");
    let mut i: usize = 0;
    while i < rc.inclusion_proofs.len()
        invariant
            i <= rc.inclusion_proofs@.len(),
            m == rc@,
            all == m.proofs,
            all.len() == rc.inclusion_proofs@.len(),
            forall|j: int| 0 <= j < all.len() ==> #[trigger] all[j] == rc.inclusion_proofs@[j].model(),
            m.signature.len() == 64,
            key == transparency_service_key@,
            whole == inclusion_outcome(receipt@, entry@, transparency_service_key@),
            whole == first_verified(m, leaf@, key, all.subrange(i as int, all.len() as int), last),
        decreases rc.inclusion_proofs@.len() - i,
    {
        let ghost rest = all.subrange(i as int, all.len() as int);
        proof {
            assert(rest[0] == all[i as int]);
            assert(rest.drop_first() =~= all.subrange(i + 1, all.len() as int));
        }
        let proof_i = &rc.inclusion_proofs[i];
        match proof_i.reconstruct_root(leaf) {
            Err(e) => {
                last = e;
            }
            Ok(root) => {
                let mismatch = match &rc.payload {
                    Some(attached) => !bytes_equal(attached.as_slice(), &root),
                    None => false,
                };
                if mismatch {
                    last = Error::Receipt("reconstructed root does not match the receipt's attached payload");
                } else {
                    let signed = match rc.signed_bytes(&root) {
                        Ok(b) => b,
                        Err(e) => return Err(e),
                    };
                    if ed25519_verify(transparency_service_key, signed.as_slice(), rc.signature.as_slice()) {
                        return Ok(VerifiedInclusion {
                            root,
                            tree_size: proof_i.tree_size,
                            leaf_index: proof_i.leaf_index,
                        });
                    }
                    last = Error::Signature;
                }
            }
        }
        i = i + 1;
    }
    Err(last)
}

/// Whether two byte slices are equal.
fn bytes_equal(a: &[u8], b: &[u8]) -> (r: bool)
    ensures
        r == (a@ == b@),
{
    if a.len() != b.len() {
        return false;
    }
    let mut i: usize = 0;
    while i < a.len()
        invariant
            i <= a@.len(),
            a@.len() == b@.len(),
            forall|j: int| 0 <= j < i ==> a@[j] == b@[j],
        decreases a@.len() - i,
    {
        if a[i] != b[i] {
            return false;
        }
        i = i + 1;
    }
    assert(a@ =~= b@);
    true
}

} // verus!
