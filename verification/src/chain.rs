//! Chain-level checks over a presentation of receipts: contiguous sequence
//! numbers, hash links between neighbours, and every point at which the
//! Issuer's affiliation statement changed.
use vstd::prelude::*;
use crate::error::Error;
use crate::payload::{Payload, IssuerAffiliation, affiliation_eq, affiliation_wire, lemma_affiliation_eq_is_wire_eq, lemma_affiliation_eq_reflexive, lemma_affiliation_eq_symmetric,
    lemma_affiliation_eq_transitive};
use crate::text::str_eq;

verus! {

/// One point inside a presentation at which `issuerAffiliation` changed.
#[derive(Debug)]
pub struct AffiliationChange {
    /// `chain.seq` of the receipt that introduced the new value.
    pub at_seq: u64,
    /// The value carried by the preceding receipt.
    pub from: IssuerAffiliation,
    /// The value carried by the receipt at `at_seq`.
    pub to: IssuerAffiliation,
}

/// What a chain check observed about a presentation it accepted. There is
/// deliberately no single affiliation value for the whole chain.
#[derive(Debug)]
pub struct ChainReport {
    pub affiliation_changes: Vec<AffiliationChange>,
}

impl ChainReport {
    /// Every point at which `issuerAffiliation` changed, in presentation
    /// order.
    pub fn affiliation_changes(&self) -> (r: &[AffiliationChange])
        ensures
            r@ == self.affiliation_changes@,
    {
        self.affiliation_changes.as_slice()
    }

    /// True when every receipt in the presentation carried the same
    /// `issuerAffiliation`.
    pub fn affiliation_is_uniform(&self) -> (r: bool)
        ensures
            r == (self.affiliation_changes@.len() == 0),
    {
        self.affiliation_changes.len() == 0
    }
}

/// The first link rule broken from index `i` on: contiguous sequence
/// numbers (an overflowing successor is not contiguous), then the hash link.
pub open spec fn link_problem(rs: Seq<Payload>, i: int) -> Option<&'static str>
    decreases rs.len() - i,
{
    if i <= 0 || i >= rs.len() {
        None
    } else if rs[i].chain.seq != rs[i - 1].chain.seq + 1 {
        Some("chain.seq is not contiguous")
    } else if !(rs[i].chain.prev_hash matches Some(h) && h@ == rs[i - 1].chain.hash@) {
        Some("chain.prevHash does not match the preceding receipt")
    } else {
        link_problem(rs, i + 1)
    }
}

/// The first structural chain rule a presentation breaks, in order.
pub open spec fn chain_problem(rs: Seq<Payload>) -> Option<&'static str> {
    if rs.len() == 0 {
        Some("chain must carry at least one receipt")
    } else if rs[0].chain.seq != 0 || rs[0].chain.prev_hash is Some {
        Some("chain head must have seq 0 and a null prevHash")
    } else {
        link_problem(rs, 1)
    }
}

/// The indices `i` below `n` at which the affiliation differs from that of
/// receipt `i - 1`, in order.
pub open spec fn change_indices(rs: Seq<Payload>, n: int) -> Seq<int>
    decreases n,
{
    if n <= 1 {
        Seq::empty()
    } else if !affiliation_eq(rs[n - 2].issuer_affiliation, rs[n - 1].issuer_affiliation) {
        change_indices(rs, n - 1).push(n - 1)
    } else {
        change_indices(rs, n - 1)
    }
}

/// Whether `cs` records exactly the affiliation changes of `rs` below `n`.
pub open spec fn changes_match(cs: Seq<AffiliationChange>, rs: Seq<Payload>, n: int) -> bool {
    let idx = change_indices(rs, n);
    &&& cs.len() == idx.len()
    &&& forall|k: int| 0 <= k < cs.len() ==> {
        let i = #[trigger] idx[k];
        &&& cs[k].at_seq == rs[i].chain.seq
        &&& affiliation_eq(cs[k].from, rs[i - 1].issuer_affiliation)
        &&& affiliation_eq(cs[k].to, rs[i].issuer_affiliation)
    }
}

/// Verifies a slice of receipts as one contiguous chain: a nonempty
/// presentation headed by sequence zero with no previous hash, contiguous
/// sequence numbers and exact hash links. Each receipt's own `chain.hash`
/// was checked when it was parsed and is not checked again. A change of
/// affiliation is reported, never rejected.
pub fn verify_chain(receipts: &[Payload]) -> (r: Result<ChainReport, Error>)
    ensures
        match chain_problem(receipts@) {
            Some(m) => r == Err::<ChainReport, Error>(Error::Validation(m)),
            None => r matches Ok(report) && changes_match(report.affiliation_changes@, receipts@, receipts@.len() as int),
        },
        r matches Ok(rep) ==> (rep.affiliation_changes@.len() == 0 <==> forall|i: int| 0 <= i < receipts@.len()
            ==> affiliation_eq(#[trigger] receipts@[i].issuer_affiliation, receipts@[0].issuer_affiliation)),
{
    if receipts.len() == 0 {
        return Err(Error::Validation("chain must carry at least one receipt"));
    }
    let head = &receipts[0];
    if head.chain_seq() != 0 || head.chain_prev_hash().is_some() {
        return Err(Error::Validation("chain head must have seq 0 and a null prevHash"));
    }
    let mut changes: Vec<AffiliationChange> = Vec::new();
    let mut i: usize = 1;
    while i < receipts.len()
        invariant
            1 <= i <= receipts@.len(),
            chain_problem(receipts@) == link_problem(receipts@, i as int),
            changes_match(changes@, receipts@, i as int),
        decreases receipts@.len() - i,
    {
        let previous = &receipts[i - 1];
        let receipt = &receipts[i];
        if previous.chain_seq() == u64::MAX || receipt.chain_seq() != previous.chain_seq() + 1 {
            return Err(Error::Validation("chain.seq is not contiguous"));
        }
        let linked = match receipt.chain_prev_hash() {
            Some(h) => str_eq(h, previous.chain_hash()),
            None => false,
        };
        if !linked {
            return Err(Error::Validation("chain.prevHash does not match the preceding receipt"));
        }
        let ghost before = changes@;
        if !receipt.issuer_affiliation().same_as(previous.issuer_affiliation()) {
            changes.push(AffiliationChange {
                at_seq: receipt.chain_seq(),
                from: previous.issuer_affiliation().duplicate(),
                to: receipt.issuer_affiliation().duplicate(),
            });
        }
        proof {
            crate::payload::lemma_affiliation_eq_symmetric(receipts@[i - 1].issuer_affiliation, receipts@[i as int].issuer_affiliation);
            let idx = change_indices(receipts@, i + 1);
            assert forall|k: int| 0 <= k < changes@.len() implies {
                let j = #[trigger] idx[k];
                &&& changes@[k].at_seq == receipts@[j].chain.seq
                &&& affiliation_eq(changes@[k].from, receipts@[j - 1].issuer_affiliation)
                &&& affiliation_eq(changes@[k].to, receipts@[j].issuer_affiliation)
            } by {
                if k < before.len() {
                    assert(changes@[k] == before[k]);
                    assert(idx[k] == change_indices(receipts@, i as int)[k]);
                }
            }
        }
        i = i + 1;
    }
    proof {
        lemma_uniform_affiliation(receipts@, receipts@.len() as int);
    }
    Ok(ChainReport { affiliation_changes: changes })
}

/// A presentation reports no affiliation change exactly when every receipt
/// carries the affiliation of the first.
pub proof fn lemma_uniform_affiliation(rs: Seq<Payload>, n: int)
    requires
        1 <= n <= rs.len(),
    ensures
        change_indices(rs, n).len() == 0 <==> forall|i: int| 0 <= i < n ==> affiliation_eq(#[trigger] rs[i].issuer_affiliation, rs[0].issuer_affiliation),
    decreases n,
{
    if n > 1 {
        lemma_uniform_affiliation(rs, n - 1);
        crate::payload::lemma_affiliation_eq_symmetric(rs[n - 2].issuer_affiliation, rs[n - 1].issuer_affiliation);
        crate::payload::lemma_affiliation_eq_transitive(rs[n - 1].issuer_affiliation, rs[n - 2].issuer_affiliation, rs[0].issuer_affiliation);
        crate::payload::lemma_affiliation_eq_transitive(rs[n - 2].issuer_affiliation, rs[n - 1].issuer_affiliation, rs[0].issuer_affiliation);
        crate::payload::lemma_affiliation_eq_symmetric(rs[n - 1].issuer_affiliation, rs[0].issuer_affiliation);
        if change_indices(rs, n).len() == 0 {
            assert(change_indices(rs, n - 1).len() == 0);
        }
        if forall|i: int| 0 <= i < n ==> affiliation_eq(#[trigger] rs[i].issuer_affiliation, rs[0].issuer_affiliation) {
            assert(affiliation_eq(rs[n - 2].issuer_affiliation, rs[0].issuer_affiliation));
            assert(affiliation_eq(rs[n - 1].issuer_affiliation, rs[0].issuer_affiliation));
        }
    } else {
        crate::payload::lemma_affiliation_eq_reflexive(rs[0].issuer_affiliation);
    }
}

/// Whether receipts `lo + 1 ..= hi` each carry the affiliation of the one
/// before.
pub open spec fn no_change_between(rs: Seq<Payload>, lo: int, hi: int) -> bool {
    forall|j: int| lo < j <= hi ==> affiliation_eq(#[trigger] rs[j - 1].issuer_affiliation, rs[j].issuer_affiliation)
}

proof fn lemma_no_change_between(rs: Seq<Payload>, lo: int, hi: int)
    requires
        0 <= lo <= hi < rs.len(),
        no_change_between(rs, lo, hi),
    ensures
        affiliation_eq(rs[lo].issuer_affiliation, rs[hi].issuer_affiliation),
    decreases hi - lo,
{
    if hi == lo {
        lemma_affiliation_eq_reflexive(rs[lo].issuer_affiliation);
    } else {
        lemma_no_change_between(rs, lo, hi - 1);
        assert(affiliation_eq(rs[hi - 1].issuer_affiliation, rs[hi].issuer_affiliation));
        lemma_affiliation_eq_transitive(rs[lo].issuer_affiliation, rs[hi - 1].issuer_affiliation, rs[hi].issuer_affiliation);
    }
}

proof fn lemma_change_indices(rs: Seq<Payload>, n: int)
    requires
        1 <= n <= rs.len(),
    ensures
        change_indices(rs, n).len() <= n - 1,
        forall|k: int| 0 <= k < change_indices(rs, n).len() ==> 1 <= #[trigger] change_indices(rs, n)[k] < n,
        forall|k: int, l: int| 0 <= k < l < change_indices(rs, n).len()
            ==> #[trigger] change_indices(rs, n)[k] < #[trigger] change_indices(rs, n)[l],
        forall|k: int| 0 <= k < change_indices(rs, n).len() ==> !affiliation_eq(
            rs[#[trigger] change_indices(rs, n)[k] - 1].issuer_affiliation, rs[change_indices(rs, n)[k]].issuer_affiliation),
        change_indices(rs, n).len() == 0 ==> no_change_between(rs, 0, n - 1),
        change_indices(rs, n).len() > 0 ==> no_change_between(rs, 0, change_indices(rs, n)[0] - 1)
            && no_change_between(rs, change_indices(rs, n).last(), n - 1),
        forall|k: int| 0 <= k < change_indices(rs, n).len() - 1 ==>
            no_change_between(rs, #[trigger] change_indices(rs, n)[k], change_indices(rs, n)[k + 1] - 1),
    decreases n,
{
    if n > 1 {
        lemma_change_indices(rs, n - 1);
        let prev = change_indices(rs, n - 1);
        if !affiliation_eq(rs[n - 2].issuer_affiliation, rs[n - 1].issuer_affiliation) {
            let idx = prev.push(n - 1);
            assert(change_indices(rs, n) == idx);
            assert forall|k: int| 0 <= k < idx.len() - 1 implies no_change_between(rs, #[trigger] idx[k], idx[k + 1] - 1) by {
                if k < prev.len() - 1 {
                    assert(idx[k] == prev[k] && idx[k + 1] == prev[k + 1]);
                } else {
                    assert(idx[k] == prev.last());
                }
            }
        } else {
            assert(change_indices(rs, n) == prev);
        }
    }
}

proof fn lemma_seq_numbers(rs: Seq<Payload>, i: int)
    requires
        chain_problem(rs) is None,
        0 <= i < rs.len(),
    ensures
        rs[i].chain.seq == i,
    decreases i,
{
    if i > 0 {
        lemma_seq_numbers(rs, i - 1);
        lemma_link_at(rs, 1, i);
    }
}

proof fn lemma_link_at(rs: Seq<Payload>, from: int, i: int)
    requires
        1 <= from <= i < rs.len(),
        link_problem(rs, from) is None,
    ensures
        rs[i].chain.seq == rs[i - 1].chain.seq + 1,
    decreases i - from,
{
    if from < i {
        lemma_link_at(rs, from + 1, i);
    }
}

/// The affiliation changes reported for an accepted presentation `rs` are
/// in order and linked: fewer than the receipts, at strictly increasing
/// sequence numbers from 1 to `rs.len() - 1`, each a real change; the first
/// leaves the head's value, each leaves the value the one before reached,
/// and the last reaches the final receipt's value, so that no value is
/// dropped or merged.
pub proof fn lemma_affiliation_changes_linked(rs: Seq<Payload>, cs: Seq<AffiliationChange>)
    requires
        chain_problem(rs) is None,
        changes_match(cs, rs, rs.len() as int),
    ensures
        cs.len() < rs.len(),
        forall|k: int| 0 <= k < cs.len() ==> 1 <= #[trigger] cs[k].at_seq < rs.len(),
        forall|k: int, l: int| 0 <= k < l < cs.len() ==> #[trigger] cs[k].at_seq < #[trigger] cs[l].at_seq,
        forall|k: int| 0 <= k < cs.len() ==> !affiliation_eq(#[trigger] cs[k].from, cs[k].to),
        cs.len() > 0 ==> affiliation_eq(cs[0].from, rs[0].issuer_affiliation),
        forall|k: int| 1 <= k < cs.len() ==> affiliation_eq(#[trigger] cs[k].from, cs[k - 1].to),
        cs.len() > 0 ==> affiliation_eq(cs.last().to, rs.last().issuer_affiliation),
{
    let n = rs.len() as int;
    let idx = change_indices(rs, n);
    lemma_change_indices(rs, n);
    assert forall|k: int| 0 <= k < cs.len() implies #[trigger] cs[k].at_seq == idx[k] by {
        lemma_seq_numbers(rs, idx[k]);
    }
    assert forall|k: int, l: int| 0 <= k < l < cs.len() implies #[trigger] cs[k].at_seq < #[trigger] cs[l].at_seq by {
        assert(cs[k].at_seq == idx[k] && cs[l].at_seq == idx[l]);
        assert(idx[k] < idx[l]);
    }
    assert forall|k: int| 0 <= k < cs.len() implies !affiliation_eq(#[trigger] cs[k].from, cs[k].to) by {
        let i = idx[k];
        let a = cs[k].from;
        let b = cs[k].to;
        let x = rs[i - 1].issuer_affiliation;
        let y = rs[i].issuer_affiliation;
        lemma_affiliation_eq_symmetric(a, x);
        lemma_affiliation_eq_transitive(x, a, b);
        lemma_affiliation_eq_transitive(x, b, y);
    }
    if cs.len() > 0 {
        let i0 = idx[0];
        lemma_no_change_between(rs, 0, i0 - 1);
        lemma_affiliation_eq_symmetric(rs[0].issuer_affiliation, rs[i0 - 1].issuer_affiliation);
        lemma_affiliation_eq_transitive(cs[0].from, rs[i0 - 1].issuer_affiliation, rs[0].issuer_affiliation);
        let last = idx[cs.len() - 1];
        assert(idx.last() == last);
        lemma_no_change_between(rs, last, n - 1);
        lemma_affiliation_eq_transitive(cs.last().to, rs[last].issuer_affiliation, rs.last().issuer_affiliation);
    }
    assert forall|k: int| 1 <= k < cs.len() implies affiliation_eq(#[trigger] cs[k].from, cs[k - 1].to) by {
        let lo = idx[k - 1];
        let hi = idx[k];
        assert(lo < hi);
        assert(no_change_between(rs, idx[k - 1], idx[k - 1 + 1] - 1));
        lemma_no_change_between(rs, lo, hi - 1);
        let x = rs[lo].issuer_affiliation;
        let y = rs[hi - 1].issuer_affiliation;
        lemma_affiliation_eq_symmetric(cs[k - 1].to, x);
        lemma_affiliation_eq_symmetric(x, y);
        lemma_affiliation_eq_transitive(cs[k].from, y, x);
        lemma_affiliation_eq_transitive(cs[k].from, x, cs[k - 1].to);
    }
}

proof fn lemma_change_indices_hold(rs: Seq<Payload>, n: int, i: int)
    requires
        1 <= i < n <= rs.len(),
        !affiliation_eq(rs[i - 1].issuer_affiliation, rs[i].issuer_affiliation),
    ensures
        change_indices(rs, n).contains(i),
    decreases n,
{
    if i < n - 1 {
        lemma_change_indices_hold(rs, n - 1, i);
        let prev = change_indices(rs, n - 1);
        let k = choose|k: int| 0 <= k < prev.len() && prev[k] == i;
        if !affiliation_eq(rs[n - 2].issuer_affiliation, rs[n - 1].issuer_affiliation) {
            assert(change_indices(rs, n)[k] == i);
        }
    } else {
        assert(change_indices(rs, n).last() == i);
    }
}

/// Every point where a receipt's affiliation text differs from the one
/// before it is reported: for an accepted presentation, when receipt `i`
/// carries another affiliation text than receipt `i - 1`, the report holds
/// a change at sequence number `i` from the earlier text to the later one.
pub proof fn lemma_text_change_reported(rs: Seq<Payload>, cs: Seq<AffiliationChange>, i: int)
    requires
        chain_problem(rs) is None,
        changes_match(cs, rs, rs.len() as int),
        1 <= i < rs.len(),
        affiliation_wire(rs[i - 1].issuer_affiliation) != affiliation_wire(rs[i].issuer_affiliation),
    ensures
        exists|k: int| 0 <= k < cs.len() && #[trigger] cs[k].at_seq == i
            && affiliation_wire(cs[k].from) == affiliation_wire(rs[i - 1].issuer_affiliation)
            && affiliation_wire(cs[k].to) == affiliation_wire(rs[i].issuer_affiliation),
{
    let n = rs.len() as int;
    lemma_affiliation_eq_is_wire_eq(rs[i - 1].issuer_affiliation, rs[i].issuer_affiliation);
    lemma_change_indices_hold(rs, n, i);
    let idx = change_indices(rs, n);
    let k = choose|k: int| 0 <= k < idx.len() && idx[k] == i;
    lemma_seq_numbers(rs, i);
    lemma_affiliation_eq_is_wire_eq(cs[k].from, rs[i - 1].issuer_affiliation);
    lemma_affiliation_eq_is_wire_eq(cs[k].to, rs[i].issuer_affiliation);
    assert(cs[k].at_seq == i);
}

} // verus!
