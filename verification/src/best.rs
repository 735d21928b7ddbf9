//! The best-transactions iterator: yields the highest-priority currently
//! executable transaction of a pending-pool snapshot, keeping each
//! sender's transactions in ascending, contiguous nonce order, skipping
//! invalidated chains, and absorbing late arrivals from a broadcast
//! channel between yields.

use vstd::prelude::*;
use crate::arrivals::{poll_arrival, ArrivalPoll};
use crate::primitives::B256;
use crate::tx::{beats_spec, PendingTransaction, PoolTransaction, TransactionId, TxKind};

verus! {

broadcast use
    vstd::seq_lib::group_filter_ensures,
    vstd::seq_lib::lemma_seq_contains_after_push,
    Seq::lemma_filter_push,
    Seq::lemma_filter_contains_rev,
;

/// Whether the snapshot holds a transaction of sender `s` with nonce `n`.
pub open spec fn has_id(txs: Seq<PendingTransaction>, s: crate::primitives::Address, n: int) -> bool {
    exists|i: int|
        0 <= i < txs.len() && (#[trigger] txs[i]).transaction.sender == s
            && txs[i].transaction.nonce == n
}

/// Whether the snapshot holds `t` itself (as the transaction of one of
/// its pending entries).
pub open spec fn in_all_tx(txs: Seq<PendingTransaction>, t: PoolTransaction) -> bool {
    exists|i: int| 0 <= i < txs.len() && (#[trigger] txs[i]).transaction == t
}

/// No two snapshot entries share a (sender, nonce) id.
pub open spec fn no_dup_ids(txs: Seq<PendingTransaction>) -> bool {
    forall|i: int, j: int| #![trigger txs[i], txs[j]]
        0 <= i < txs.len() && 0 <= j < txs.len() && i != j ==> !(txs[i].transaction.sender
            == txs[j].transaction.sender && txs[i].transaction.nonce == txs[j].transaction.nonce)
}

/// Per-sender gaplessness of the snapshot: between two nonces of one
/// sender every intermediate nonce is present as well.
pub open spec fn gapless(txs: Seq<PendingTransaction>) -> bool {
    forall|i: int, j: int| #![trigger txs[i], txs[j]]
        0 <= i < txs.len() && 0 <= j < txs.len() && txs[i].transaction.sender
            == txs[j].transaction.sender && txs[i].transaction.nonce < txs[j].transaction.nonce
            ==> has_id(txs, txs[i].transaction.sender, txs[i].transaction.nonce + 1)
}

/// `t` starts its sender's chain: the snapshot has no direct ancestor
/// for it.
pub open spec fn is_chain_base(txs: Seq<PendingTransaction>, t: PoolTransaction) -> bool {
    !has_id(txs, t.sender, t.nonce - 1)
}

/// The projection of a yield or consumption trace to one sender.
pub open spec fn of_sender(q: Seq<PoolTransaction>, s: crate::primitives::Address) -> Seq<
    PoolTransaction,
> {
    q.filter(|t: PoolTransaction| t.sender == s)
}

/// The nonces of `cs` are contiguous, ascending from the first.
pub open spec fn nonces_contiguous(cs: Seq<PoolTransaction>) -> bool {
    forall|k: int| 0 <= k < cs.len() ==> (#[trigger] cs[k]).nonce == cs[0].nonce + k
}

/// The nonces of `cs` are strictly ascending.
pub open spec fn nonces_ascending(cs: Seq<PoolTransaction>) -> bool {
    forall|k1: int, k2: int| #![trigger cs[k1], cs[k2]]
        0 <= k1 < k2 < cs.len() ==> cs[k1].nonce < cs[k2].nonce
}

/// A consumption chain of one sender: starts at the sender's chain base
/// and advances one nonce at a time.
pub open spec fn chain_shape(all: Seq<PendingTransaction>, cs: Seq<PoolTransaction>) -> bool {
    &&& (cs.len() > 0 ==> is_chain_base(all, cs[0]))
    &&& nonces_contiguous(cs)
}

/// How one sender's yields relate to its consumption chain: ascending,
/// and never ahead of the chain.
pub open spec fn yields_ok(ys: Seq<PoolTransaction>, cs: Seq<PoolTransaction>) -> bool {
    &&& nonces_ascending(ys)
    &&& (ys.len() > 0 ==> cs.len() > 0 && ys.last().nonce <= cs.last().nonce)
}

/// The link a candidate must satisfy to be the next executable
/// transaction of its sender: the chain base if nothing of this sender
/// was consumed yet, else the successor of the last consumed nonce.
pub open spec fn chain_link(
    all: Seq<PendingTransaction>,
    consumed: Seq<PoolTransaction>,
    t: PoolTransaction,
) -> bool {
    if of_sender(consumed, t.sender).len() == 0 {
        is_chain_base(all, t)
    } else {
        t.nonce == of_sender(consumed, t.sender).last().nonce + 1
    }
}

/// The consumption trace never repeats a (sender, nonce) id.
pub open spec fn trace_ids_distinct(q: Seq<PoolTransaction>) -> bool {
    forall|k1: int, k2: int| #![trigger q[k1], q[k2]]
        0 <= k1 < k2 < q.len() ==> !(q[k1].sender == q[k2].sender && q[k1].nonce == q[k2].nonce)
}

/// No two snapshot entries share a transaction hash: the hash identifies
/// a transaction.
pub open spec fn hashes_unique(txs: Seq<PendingTransaction>) -> bool {
    forall|i: int, j: int| #![trigger txs[i], txs[j]]
        0 <= i < txs.len() && 0 <= j < txs.len() && i != j ==> txs[i].transaction.hash
            != txs[j].transaction.hash
}

/// In a hash-unique snapshot, equal hashes mean the same transaction.
proof fn lemma_hash_identifies(
    txs: Seq<PendingTransaction>,
    t1: PoolTransaction,
    t2: PoolTransaction,
)
    requires
        hashes_unique(txs),
        in_all_tx(txs, t1),
        in_all_tx(txs, t2),
        t1.hash == t2.hash,
    ensures
        t1 == t2,
{
    let i1 = choose|i: int| 0 <= i < txs.len() && (#[trigger] txs[i]).transaction == t1;
    let i2 = choose|i: int| 0 <= i < txs.len() && (#[trigger] txs[i]).transaction == t2;
    if i1 != i2 {
        assert(txs[i1].transaction.hash != txs[i2].transaction.hash);
    }
}

/// After popping index `i` (and possibly inserting one unlocked
/// successor), every other candidate value stays contained.
proof fn lemma_candidates_kept(
    ind0: Seq<PendingTransaction>,
    i: int,
    cur: Seq<PendingTransaction>,
)
    requires
        0 <= i < ind0.len(),
        cur == ind0.remove(i) || (exists|u: PendingTransaction| cur == ind0.remove(i).push(u)),
    ensures
        forall|c: PendingTransaction|
            ind0.contains(c) && c != ind0[i] ==> cur.contains(c),
{
    assert forall|c: PendingTransaction|
        ind0.contains(c) && c != ind0[i] implies cur.contains(c) by {
        lemma_contains_after_remove(ind0, i, c);
        if cur != ind0.remove(i) {
            let u = choose|u: PendingTransaction| cur == ind0.remove(i).push(u);
            assert(ind0.remove(i).push(u).contains(c));
        }
    }
}

/// A prefix stays a prefix when the longer trace grows.
proof fn lemma_prefix_push(a: Seq<PoolTransaction>, b: Seq<PoolTransaction>, x: PoolTransaction)
    requires
        a.is_prefix_of(b),
    ensures
        a.is_prefix_of(b.push(x)),
{
    assert(b.push(x).subrange(0, a.len() as int) =~= a);
}

/// A value other than the removed one stays contained.
proof fn lemma_contains_after_remove(s: Seq<PendingTransaction>, i: int, c: PendingTransaction)
    requires
        0 <= i < s.len(),
        s.contains(c),
        c != s[i],
    ensures
        s.remove(i).contains(c),
{
    let j = choose|j: int| 0 <= j < s.len() && s[j] == c;
    s.remove_ensures(i);
    if j < i {
        assert(s.remove(i)[j] == c);
    } else {
        assert(s.remove(i)[j - 1] == c);
    }
}

/// An iterator over a snapshot of the pending pool.
///
/// `all` holds a copy of every pending transaction at snapshot time;
/// `independent` the currently executable candidates, at most one per
/// sender; `invalid` the hashes marked invalid during iteration. Late
/// arrivals come through the broadcast receiver until it is detached.
pub struct BestTransactions {
    all: Vec<PendingTransaction>,
    independent: Vec<PendingTransaction>,
    invalid: Vec<B256>,
    new_transaction_receiver: Option<tokio::sync::broadcast::Receiver<PendingTransaction>>,
    skip_blobs: bool,
    consumed: Ghost<Seq<PoolTransaction>>,
    yielded: Ghost<Seq<PoolTransaction>>,
    blob_skipped: Ghost<bool>,
}

impl BestTransactions {
    /// The snapshot of all pending transactions.
    pub closed spec fn all_view(self) -> Seq<PendingTransaction> {
        self.all@
    }

    /// The currently executable candidates.
    pub closed spec fn independent_view(self) -> Seq<PendingTransaction> {
        self.independent@
    }

    /// Whether `h` was marked invalid.
    pub closed spec fn is_invalid(self, h: B256) -> bool {
        self.invalid@.contains(h)
    }

    /// Every transaction this iterator has taken off its sender's chain:
    /// the yielded ones and the blob transactions dropped while blob
    /// skipping was on.
    pub closed spec fn consumed_view(self) -> Seq<PoolTransaction> {
        self.consumed@
    }

    /// Every transaction this iterator has yielded, in order.
    pub closed spec fn yielded_view(self) -> Seq<PoolTransaction> {
        self.yielded@
    }

    /// Whether the late-arrival channel is detached.
    pub closed spec fn no_channel(self) -> bool {
        self.new_transaction_receiver is None
    }

    /// The blob-exclusion flag.
    pub closed spec fn skip_blobs_view(self) -> bool {
        self.skip_blobs
    }

    /// Whether no blob transaction was ever dropped by blob skipping;
    /// then the yield trace and the consumption trace coincide.
    pub closed spec fn blob_skip_free(self) -> bool {
        !self.blob_skipped@
    }

    /// Structural well-formedness: the snapshot is id-unique and
    /// gapless, candidates are snapshot members, at most one per sender,
    /// each linked to its sender's consumption chain, and every chain is
    /// contiguous from its base.
    pub closed spec fn wf_core(self) -> bool {
        &&& no_dup_ids(self.all@)
        &&& hashes_unique(self.all@)
        &&& gapless(self.all@)
        &&& self.independent@.no_duplicates()
        &&& (forall|i: int, j: int| #![trigger self.independent@[i], self.independent@[j]]
            0 <= i < j < self.independent@.len() ==> self.independent@[i].transaction.sender
                != self.independent@[j].transaction.sender)
        &&& (forall|i: int|
            0 <= i < self.independent@.len() ==> self.all@.contains(
                #[trigger] self.independent@[i],
            ) && chain_link(self.all@, self.consumed@, self.independent@[i].transaction))
        &&& (forall|k: int|
            0 <= k < self.consumed@.len() ==> in_all_tx(self.all@, #[trigger] self.consumed@[k]))
        &&& trace_ids_distinct(self.consumed@)
        &&& (forall|s: crate::primitives::Address|
            chain_shape(self.all@, #[trigger] of_sender(self.consumed@, s)))
        &&& (forall|s: crate::primitives::Address|
            yields_ok(of_sender(self.yielded@, s), #[trigger] of_sender(self.consumed@, s)))
        &&& self.consumed@.len() <= self.all@.len()
    }

    /// Well-formedness: the structural core, and, as long as no blob
    /// transaction was dropped by blob skipping, a yield trace equal to
    /// the consumption trace.
    pub closed spec fn wf(self) -> bool {
        &&& self.wf_core()
        &&& (!self.blob_skipped@ ==> self.yielded@ == self.consumed@)
    }

    /// Number of snapshot entries.
    pub fn all_len(&self) -> (r: usize)
        ensures
            r == self.all_view().len(),
    {
        self.all.len()
    }

    /// Number of currently executable candidates.
    pub fn independent_len(&self) -> (r: usize)
        ensures
            r == self.independent_view().len(),
    {
        self.independent.len()
    }

    /// The candidate at position `i`, for inspection.
    pub fn independent_at(&self, i: usize) -> (r: &PendingTransaction)
        requires
            i < self.independent_view().len(),
        ensures
            *r == self.independent_view()[i as int],
    {
        &self.independent[i]
    }

    /// Mark the transaction, and thereby its not yet unlocked
    /// descendants, as invalid.
    pub fn mark_invalid(&mut self, tx: &PoolTransaction)
        ensures
            final(self).is_invalid(tx.hash),
            forall|h: B256| old(self).is_invalid(h) ==> final(self).is_invalid(h),
            forall|h: B256|
                final(self).is_invalid(h) ==> old(self).is_invalid(h) || h == tx.hash,
            final(self).all_view() == old(self).all_view(),
            final(self).independent_view() == old(self).independent_view(),
            final(self).consumed_view() == old(self).consumed_view(),
            final(self).yielded_view() == old(self).yielded_view(),
            final(self).no_channel() == old(self).no_channel(),
            final(self).skip_blobs_view() == old(self).skip_blobs_view(),
            final(self).blob_skip_free() == old(self).blob_skip_free(),
            old(self).wf() ==> final(self).wf(),
    {
        self.invalid.push(tx.hash);
    }

    /// Detach the late-arrival channel: the snapshot is frozen from now
    /// on.
    pub fn no_updates(&mut self)
        ensures
            final(self).no_channel(),
            final(self).all_view() == old(self).all_view(),
            final(self).independent_view() == old(self).independent_view(),
            final(self).consumed_view() == old(self).consumed_view(),
            final(self).yielded_view() == old(self).yielded_view(),
            forall|h: B256| final(self).is_invalid(h) == old(self).is_invalid(h),
            final(self).skip_blobs_view() == old(self).skip_blobs_view(),
            final(self).blob_skip_free() == old(self).blob_skip_free(),
            old(self).wf() ==> final(self).wf(),
    {
        self.new_transaction_receiver = None;
    }

    /// Set the blob-exclusion flag.
    pub fn set_skip_blobs(&mut self, skip_blobs: bool)
        ensures
            final(self).skip_blobs_view() == skip_blobs,
            final(self).all_view() == old(self).all_view(),
            final(self).independent_view() == old(self).independent_view(),
            final(self).consumed_view() == old(self).consumed_view(),
            final(self).yielded_view() == old(self).yielded_view(),
            forall|h: B256| final(self).is_invalid(h) == old(self).is_invalid(h),
            final(self).no_channel() == old(self).no_channel(),
            final(self).blob_skip_free() == old(self).blob_skip_free(),
            old(self).wf() ==> final(self).wf(),
    {
        self.skip_blobs = skip_blobs;
    }

    /// Exclude blob transactions from now on.
    pub fn skip_blobs(&mut self)
        ensures
            final(self).skip_blobs_view(),
            final(self).all_view() == old(self).all_view(),
            final(self).independent_view() == old(self).independent_view(),
            final(self).consumed_view() == old(self).consumed_view(),
            final(self).yielded_view() == old(self).yielded_view(),
            forall|h: B256| final(self).is_invalid(h) == old(self).is_invalid(h),
            final(self).no_channel() == old(self).no_channel(),
            final(self).blob_skip_free() == old(self).blob_skip_free(),
            old(self).wf() ==> final(self).wf(),
    {
        self.set_skip_blobs(true);
    }
}


impl BestTransactions {
    /// Create an iterator over a pool snapshot. Candidates are exactly
    /// the chain bases: each sender's transaction with the lowest nonce.
    pub fn new(all: Vec<PendingTransaction>) -> (r: BestTransactions)
        requires
            no_dup_ids(all@),
            hashes_unique(all@),
            gapless(all@),
        ensures
            r.wf(),
            r.no_channel(),
            r.all_view() == all@,
            r.consumed_view() == Seq::<PoolTransaction>::empty(),
            r.yielded_view() == Seq::<PoolTransaction>::empty(),
            forall|h: B256| !r.is_invalid(h),
            !r.skip_blobs_view(),
            r.blob_skip_free(),
            forall|i: int|
                0 <= i < all@.len() && is_chain_base(all@, all@[i].transaction)
                    ==> r.independent_view().contains(#[trigger] all@[i]),
            forall|i: int|
                0 <= i < r.independent_view().len() ==> all@.contains(
                    #[trigger] r.independent_view()[i],
                ) && is_chain_base(all@, r.independent_view()[i].transaction),
    {
        let mut independent: Vec<PendingTransaction> = Vec::new();
        let mut i: usize = 0;
        while i < all.len()
            invariant
                i <= all@.len(),
                no_dup_ids(all@),
                gapless(all@),
                forall|k: int|
                    0 <= k < independent@.len() ==> is_chain_base(
                        all@,
                        (#[trigger] independent@[k]).transaction,
                    ),
                forall|k: int|
                    0 <= k < independent@.len() ==> exists|j: int|
                        0 <= j < i && all@[j] == #[trigger] independent@[k],
                forall|k: int|
                    0 <= k < i && is_chain_base(all@, all@[k].transaction)
                        ==> independent@.contains(#[trigger] all@[k]),
                independent@.no_duplicates(),
                forall|k1: int, k2: int| #![trigger independent@[k1], independent@[k2]]
                    0 <= k1 < k2 < independent@.len() ==> independent@[k1].transaction.sender
                        != independent@[k2].transaction.sender,
            decreases all@.len() - i,
        {
            let t = &all[i];
            let base = if t.transaction.nonce == 0 {
                true
            } else {
                find_by_id(&all, t.transaction.sender, t.transaction.nonce - 1).is_none()
            };
            if base {
                proof {
                    assert(is_chain_base(all@, all@[i as int].transaction));
                    // a second candidate of the same sender would contradict
                    // gaplessness: the higher of the two nonces has an ancestor
                    assert forall|k: int|
                        0 <= k < independent@.len() implies independent@[k].transaction.sender
                        != all@[i as int].transaction.sender by {
                        if independent@[k].transaction.sender == all@[i as int].transaction.sender {
                            let e = independent@[k];
                            let j = choose|j: int| 0 <= j < i && all@[j] == e;
                            if all@[j].transaction.nonce < all@[i as int].transaction.nonce {
                                lemma_gapless_between(
                                    all@,
                                    j,
                                    i as int,
                                    all@[i as int].transaction.nonce - 1,
                                );
                            } else if all@[j].transaction.nonce
                                > all@[i as int].transaction.nonce {
                                lemma_gapless_between(
                                    all@,
                                    i as int,
                                    j,
                                    all@[j].transaction.nonce - 1,
                                );
                            }
                        }
                    }
                    assert(!independent@.contains(all@[i as int]));
                }
                independent.push(t.clone());
            }
            i = i + 1;
        }
        let r = BestTransactions {
            all,
            independent,
            invalid: Vec::new(),
            new_transaction_receiver: None,
            skip_blobs: false,
            consumed: Ghost(Seq::empty()),
            yielded: Ghost(Seq::empty()),
            blob_skipped: Ghost(false),
        };
        proof {
            assert forall|s: crate::primitives::Address|
                chain_shape(r.all@, #[trigger] of_sender(r.consumed@, s)) by {
                assert(of_sender(r.consumed@, s).len() == 0) by {
                    r.consumed@.lemma_filter_len(|t: PoolTransaction| t.sender == s);
                }
            }
            assert forall|s: crate::primitives::Address|
                yields_ok(of_sender(r.yielded@, s), #[trigger] of_sender(r.consumed@, s)) by {
                assert(of_sender(r.yielded@, s).len() == 0) by {
                    r.yielded@.lemma_filter_len(|t: PoolTransaction| t.sender == s);
                }
            }
        }
        r
    }

    /// Attach the late-arrival channel: transactions validated after the
    /// snapshot reach the iterator through it until it is detached or
    /// closed.
    pub fn subscribe_new_transactions(
        &mut self,
        rx: tokio::sync::broadcast::Receiver<PendingTransaction>,
    )
        ensures
            !final(self).no_channel(),
            final(self).all_view() == old(self).all_view(),
            final(self).independent_view() == old(self).independent_view(),
            final(self).consumed_view() == old(self).consumed_view(),
            final(self).yielded_view() == old(self).yielded_view(),
            forall|h: B256| final(self).is_invalid(h) == old(self).is_invalid(h),
            final(self).skip_blobs_view() == old(self).skip_blobs_view(),
            final(self).blob_skip_free() == old(self).blob_skip_free(),
    {
        self.new_transaction_receiver = Some(rx);
    }

    /// The snapshot entry that is the direct ancestor of `id`: the same
    /// sender's previous nonce; `None` for a first nonce.
    pub fn ancestor(&self, id: &TransactionId) -> (r: Option<&PendingTransaction>)
        ensures
            id.nonce == 0 ==> r is None,
            id.nonce > 0 ==> (r is Some <==> has_id(self.all_view(), id.sender, id.nonce - 1)),
            r matches Some(p) ==> self.all_view().contains(*p) && p.transaction.sender == id.sender
                && p.transaction.nonce + 1 == id.nonce,
    {
        match id.unchecked_ancestor() {
            None => None,
            Some(anc) => {
                match find_by_id(&self.all, anc.sender, anc.nonce) {
                    None => None,
                    Some(i) => Some(&self.all[i]),
                }
            },
        }
    }
}

/// Find the snapshot entry with the given (sender, nonce) id.
fn find_by_id(
    all: &Vec<PendingTransaction>,
    sender: crate::primitives::Address,
    nonce: u64,
) -> (r: Option<usize>)
    ensures
        r matches Some(i) ==> i < all@.len() && all@[i as int].transaction.sender == sender
            && all@[i as int].transaction.nonce == nonce,
        r is None ==> !has_id(all@, sender, nonce as int),
{
    let mut i: usize = 0;
    while i < all.len()
        invariant
            i <= all@.len(),
            forall|j: int|
                0 <= j < i ==> !((#[trigger] all@[j]).transaction.sender == sender
                    && all@[j].transaction.nonce == nonce),
        decreases all@.len() - i,
    {
        if all[i].transaction.sender == sender && all[i].transaction.nonce == nonce {
            return Some(i);
        }
        i = i + 1;
    }
    None
}

/// Whether `h` is one of the marked hashes.
fn contains_hash(invalid: &Vec<B256>, h: &B256) -> (r: bool)
    ensures
        r == invalid@.contains(*h),
{
    let mut i: usize = 0;
    while i < invalid.len()
        invariant
            i <= invalid@.len(),
            forall|j: int| 0 <= j < i ==> invalid@[j] != *h,
        decreases invalid@.len() - i,
    {
        if invalid[i] == *h {
            return true;
        }
        i = i + 1;
    }
    false
}

/// Remove and return the candidate that beats every other: highest
/// priority, earliest submission on a tie.
fn pop_best(v: &mut Vec<PendingTransaction>) -> (r: Option<PendingTransaction>)
    ensures
        (old(v)@.len() == 0) == (r is None),
        r is None ==> final(v)@ == old(v)@,
        r matches Some(b) ==> exists|i: int|
            0 <= i < old(v)@.len() && old(v)@[i] == b && final(v)@ == old(v)@.remove(i),
        r matches Some(b) ==> forall|j: int|
            0 <= j < final(v)@.len() ==> !beats_spec(#[trigger] final(v)@[j], b),
{
    if v.len() == 0 {
        return None;
    }
    let mut best_idx: usize = 0;
    let mut i: usize = 1;
    while i < v.len()
        invariant
            v@ == old(v)@,
            0 < v@.len(),
            best_idx < i,
            i <= v@.len(),
            forall|j: int| 0 <= j < i ==> !beats_spec(#[trigger] v@[j], v@[best_idx as int]),
        decreases v@.len() - i,
    {
        if crate::tx::beats(&v[i], &v[best_idx]) {
            best_idx = i;
        }
        i = i + 1;
    }
    let ghost bi = best_idx as int;
    let b = v.remove(best_idx);
    proof {
        assert forall|j: int| 0 <= j < v@.len() implies !beats_spec(v@[j], b) by {
            if j < bi {
                assert(v@[j] == old(v)@[j]);
            } else {
                assert(v@[j] == old(v)@[j + 1]);
            }
        }
    }
    Some(b)
}

/// Walking up one sender's gapless run, every intermediate nonce is in
/// the snapshot.
pub proof fn lemma_gapless_between(txs: Seq<PendingTransaction>, i: int, j: int, m: int)
    requires
        gapless(txs),
        0 <= i < txs.len(),
        0 <= j < txs.len(),
        txs[i].transaction.sender == txs[j].transaction.sender,
        txs[i].transaction.nonce <= m <= txs[j].transaction.nonce,
    ensures
        has_id(txs, txs[i].transaction.sender, m),
    decreases m - txs[i].transaction.nonce,
{
    let s = txs[i].transaction.sender;
    if txs[i].transaction.nonce == m {
        assert(0 <= i < txs.len() && txs[i].transaction.sender == s
            && txs[i].transaction.nonce == m);
    } else {
        assert(txs[i].transaction.nonce < txs[j].transaction.nonce);
        assert(has_id(txs, s, txs[i].transaction.nonce + 1));
        let k = choose|k: int|
            0 <= k < txs.len() && (#[trigger] txs[k]).transaction.sender == s
                && txs[k].transaction.nonce == txs[i].transaction.nonce + 1;
        lemma_gapless_between(txs, k, j, m);
    }
}


impl BestTransactions {
    /// Absorb one late arrival: the snapshot gains (or replaces) the
    /// entry under the arrival's id, and the arrival becomes a candidate
    /// exactly when its direct ancestor is absent from the snapshot.
    pub fn insert_arrival(&mut self, tx: PendingTransaction)
        ensures
            has_id(
                old(self).all_view(),
                tx.transaction.sender,
                tx.transaction.nonce as int,
            ) ==> exists|i: int|
                0 <= i < old(self).all_view().len() && (#[trigger] old(self).all_view()[i]).transaction.sender
                    == tx.transaction.sender && old(self).all_view()[i].transaction.nonce
                    == tx.transaction.nonce && final(self).all_view() == old(
                    self,
                ).all_view().update(i, tx),
            !has_id(old(self).all_view(), tx.transaction.sender, tx.transaction.nonce as int)
                ==> final(self).all_view() == old(self).all_view().push(tx),
            (tx.transaction.nonce == 0 || !has_id(
                old(self).all_view(),
                tx.transaction.sender,
                tx.transaction.nonce - 1,
            )) ==> final(self).independent_view() == old(self).independent_view().push(tx),
            !(tx.transaction.nonce == 0 || !has_id(
                old(self).all_view(),
                tx.transaction.sender,
                tx.transaction.nonce - 1,
            )) ==> final(self).independent_view() == old(self).independent_view(),
            final(self).consumed_view() == old(self).consumed_view(),
            final(self).yielded_view() == old(self).yielded_view(),
            forall|h: B256| final(self).is_invalid(h) == old(self).is_invalid(h),
            final(self).no_channel() == old(self).no_channel(),
            final(self).skip_blobs_view() == old(self).skip_blobs_view(),
            final(self).blob_skip_free() == old(self).blob_skip_free(),
    {
        let id = tx.transaction.id();
        let no_ancestor = match id.unchecked_ancestor() {
            None => true,
            Some(anc) => find_by_id(&self.all, anc.sender, anc.nonce).is_none(),
        };
        if no_ancestor {
            self.independent.push(tx);
        }
        match find_by_id(&self.all, id.sender, id.nonce) {
            Some(i) => {
                self.all.set(i, tx);
            },
            None => {
                self.all.push(tx);
            },
        }
    }

    /// Drain the late-arrival channel without blocking and fold every
    /// arrival into the snapshot. A lagged receiver recovers and keeps
    /// draining; a closed channel is dropped for good.
    fn add_new_transactions(&mut self)
        ensures
            old(self).no_channel() ==> *final(self) == *old(self),
            final(self).consumed_view() == old(self).consumed_view(),
            final(self).yielded_view() == old(self).yielded_view(),
            forall|h: B256| final(self).is_invalid(h) == old(self).is_invalid(h),
            final(self).skip_blobs_view() == old(self).skip_blobs_view(),
            final(self).blob_skip_free() == old(self).blob_skip_free(),
    {
        let rx_opt = self.new_transaction_receiver.take();
        match rx_opt {
            None => {},
            Some(mut rx) => {
                let mut fuel: u64 = u64::MAX;
                let mut closed = false;
                loop
                    invariant
                        self.consumed_view() == old(self).consumed_view(),
                        self.yielded_view() == old(self).yielded_view(),
                        forall|h: B256| self.is_invalid(h) == old(self).is_invalid(h),
                        self.skip_blobs_view() == old(self).skip_blobs_view(),
                        self.blob_skip_free() == old(self).blob_skip_free(),
                        self.no_channel(),
                    decreases fuel,
                {
                    if fuel == 0 {
                        break;
                    }
                    fuel = fuel - 1;
                    match poll_arrival(&mut rx) {
                        ArrivalPoll::Arrived(t) => {
                            self.insert_arrival(t);
                        },
                        ArrivalPoll::Lagged => {},
                        ArrivalPoll::Empty => {
                            break;
                        },
                        ArrivalPoll::Closed => {
                            closed = true;
                            break;
                        },
                    }
                }
                if !closed {
                    self.new_transaction_receiver = Some(rx);
                }
            },
        }
    }
}


/// Removing an index keeps the other elements, their order and their
/// distinctness.
proof fn lemma_remove_keeps(s: Seq<PendingTransaction>, i: int)
    requires
        0 <= i < s.len(),
    ensures
        s.remove(i).len() == s.len() - 1,
        forall|j: int| 0 <= j < i ==> s.remove(i)[j] == s[j],
        forall|j: int| i <= j < s.len() - 1 ==> s.remove(i)[j] == s[j + 1],
        s.no_duplicates() ==> s.remove(i).no_duplicates(),
{
    s.remove_ensures(i);
    if s.no_duplicates() {
        assert forall|j1: int, j2: int|
            0 <= j1 < j2 < s.remove(i).len() implies s.remove(i)[j1] != s.remove(i)[j2] by {
            if j1 < i {
                assert(s.remove(i)[j1] == s[j1]);
            } else {
                assert(s.remove(i)[j1] == s[j1 + 1]);
            }
            if j2 < i {
                assert(s.remove(i)[j2] == s[j2]);
            } else {
                assert(s.remove(i)[j2] == s[j2 + 1]);
            }
        }
    }
}

/// A trace of distinct ids whose members all come from an id-unique
/// snapshot is no longer than the snapshot.
proof fn lemma_trace_len_bound(all: Seq<PendingTransaction>, trace: Seq<PoolTransaction>)
    requires
        no_dup_ids(all),
        trace_ids_distinct(trace),
        forall|k: int| 0 <= k < trace.len() ==> in_all_tx(all, #[trigger] trace[k]),
    ensures
        trace.len() <= all.len(),
    decreases trace.len(),
{
    if trace.len() > 0 {
        let t = trace.last();
        assert(in_all_tx(all, t));
        let i = choose|i: int| 0 <= i < all.len() && (#[trigger] all[i]).transaction == t;
        let all2 = all.remove(i);
        let rest = trace.drop_last();
        all.remove_ensures(i);
        assert forall|j1: int, j2: int| #![trigger all2[j1], all2[j2]]
            0 <= j1 < all2.len() && 0 <= j2 < all2.len() && j1 != j2 implies !(all2[j1].transaction.sender
            == all2[j2].transaction.sender && all2[j1].transaction.nonce
            == all2[j2].transaction.nonce) by {
            let m1: int = if j1 < i { j1 } else { j1 + 1 };
            let m2: int = if j2 < i { j2 } else { j2 + 1 };
            assert(all2[j1] == all[m1]);
            assert(all2[j2] == all[m2]);
        }
        assert forall|k: int| 0 <= k < rest.len() implies in_all_tx(all2, #[trigger] rest[k]) by {
            assert(in_all_tx(all, trace[k]));
            let j = choose|j: int| 0 <= j < all.len() && (#[trigger] all[j]).transaction == trace[k];
            assert(!(trace[k].sender == t.sender && trace[k].nonce == t.nonce));
            assert(j != i);
            if j < i {
                assert(all2[j] == all[j]);
            } else {
                assert(all2[j - 1] == all[j]);
            }
        }
        lemma_trace_len_bound(all2, rest);
    }
}

impl BestTransactions {
    /// Candidates still to be handed out, plus snapshot entries whose
    /// chains have not been walked yet: an upper bound on the work left.
    pub closed spec fn credit(self) -> int {
        self.independent@.len() + self.all@.len() - self.consumed@.len()
    }

    /// Yield the next executable transaction: the best candidate whose
    /// hash was not marked invalid, unlocking the same sender's next
    /// nonce. With a frozen snapshot the iterator is exact: `None` means
    /// no candidate is left, a yield extends the yielding sender's chain
    /// by one nonce, and a transaction marked invalid before being
    /// consumed blocks every higher nonce of its sender.
    #[verifier::rlimit(100)]
    #[verifier::spinoff_prover]
    pub fn next(&mut self) -> (r: Option<PoolTransaction>)
        ensures
            final(self).skip_blobs_view() == old(self).skip_blobs_view(),
            forall|h: B256| old(self).is_invalid(h) ==> final(self).is_invalid(h),
            r is None ==> final(self).yielded_view() == old(self).yielded_view(),
            r matches Some(y) ==> final(self).yielded_view() == old(self).yielded_view().push(y)
                && !final(self).is_invalid(y.hash) && !old(self).is_invalid(y.hash) && (y.kind
                == TxKind::Eip4844 ==> !old(self).skip_blobs_view()),
            old(self).blob_skip_free() && !old(self).skip_blobs_view()
                ==> final(self).blob_skip_free(),
            old(self).wf() && old(self).no_channel()
                ==> final(self).wf() && final(self).no_channel()
                && final(self).all_view() == old(self).all_view(),
            old(self).wf() && old(self).no_channel() ==> old(self).consumed_view().is_prefix_of(
                final(self).consumed_view(),
            ) && final(self).credit() <= old(self).credit() && final(self).credit() >= 0,
            old(self).wf() && old(self).no_channel() && r is None
                ==> final(self).independent_view().len() == 0,
            old(self).wf() && old(self).no_channel() && r is None ==> (forall|
                c: PendingTransaction,
            |
                old(self).independent_view().contains(c) ==> old(self).is_invalid(
                    c.transaction.hash,
                ) || (old(self).skip_blobs_view() && c.transaction.kind == TxKind::Eip4844)),
            old(self).wf() && old(self).no_channel() ==> (r matches Some(y)
                ==> in_all_tx(old(self).all_view(), y) && final(self).credit() < old(self).credit()
                && final(self).consumed_view().len() > old(self).consumed_view().len()
                && final(self).consumed_view().last() == y),
            old(self).wf() && old(self).no_channel() ==> (r matches Some(y) ==> (forall|
                t: PoolTransaction,
            |
                in_all_tx(old(self).all_view(), t) && old(self).is_invalid(t.hash)
                    && !old(self).consumed_view().contains(t) && t.sender == y.sender
                    ==> y.nonce <= t.nonce)),
            old(self).wf() && old(self).no_channel() ==> (r matches Some(y) ==> (forall|
                c: PendingTransaction,
            |
                old(self).independent_view().contains(c)
                    ==> final(self).independent_view().contains(c) || c.transaction == y
                    || old(self).is_invalid(c.transaction.hash)
                    || (old(self).skip_blobs_view() && c.transaction.kind == TxKind::Eip4844))),
            old(self).wf() && old(self).no_channel() ==> (forall|t: PoolTransaction|
                in_all_tx(old(self).all_view(), t) && old(self).is_invalid(t.hash)
                    && !old(self).consumed_view().contains(t)
                    ==> !final(self).consumed_view().contains(t)),
            old(self).wf() && old(self).no_channel() ==> (forall|h: B256|
                final(self).is_invalid(h) ==> old(self).is_invalid(h)
                    || (old(self).skip_blobs_view() && (exists|t: PoolTransaction|
                    in_all_tx(old(self).all_view(), t) && t.hash == h && t.kind == TxKind::Eip4844
                        && !final(self).yielded_view().contains(t)))),
    {
        let ghost pre = *old(self);
        let ghost strong = pre.wf() && pre.no_channel();
        let mut fuel: u128 = u128::MAX;
        loop
            invariant
                pre == *old(self),
                strong ==> pre.no_channel(),
                self.skip_blobs == pre.skip_blobs,
                forall|h: B256| pre.is_invalid(h) ==> self.is_invalid(h),
                self.yielded@ == pre.yielded@,
                pre.blob_skip_free() && !pre.skip_blobs ==> self.blob_skip_free(),
                strong == (pre.wf() && pre.no_channel()),
                strong ==> {
                    &&& self.wf()
                    &&& self.no_channel()
                    &&& self.all@ == pre.all@
                    &&& pre.consumed@.is_prefix_of(self.consumed@)
                    &&& fuel >= u128::MAX - pre.credit() + self.credit()
                    &&& self.credit() <= pre.credit()
                    &&& (forall|t: PoolTransaction|
                        in_all_tx(pre.all@, t) && pre.is_invalid(t.hash) && !pre.consumed@.contains(
                            t,
                        ) ==> !self.consumed@.contains(t))
                    &&& (forall|c: PendingTransaction|
                        pre.independent@.contains(c) ==> self.independent@.contains(c)
                            || pre.is_invalid(c.transaction.hash) || (pre.skip_blobs
                            && c.transaction.kind == TxKind::Eip4844))
                    &&& (forall|h: B256|
                        self.is_invalid(h) ==> pre.is_invalid(h) || (pre.skip_blobs && (exists|
                            t: PoolTransaction,
                        |
                            in_all_tx(pre.all@, t) && t.hash == h && t.kind == TxKind::Eip4844
                                && !self.yielded@.contains(t))))
                },
            decreases fuel,
        {
            if fuel == 0 {
                proof {
                    if strong {
                        vstd::std_specs::vec::axiom_spec_len(&pre.all);
                        vstd::std_specs::vec::axiom_spec_len(&pre.independent);
                        assert(self.credit() >= self.independent@.len() >= 0);
                        assert(pre.credit() <= pre.independent@.len() + pre.all@.len());
                        assert(false);
                    }
                }
                return None;
            }
            fuel = fuel - 1;
            self.add_new_transactions();
            let ghost st0 = *self;
            let ghost ind0 = self.independent@;
            let popped = pop_best(&mut self.independent);
            let best = match popped {
                None => {
                    proof {
                        if strong {
                            assert forall|h: B256|
                                self.is_invalid(h) && !pre.is_invalid(h) implies (pre.skip_blobs
                                && (exists|t: PoolTransaction|
                                in_all_tx(pre.all@, t) && t.hash == h && t.kind == TxKind::Eip4844
                                    && !self.yielded@.contains(t))) by {}
                            assert(forall|h: B256|
                                self.is_invalid(h) ==> pre.is_invalid(h) || (pre.skip_blobs && (
                                exists|t: PoolTransaction|
                                    in_all_tx(pre.all@, t) && t.hash == h && t.kind
                                        == TxKind::Eip4844 && !self.yielded_view().contains(t))));
                        }
                    }
                    return None;
                },
                Some(b) => b,
            };
            let ghost ind1 = self.independent@;
            proof {
                if strong {
                    let i = choose|i: int|
                        0 <= i < ind0.len() && ind0[i] == best && ind1 == ind0.remove(i);
                    lemma_remove_keeps(ind0, i);
                    assert(st0.all@.contains(best) && chain_link(
                        st0.all@,
                        st0.consumed@,
                        best.transaction,
                    ));
                    assert forall|j1: int, j2: int| #![trigger ind1[j1], ind1[j2]]
                        0 <= j1 < j2 < ind1.len() implies ind1[j1].transaction.sender
                        != ind1[j2].transaction.sender by {
                        let m1: int = if j1 < i {
                            j1
                        } else {
                            j1 + 1
                        };
                        let m2: int = if j2 < i {
                            j2
                        } else {
                            j2 + 1
                        };
                        assert(ind1[j1] == ind0[m1]);
                        assert(ind1[j2] == ind0[m2]);
                    }
                    assert forall|j: int|
                        0 <= j < ind1.len() implies st0.all@.contains(#[trigger] ind1[j])
                        && chain_link(st0.all@, st0.consumed@, ind1[j].transaction) by {
                        let m: int = if j < i {
                            j
                        } else {
                            j + 1
                        };
                        assert(ind1[j] == ind0[m]);
                    }
                }
            }
            if contains_hash(&self.invalid, &best.transaction.hash) {
                proof {
                    if strong {
                        let i = choose|i: int|
                            0 <= i < ind0.len() && ind0[i] == best && ind1 == ind0.remove(i);
                        lemma_candidates_kept(ind0, i, self.independent@);
                        // the dropped candidate was either invalid before
                        // this call or a blob marked while skipping blobs
                        if !pre.is_invalid(best.transaction.hash) {
                            let t = choose|t: PoolTransaction|
                                in_all_tx(pre.all@, t) && t.hash == best.transaction.hash
                                    && t.kind == TxKind::Eip4844 && !st0.yielded@.contains(t);
                            assert(in_all_tx(pre.all@, best.transaction)) by {
                                let j = choose|j: int|
                                    0 <= j < st0.all@.len() && st0.all@[j] == best;
                                assert(st0.all@[j].transaction == best.transaction);
                            }
                            lemma_hash_identifies(pre.all@, best.transaction, t);
                        }
                    }
                }
                continue;
            }
            let succ_idx = match best.unlocks() {
                Some(sid) => find_by_id(&self.all, sid.sender, sid.nonce),
                None => None,
            };
            let ghost unlocked: Option<PendingTransaction> = match succ_idx {
                Some(si) => Some(self.all@[si as int]),
                None => None,
            };
            if let Some(si) = succ_idx {
                let u = self.all[si].clone();
                self.independent.push(u);
            }
            let ghost bt = best.transaction;
            proof {
                self.consumed@ = self.consumed@.push(bt);
                if strong {
                    let i = choose|i: int|
                        0 <= i < ind0.len() && ind0[i] == best && ind1 == ind0.remove(i);
                    if succ_idx is Some {
                        assert(st0.all@.contains(unlocked.unwrap())) by {
                            let si = succ_idx.unwrap() as int;
                            assert(st0.all@[si] == unlocked.unwrap());
                        }
                    }
                    lemma_after_consume(st0, i, unlocked, *self, best, pre);
                }
            }
            if self.skip_blobs && best.transaction.is_eip4844() {
                self.invalid.push(best.transaction.hash);
                proof {
                    self.blob_skipped@ = true;
                    if strong {
                        let i = choose|i: int|
                            0 <= i < ind0.len() && ind0[i] == best && ind1 == ind0.remove(i);
                        lemma_candidates_kept(ind0, i, self.independent@);
                        // the freshly marked hash belongs to this blob
                        // transaction, which was never yielded: every yield
                        // of its sender sits below its nonce
                        assert(in_all_tx(pre.all@, bt)) by {
                            let j = choose|j: int| 0 <= j < st0.all@.len() && st0.all@[j] == best;
                            assert(st0.all@[j].transaction == bt);
                        }
                        assert(!st0.yielded@.contains(bt)) by {
                            if st0.yielded@.contains(bt) {
                                let ys = of_sender(st0.yielded@, bt.sender);
                                let cs0 = of_sender(st0.consumed@, bt.sender);
                                assert(ys.contains(bt));
                                assert(yields_ok(ys, cs0));
                                let m = choose|m: int| 0 <= m < ys.len() && ys[m] == bt;
                                assert(ys[m].nonce <= ys.last().nonce) by {
                                    if m < ys.len() - 1 {
                                        assert(ys[m].nonce < ys[ys.len() - 1].nonce);
                                    }
                                    assert(ys.last() == ys[ys.len() - 1]);
                                }
                                assert(chain_link(st0.all@, st0.consumed@, bt));
                                assert(cs0.last().nonce == cs0[0].nonce + cs0.len() - 1);
                            }
                        }
                        assert forall|h: B256|
                            self.invalid@.contains(h) implies pre.is_invalid(h) || (
                        pre.skip_blobs && (exists|t: PoolTransaction|
                            in_all_tx(pre.all@, t) && t.hash == h && t.kind == TxKind::Eip4844
                                && !self.yielded@.contains(t))) by {
                            if h == bt.hash {
                                assert(in_all_tx(pre.all@, bt) && bt.hash == h && bt.kind
                                    == TxKind::Eip4844 && !self.yielded@.contains(bt));
                            }
                        }
                    }
                }
                continue;
            }
            let ghost st1 = *self;
            proof {
                self.yielded@ = self.yielded@.push(bt);
                if strong {
                    assert(!st1.blob_skipped@ ==> st1.yielded@.push(bt) == st1.consumed@) by {
                        if !st1.blob_skipped@ {
                            assert(st0.yielded@ == st0.consumed@);
                        }
                    }
                    lemma_after_yield(st1, *self, bt);
                    let i = choose|i: int|
                        0 <= i < ind0.len() && ind0[i] == best && ind1 == ind0.remove(i);
                    lemma_candidates_kept(ind0, i, self.independent@);
                    assert forall|h: B256|
                        self.is_invalid(h) && !pre.is_invalid(h) implies (pre.skip_blobs && (
                    exists|t: PoolTransaction|
                        in_all_tx(pre.all@, t) && t.hash == h && t.kind == TxKind::Eip4844
                            && !self.yielded@.contains(t))) by {
                        let t = choose|t: PoolTransaction|
                            in_all_tx(pre.all@, t) && t.hash == h && t.kind == TxKind::Eip4844
                                && !st1.yielded@.contains(t);
                        assert(!self.invalid@.contains(bt.hash));
                        assert(t.hash != bt.hash);
                        assert(self.yielded@ == st1.yielded@.push(bt));
                        assert(!self.yielded@.contains(t));
                        assert(in_all_tx(pre.all@, t) && t.hash == h && t.kind == TxKind::Eip4844
                            && !self.yielded@.contains(t));
                    }
                    assert(forall|h: B256|
                        self.is_invalid(h) ==> pre.is_invalid(h) || (pre.skip_blobs && (exists|
                            t: PoolTransaction,
                        |
                            in_all_tx(pre.all@, t) && t.hash == h && t.kind == TxKind::Eip4844
                                && !self.yielded_view().contains(t))));
                }
            }
            return Some(best.transaction);
        }
    }
}


/// Consuming `best` extends its sender's chain by exactly one nonce and
/// leaves every other sender's chain untouched; all chain-shape facts
/// survive.
proof fn lemma_consume_trace(st0: BestTransactions, cur: BestTransactions, best: PendingTransaction)
    requires
        st0.wf_core(),
        cur.all@ == st0.all@,
        cur.consumed@ == st0.consumed@.push(best.transaction),
        cur.yielded@ == st0.yielded@,
        in_all_tx(st0.all@, best.transaction),
        chain_link(st0.all@, st0.consumed@, best.transaction),
    ensures
        of_sender(cur.consumed@, best.transaction.sender) == of_sender(
            st0.consumed@,
            best.transaction.sender,
        ).push(best.transaction),
        forall|s2: crate::primitives::Address|
            s2 != best.transaction.sender ==> #[trigger] of_sender(cur.consumed@, s2) == of_sender(
                st0.consumed@,
                s2,
            ),
        forall|s2: crate::primitives::Address|
            chain_shape(cur.all@, #[trigger] of_sender(cur.consumed@, s2)),
        trace_ids_distinct(cur.consumed@),
        forall|k: int|
            0 <= k < cur.consumed@.len() ==> in_all_tx(cur.all@, #[trigger] cur.consumed@[k]),
        cur.consumed@.len() <= cur.all@.len(),
        forall|s2: crate::primitives::Address|
            yields_ok(of_sender(cur.yielded@, s2), #[trigger] of_sender(cur.consumed@, s2)),
        of_sender(cur.consumed@, best.transaction.sender).len() > 0,
        of_sender(cur.consumed@, best.transaction.sender).last() == best.transaction,
        of_sender(cur.yielded@, best.transaction.sender).len() > 0 ==> of_sender(
            cur.yielded@,
            best.transaction.sender,
        ).last().nonce < best.transaction.nonce,
{
    let all = st0.all@;
    let bt = best.transaction;
    let s = bt.sender;
    let c0 = st0.consumed@;
    let c1 = cur.consumed@;
    let cs0 = of_sender(c0, s);
    let cs1 = of_sender(c1, s);
    assert(cs1 == cs0.push(bt));
    assert forall|s2: crate::primitives::Address|
        s2 != s implies #[trigger] of_sender(c1, s2) == of_sender(c0, s2) by {
        assert(c1.filter(|t: PoolTransaction| t.sender == s2) == c0.filter(
            |t: PoolTransaction| t.sender == s2,
        ));
    }
    assert(chain_shape(all, cs1)) by {
        if cs0.len() == 0 {
            assert(cs1[0] == bt);
            assert(is_chain_base(all, bt));
        } else {
            assert(cs1[0] == cs0[0]);
            assert(cs0.last() == cs0[cs0.len() - 1]);
            assert(cs0.last().nonce == cs0[0].nonce + cs0.len() - 1);
            assert(bt.nonce == cs0.last().nonce + 1);
            assert forall|k: int|
                0 <= k < cs1.len() implies (#[trigger] cs1[k]).nonce == cs1[0].nonce + k by {
                if k < cs0.len() {
                    assert(cs1[k] == cs0[k]);
                } else {
                    assert(cs1[k] == bt);
                }
            }
        }
    }
    assert forall|s2: crate::primitives::Address|
        chain_shape(all, #[trigger] of_sender(c1, s2)) by {
        if s2 != s {
            assert(of_sender(c1, s2) == of_sender(c0, s2));
        }
    }
    assert(trace_ids_distinct(c1)) by {
        assert forall|k1: int, k2: int| #![trigger c1[k1], c1[k2]]
            0 <= k1 < k2 < c1.len() implies !(c1[k1].sender == c1[k2].sender && c1[k1].nonce
            == c1[k2].nonce) by {
            if k2 == c1.len() - 1 {
                assert(c1[k2] == bt);
                assert(c1[k1] == c0[k1]);
                if c0[k1].sender == s {
                    assert(cs0.contains(c0[k1]));
                    let m = choose|m: int| 0 <= m < cs0.len() && cs0[m] == c0[k1];
                    assert(cs0[m].nonce == cs0[0].nonce + m);
                    assert(cs0.last().nonce == cs0[0].nonce + cs0.len() - 1);
                    assert(bt.nonce == cs0.last().nonce + 1);
                }
            } else {
                assert(c1[k1] == c0[k1] && c1[k2] == c0[k2]);
            }
        }
    }
    assert forall|k: int| 0 <= k < c1.len() implies in_all_tx(all, #[trigger] c1[k]) by {
        if k < c0.len() {
            assert(c1[k] == c0[k]);
        } else {
            assert(c1[k] == bt);
        }
    }
    lemma_trace_len_bound(all, c1);
    assert forall|s2: crate::primitives::Address|
        yields_ok(of_sender(cur.yielded@, s2), #[trigger] of_sender(c1, s2)) by {
        if s2 == s {
            let ys = of_sender(st0.yielded@, s);
            assert(yields_ok(ys, cs0));
            if ys.len() > 0 {
                assert(cs0.len() > 0);
                assert(cs0.last().nonce == cs0[0].nonce + cs0.len() - 1);
                assert(bt.nonce == cs0.last().nonce + 1);
                assert(ys.last().nonce <= cs0.last().nonce < bt.nonce);
            }
            assert(cs1.last() == bt);
        } else {
            assert(of_sender(c1, s2) == of_sender(c0, s2));
        }
    }
    assert(of_sender(cur.yielded@, s).len() > 0 ==> of_sender(cur.yielded@, s).last().nonce
        < bt.nonce) by {
        let ys = of_sender(st0.yielded@, s);
        if ys.len() > 0 {
            assert(yields_ok(ys, cs0));
            assert(cs0.len() > 0);
            assert(bt.nonce == cs0.last().nonce + 1);
        }
    }
}

/// After removing the consumed candidate and inserting the unlocked
/// successor, the candidate set is still one id-linked entry per sender.
proof fn lemma_consume_candidates(
    st0: BestTransactions,
    i: int,
    unlocked: Option<PendingTransaction>,
    cur: BestTransactions,
    best: PendingTransaction,
)
    requires
        st0.wf_core(),
        0 <= i < st0.independent@.len(),
        st0.independent@[i] == best,
        match unlocked {
            None => cur.independent@ == st0.independent@.remove(i),
            Some(u) => cur.independent@ == st0.independent@.remove(i).push(u) && st0.all@.contains(
                u,
            ) && u.transaction.sender == best.transaction.sender && u.transaction.nonce
                == best.transaction.nonce + 1,
        },
        cur.all@ == st0.all@,
        cur.consumed@ == st0.consumed@.push(best.transaction),
        of_sender(cur.consumed@, best.transaction.sender).last() == best.transaction,
        of_sender(cur.consumed@, best.transaction.sender).len() > 0,
        forall|s2: crate::primitives::Address|
            s2 != best.transaction.sender ==> #[trigger] of_sender(cur.consumed@, s2) == of_sender(
                st0.consumed@,
                s2,
            ),
    ensures
        cur.independent@.no_duplicates(),
        forall|j1: int, j2: int| #![trigger cur.independent@[j1], cur.independent@[j2]]
            0 <= j1 < j2 < cur.independent@.len() ==> cur.independent@[j1].transaction.sender
                != cur.independent@[j2].transaction.sender,
        forall|j: int|
            0 <= j < cur.independent@.len() ==> cur.all@.contains(#[trigger] cur.independent@[j])
                && chain_link(cur.all@, cur.consumed@, cur.independent@[j].transaction),
{
    let all = st0.all@;
    let bt = best.transaction;
    let s = bt.sender;
    let ind0 = st0.independent@;
    lemma_remove_keeps(ind0, i);
    let base = ind0.remove(i);
    assert forall|j: int|
        0 <= j < base.len() implies all.contains(#[trigger] base[j]) && base[j].transaction.sender
        != s && chain_link(all, cur.consumed@, base[j].transaction) by {
        let m: int = if j < i {
            j
        } else {
            j + 1
        };
        assert(base[j] == ind0[m]);
        assert(all.contains(ind0[m]) && chain_link(all, st0.consumed@, ind0[m].transaction));
        if m < i {
            assert(ind0[m].transaction.sender != ind0[i].transaction.sender);
        } else {
            assert(ind0[i].transaction.sender != ind0[m].transaction.sender);
        }
        assert(of_sender(cur.consumed@, ind0[m].transaction.sender) == of_sender(
            st0.consumed@,
            ind0[m].transaction.sender,
        ));
    }
    assert forall|j1: int, j2: int| #![trigger base[j1], base[j2]]
        0 <= j1 < j2 < base.len() implies base[j1].transaction.sender
        != base[j2].transaction.sender by {
        let m1: int = if j1 < i {
            j1
        } else {
            j1 + 1
        };
        let m2: int = if j2 < i {
            j2
        } else {
            j2 + 1
        };
        assert(base[j1] == ind0[m1] && base[j2] == ind0[m2]);
    }
    match unlocked {
        None => {
            assert(cur.independent@ == base);
        },
        Some(u) => {
            assert(cur.independent@ == base.push(u));
            assert(chain_link(all, cur.consumed@, u.transaction));
            assert forall|j1: int, j2: int| #![trigger cur.independent@[j1], cur.independent@[j2]]
                0 <= j1 < j2 < cur.independent@.len() implies cur.independent@[j1].transaction.sender
                != cur.independent@[j2].transaction.sender && cur.independent@[j1]
                != cur.independent@[j2] by {
                assert(cur.independent@[j1] == base[j1]);
                if j2 == cur.independent@.len() - 1 {
                    assert(cur.independent@[j2] == u);
                    assert(base[j1].transaction.sender != s);
                } else {
                    assert(cur.independent@[j2] == base[j2]);
                }
            }
            assert forall|j: int|
                0 <= j < cur.independent@.len() implies all.contains(
                #[trigger] cur.independent@[j],
            ) && chain_link(all, cur.consumed@, cur.independent@[j].transaction) by {
                if j == cur.independent@.len() - 1 {
                    assert(cur.independent@[j] == u);
                } else {
                    assert(cur.independent@[j] == base[j]);
                }
            }
        },
    }
}

/// A transaction that was invalid and unconsumed stays unconsumed, and
/// the consumed candidate's nonce is a lower bound for such transactions
/// of the same sender: its chain is contiguous down to the chain base.
#[verifier::rlimit(30)]
proof fn lemma_consume_invalid(
    st0: BestTransactions,
    cur: BestTransactions,
    best: PendingTransaction,
    pre: BestTransactions,
)
    requires
        st0.wf_core(),
        cur.all@ == st0.all@,
        cur.consumed@ == st0.consumed@.push(best.transaction),
        !st0.is_invalid(best.transaction.hash),
        pre.all@ == st0.all@,
        forall|h: B256| pre.is_invalid(h) ==> st0.is_invalid(h),
        pre.consumed@.is_prefix_of(st0.consumed@),
        forall|t: PoolTransaction|
            in_all_tx(pre.all@, t) && pre.is_invalid(t.hash) && !pre.consumed@.contains(t)
                ==> !st0.consumed@.contains(t),
        forall|s2: crate::primitives::Address|
            chain_shape(cur.all@, #[trigger] of_sender(cur.consumed@, s2)),
        forall|k: int|
            0 <= k < cur.consumed@.len() ==> in_all_tx(cur.all@, #[trigger] cur.consumed@[k]),
        of_sender(cur.consumed@, best.transaction.sender).last() == best.transaction,
        of_sender(cur.consumed@, best.transaction.sender).len() > 0,
    ensures
        pre.consumed@.is_prefix_of(cur.consumed@),
        forall|t: PoolTransaction|
            in_all_tx(pre.all@, t) && pre.is_invalid(t.hash) && !pre.consumed@.contains(t)
                ==> !cur.consumed@.contains(t),
        forall|t: PoolTransaction|
            in_all_tx(pre.all@, t) && pre.is_invalid(t.hash) && !pre.consumed@.contains(t)
                && t.sender == best.transaction.sender ==> best.transaction.nonce <= t.nonce,
{
    let all = st0.all@;
    let bt = best.transaction;
    let s = bt.sender;
    let c0 = st0.consumed@;
    let c1 = cur.consumed@;
    let cs1 = of_sender(c1, s);
    assert(pre.consumed@.is_prefix_of(c1)) by {
        assert(c1.subrange(0, pre.consumed@.len() as int) =~= pre.consumed@) by {
            assert(c0.subrange(0, pre.consumed@.len() as int) =~= pre.consumed@);
            assert forall|k: int| 0 <= k < pre.consumed@.len() implies c1[k] == c0[k] by {}
        }
    }
    assert forall|t: PoolTransaction|
        in_all_tx(pre.all@, t) && pre.is_invalid(t.hash) && !pre.consumed@.contains(t)
            implies !c1.contains(t) by {
        assert(st0.is_invalid(t.hash));
        assert(t != bt);
        assert(!c0.contains(t));
        if c1.contains(t) {
            let k = choose|k: int| 0 <= k < c1.len() && c1[k] == t;
            assert(k < c0.len() ==> c0[k] == t);
            assert(k == c0.len() ==> c1[k] == bt);
        }
    }
    assert forall|t: PoolTransaction|
        in_all_tx(pre.all@, t) && pre.is_invalid(t.hash) && !pre.consumed@.contains(t) && t.sender
            == s implies bt.nonce <= t.nonce by {
        if t.nonce < bt.nonce {
            assert(!c1.contains(t));
            let idx_t = choose|j: int| 0 <= j < all.len() && (#[trigger] all[j]).transaction == t;
            assert(cs1.contains(cs1[0]));
            assert(c1.contains(cs1[0]));
            assert(in_all_tx(all, cs1[0])) by {
                let k0 = choose|k0: int| 0 <= k0 < c1.len() && c1[k0] == cs1[0];
            }
            let idx_c0 = choose|j: int|
                0 <= j < all.len() && (#[trigger] all[j]).transaction == cs1[0];
            assert(chain_shape(all, cs1));
            if t.nonce < cs1[0].nonce {
                lemma_gapless_between(all, idx_t, idx_c0, cs1[0].nonce - 1);
                assert(is_chain_base(all, cs1[0]));
                assert(false);
            } else {
                let m = t.nonce - cs1[0].nonce;
                assert(cs1.last() == cs1[cs1.len() - 1]);
                assert(cs1.last().nonce == cs1[0].nonce + cs1.len() - 1);
                assert(0 <= m < cs1.len());
                let e = cs1[m];
                assert(e.nonce == cs1[0].nonce + m);
                assert(e.sender == s);
                assert(cs1.contains(e));
                assert(c1.contains(e));
                let idx_e = choose|j: int|
                    0 <= j < all.len() && (#[trigger] all[j]).transaction == e;
                assert(idx_e == idx_t) by {
                    if idx_e != idx_t {
                        assert(all[idx_e].transaction.sender == all[idx_t].transaction.sender
                            && all[idx_e].transaction.nonce == all[idx_t].transaction.nonce);
                    }
                }
                assert(e == t);
                assert(false);
            }
        }
    }
}

/// After consuming the candidate `best` (and unlocking its successor,
/// when present), the structural core holds again, the consumption trace
/// stays ahead of every sender's invalid frontier, and no transaction of
/// `best`'s sender that was invalid and unconsumed has a lower nonce.
proof fn lemma_after_consume(
    st0: BestTransactions,
    i: int,
    unlocked: Option<PendingTransaction>,
    cur: BestTransactions,
    best: PendingTransaction,
    pre: BestTransactions,
)
    requires
        st0.wf_core(),
        0 <= i < st0.independent@.len(),
        st0.independent@[i] == best,
        match unlocked {
            None => cur.independent@ == st0.independent@.remove(i),
            Some(u) => cur.independent@ == st0.independent@.remove(i).push(u) && st0.all@.contains(
                u,
            ) && u.transaction.sender == best.transaction.sender && u.transaction.nonce
                == best.transaction.nonce + 1,
        },
        cur.all@ == st0.all@,
        cur.consumed@ == st0.consumed@.push(best.transaction),
        cur.yielded@ == st0.yielded@,
        !st0.is_invalid(best.transaction.hash),
        pre.all@ == st0.all@,
        forall|h: B256| pre.is_invalid(h) ==> st0.is_invalid(h),
        pre.consumed@.is_prefix_of(st0.consumed@),
        forall|t: PoolTransaction|
            in_all_tx(pre.all@, t) && pre.is_invalid(t.hash) && !pre.consumed@.contains(t)
                ==> !st0.consumed@.contains(t),
    ensures
        cur.wf_core(),
        pre.consumed@.is_prefix_of(cur.consumed@),
        in_all_tx(pre.all@, best.transaction),
        forall|t: PoolTransaction|
            in_all_tx(pre.all@, t) && pre.is_invalid(t.hash) && !pre.consumed@.contains(t)
                ==> !cur.consumed@.contains(t),
        forall|t: PoolTransaction|
            in_all_tx(pre.all@, t) && pre.is_invalid(t.hash) && !pre.consumed@.contains(t)
                && t.sender == best.transaction.sender ==> best.transaction.nonce <= t.nonce,
        of_sender(cur.consumed@, best.transaction.sender).len() > 0,
        of_sender(cur.consumed@, best.transaction.sender).last() == best.transaction,
        of_sender(cur.yielded@, best.transaction.sender).len() > 0 ==> of_sender(
            cur.yielded@,
            best.transaction.sender,
        ).last().nonce < best.transaction.nonce,
{
    assert(in_all_tx(st0.all@, best.transaction)) by {
        let j = choose|j: int| 0 <= j < st0.all@.len() && st0.all@[j] == best;
        assert(st0.all@[j].transaction == best.transaction);
    }
    assert(chain_link(st0.all@, st0.consumed@, best.transaction));
    lemma_consume_trace(st0, cur, best);
    lemma_consume_candidates(st0, i, unlocked, cur, best);
    lemma_consume_invalid(st0, cur, best, pre);
}

/// After recording the consumed candidate in the yield trace, full
/// well-formedness holds again.
proof fn lemma_after_yield(st1: BestTransactions, cur: BestTransactions, bt: PoolTransaction)
    requires
        st1.wf_core(),
        cur.all@ == st1.all@,
        cur.independent@ == st1.independent@,
        cur.consumed@ == st1.consumed@,
        cur.invalid@ == st1.invalid@,
        cur.blob_skipped@ == st1.blob_skipped@,
        cur.yielded@ == st1.yielded@.push(bt),
        of_sender(st1.consumed@, bt.sender).len() > 0,
        of_sender(st1.consumed@, bt.sender).last() == bt,
        of_sender(st1.yielded@, bt.sender).len() > 0 ==> of_sender(
            st1.yielded@,
            bt.sender,
        ).last().nonce < bt.nonce,
        !st1.blob_skipped@ ==> st1.yielded@.push(bt) == st1.consumed@,
    ensures
        cur.wf(),
{
    let s = bt.sender;
    let spred = |t: PoolTransaction| t.sender == s;
    let ys0 = of_sender(st1.yielded@, s);
    let ys1 = of_sender(cur.yielded@, s);
    let cs = of_sender(st1.consumed@, s);
    assert(ys1 == ys0.push(bt));
    assert forall|s2: crate::primitives::Address|
        s2 != s implies #[trigger] of_sender(cur.yielded@, s2) == of_sender(st1.yielded@, s2) by {
        assert(cur.yielded@.filter(|t: PoolTransaction| t.sender == s2) == st1.yielded@.filter(
            |t: PoolTransaction| t.sender == s2,
        ));
    }
    assert forall|s2: crate::primitives::Address|
        yields_ok(of_sender(cur.yielded@, s2), #[trigger] of_sender(cur.consumed@, s2)) by {
        if s2 == s {
            assert(yields_ok(ys0, cs));
            assert(nonces_ascending(ys1)) by {
                assert forall|k1: int, k2: int| #![trigger ys1[k1], ys1[k2]]
                    0 <= k1 < k2 < ys1.len() implies ys1[k1].nonce < ys1[k2].nonce by {
                    if k2 == ys1.len() - 1 {
                        assert(ys1[k2] == bt);
                        assert(ys1[k1] == ys0[k1]);
                        assert(ys0.last() == ys0[ys0.len() - 1]);
                        if k1 < ys0.len() - 1 {
                            assert(ys0[k1].nonce < ys0.last().nonce);
                        }
                    } else {
                        assert(ys1[k1] == ys0[k1] && ys1[k2] == ys0[k2]);
                    }
                }
            }
            assert(ys1.last() == bt);
            assert(cs.last().nonce == bt.nonce);
        } else {
            assert(of_sender(cur.yielded@, s2) == of_sender(st1.yielded@, s2));
        }
    }
}


/// In a well-formed snapshot the hash identifies the transaction: two
/// snapshot members with equal hashes are the same transaction.
pub proof fn lemma_wf_hash_identifies(
    b: BestTransactions,
    t1: PoolTransaction,
    t2: PoolTransaction,
)
    requires
        b.wf(),
        in_all_tx(b.all_view(), t1),
        in_all_tx(b.all_view(), t2),
        t1.hash == t2.hash,
    ensures
        t1 == t2,
{
    lemma_hash_identifies(b.all_view(), t1, t2);
}

/// Every transaction the fee wrapper has yielded came out of the inner
/// iterator's yield trace.
pub proof fn lemma_accepted_in_yielded(w: BestTransactionsWithFees, t: PoolTransaction)
    requires
        w.wf_fees(),
        w.accepted_view().contains(t),
    ensures
        w.inner().yielded_view().contains(t),
{
    assert(w.inner().yielded_view().filter(w.fee_pred()).contains(t));
    w.inner().yielded_view().lemma_filter_contains_rev(w.fee_pred(), t);
}

/// Each sender's yield projection is strictly nonce-ascending; while no
/// blob transaction was dropped by blob skipping, it is exactly the
/// sender's consumption chain: the contiguous nonce run from the
/// sender's chain base.
pub proof fn lemma_per_sender_yield_order(b: BestTransactions, s: crate::primitives::Address)
    requires
        b.wf(),
    ensures
        nonces_ascending(of_sender(b.yielded_view(), s)),
        b.blob_skip_free() ==> of_sender(b.yielded_view(), s) == of_sender(b.consumed_view(), s),
        b.blob_skip_free() ==> chain_shape(b.all_view(), of_sender(b.yielded_view(), s)),
{
    assert(yields_ok(of_sender(b.yielded@, s), of_sender(b.consumed@, s)));
    assert(chain_shape(b.all@, of_sender(b.consumed@, s)));
}


/// Filtering a trace keeps each sender's nonce order.
proof fn lemma_filter_keeps_sender_ascending(
    q: Seq<PoolTransaction>,
    p: spec_fn(PoolTransaction) -> bool,
    s: crate::primitives::Address,
)
    requires
        nonces_ascending(of_sender(q, s)),
    ensures
        nonces_ascending(of_sender(q.filter(p), s)),
    decreases q.len(),
{
    if q.len() == 0 {
        assert(q.filter(p) =~= Seq::<PoolTransaction>::empty()) by {
            q.lemma_filter_len(p);
        }
        assert(of_sender(q.filter(p), s) =~= Seq::<PoolTransaction>::empty()) by {
            q.filter(p).lemma_filter_len(|t: PoolTransaction| t.sender == s);
        }
    } else {
        let q0 = q.drop_last();
        let x = q.last();
        assert(q =~= q0.push(x));
        let qs = of_sender(q, s);
        let q0s = of_sender(q0, s);
        // the sender projection of the shorter trace is a prefix, so it
        // is ascending too, and (when `x` is this sender's) bounded by
        // `x`'s nonce
        assert(nonces_ascending(q0s) && (x.sender == s ==> forall|k: int|
            0 <= k < q0s.len() ==> (#[trigger] q0s[k]).nonce < x.nonce)) by {
            if x.sender == s {
                assert(qs == q0s.push(x));
                assert forall|k1: int, k2: int| #![trigger q0s[k1], q0s[k2]]
                    0 <= k1 < k2 < q0s.len() implies q0s[k1].nonce < q0s[k2].nonce by {
                    assert(qs[k1] == q0s[k1] && qs[k2] == q0s[k2]);
                }
                assert forall|k: int|
                    0 <= k < q0s.len() implies (#[trigger] q0s[k]).nonce < x.nonce by {
                    assert(qs[k] == q0s[k] && qs[qs.len() - 1] == x);
                }
            } else {
                assert(qs == q0s);
            }
        }
        lemma_filter_keeps_sender_ascending(q0, p, s);
        let fs = of_sender(q.filter(p), s);
        let f0s = of_sender(q0.filter(p), s);
        if p(x) && x.sender == s {
            assert(q.filter(p) == q0.filter(p).push(x));
            assert(fs == f0s.push(x));
            assert forall|k1: int, k2: int| #![trigger fs[k1], fs[k2]]
                0 <= k1 < k2 < fs.len() implies fs[k1].nonce < fs[k2].nonce by {
                if k2 < f0s.len() {
                    assert(fs[k1] == f0s[k1] && fs[k2] == f0s[k2]);
                } else {
                    assert(fs[k2] == x);
                    assert(fs[k1] == f0s[k1]);
                    let e = f0s[k1];
                    assert(f0s.contains(e));
                    assert(q0.filter(p).contains(e));
                    assert(e.sender == s);
                    let m = choose|m: int|
                        0 <= m < q0.filter(p).len() && q0.filter(p)[m] == e;
                    assert(q0.contains(e)) by {
                        q0.lemma_filter_contains_rev(p, e);
                    }
                    let m0 = choose|m0: int| 0 <= m0 < q0.len() && q0[m0] == e;
                    assert(q0s.contains(e));
                    let m1 = choose|m1: int| 0 <= m1 < q0s.len() && q0s[m1] == e;
                    assert(q0s[m1].nonce < x.nonce);
                }
            }
        } else if p(x) {
            assert(q.filter(p) == q0.filter(p).push(x));
            assert(fs == f0s);
        } else {
            assert(q.filter(p) == q0.filter(p));
        }
    }
}

/// Through the fee wrapper, each sender's yields keep their strictly
/// ascending nonce order: the wrapper's yields are the fee-satisfying
/// subsequence of the snapshot iterator's yields.
pub proof fn lemma_fee_wrapper_per_sender_order(
    w: BestTransactionsWithFees,
    s: crate::primitives::Address,
)
    requires
        w.wf_fees(),
        w.inner().wf(),
    ensures
        nonces_ascending(of_sender(w.accepted_view(), s)),
{
    lemma_per_sender_yield_order(w.inner(), s);
    lemma_filter_keeps_sender_ascending(w.inner().yielded_view(), w.fee_pred(), s);
}


/// Dropping the last element keeps a sender projection ascending.
proof fn lemma_drop_last_sender_ascending(q: Seq<PoolTransaction>, s: crate::primitives::Address)
    requires
        q.len() > 0,
        nonces_ascending(of_sender(q, s)),
    ensures
        nonces_ascending(of_sender(q.drop_last(), s)),
        q.last().sender == s ==> forall|k: int|
            0 <= k < of_sender(q.drop_last(), s).len() ==> (#[trigger] of_sender(
                q.drop_last(),
                s,
            )[k]).nonce < q.last().nonce,
{
    let q0 = q.drop_last();
    let x = q.last();
    assert(q =~= q0.push(x));
    let qs = of_sender(q, s);
    let q0s = of_sender(q0, s);
    if x.sender == s {
        assert(qs == q0s.push(x));
        assert forall|k1: int, k2: int| #![trigger q0s[k1], q0s[k2]]
            0 <= k1 < k2 < q0s.len() implies q0s[k1].nonce < q0s[k2].nonce by {
            assert(qs[k1] == q0s[k1] && qs[k2] == q0s[k2]);
        }
        assert forall|k: int| 0 <= k < q0s.len() implies (#[trigger] q0s[k]).nonce < x.nonce by {
            assert(qs[k] == q0s[k] && qs[qs.len() - 1] == x);
        }
    } else {
        assert(qs == q0s);
    }
}

/// In a trace whose sender projection is ascending, two entries of one
/// sender appear in nonce order.
proof fn lemma_flat_order_in_filter(
    q: Seq<PoolTransaction>,
    s: crate::primitives::Address,
    a: int,
    b: int,
)
    requires
        0 <= a < b < q.len(),
        q[a].sender == s,
        q[b].sender == s,
        nonces_ascending(of_sender(q, s)),
    ensures
        q[a].nonce < q[b].nonce,
    decreases q.len(),
{
    lemma_drop_last_sender_ascending(q, s);
    if b == q.len() - 1 {
        let q0 = q.drop_last();
        assert(q =~= q0.push(q[b]));
        let q0s = of_sender(q0, s);
        assert(q0[a] == q[a]);
        assert(q0s.contains(q[a]));
        let m = choose|m: int| 0 <= m < q0s.len() && q0s[m] == q[a];
        assert(q0s[m].nonce < q.last().nonce);
    } else {
        assert(q.drop_last()[a] == q[a] && q.drop_last()[b] == q[b]);
        lemma_flat_order_in_filter(q.drop_last(), s, a, b);
    }
}

/// Two yields of one sender through the fee wrapper come in strictly
/// ascending nonce order, whatever else was yielded between them.
pub proof fn lemma_fee_wrapper_flat_order(
    w: BestTransactionsWithFees,
    s: crate::primitives::Address,
    a: int,
    b: int,
)
    requires
        w.wf_fees(),
        w.inner().wf(),
        0 <= a < b < w.accepted_view().len(),
        w.accepted_view()[a].sender == s,
        w.accepted_view()[b].sender == s,
    ensures
        w.accepted_view()[a].nonce < w.accepted_view()[b].nonce,
{
    lemma_fee_wrapper_per_sender_order(w, s);
    lemma_flat_order_in_filter(w.accepted_view(), s, a, b);
}

/// Whether a transaction meets the block's fee requirements: its fee cap
/// covers the base fee, and, for a blob transaction, its blob fee cap
/// covers the blob base fee.
pub open spec fn fee_ok(t: PoolTransaction, base_fee: u64, base_fee_per_blob_gas: u64) -> bool {
    t.max_fee_per_gas >= base_fee as u128 && (match t.max_fee_per_blob_gas {
        Some(f) => f >= base_fee_per_blob_gas as u128,
        None => true,
    })
}

/// A best-transactions iterator that additionally enforces a base fee
/// and a blob base fee: every transaction it yields satisfies both; the
/// ones that do not are marked invalid, pruning their descendants.
pub struct BestTransactionsWithFees {
    best: BestTransactions,
    base_fee: u64,
    base_fee_per_blob_gas: u64,
    accepted: Ghost<Seq<PoolTransaction>>,
}

impl BestTransactionsWithFees {
    /// The wrapped snapshot iterator.
    pub closed spec fn inner(self) -> BestTransactions {
        self.best
    }

    /// The enforced base fee.
    pub closed spec fn base_fee_view(self) -> u64 {
        self.base_fee
    }

    /// The enforced blob base fee.
    pub closed spec fn base_fee_per_blob_gas_view(self) -> u64 {
        self.base_fee_per_blob_gas
    }

    /// Every transaction this wrapper has yielded, in order.
    pub closed spec fn accepted_view(self) -> Seq<PoolTransaction> {
        self.accepted@
    }

    pub closed spec fn fee_pred(self) -> spec_fn(PoolTransaction) -> bool {
        |t: PoolTransaction| fee_ok(t, self.base_fee, self.base_fee_per_blob_gas)
    }

    /// The wrapper's yields are exactly the fee-satisfying ones among the
    /// inner iterator's yields, in the same order.
    pub closed spec fn wf_fees(self) -> bool {
        self.accepted@ == self.best.yielded_view().filter(self.fee_pred())
    }

    /// Wrap `best` with the two fee bounds.
    pub fn new(best: BestTransactions, base_fee: u64, base_fee_per_blob_gas: u64) -> (r:
        BestTransactionsWithFees)
        ensures
            r.inner() == best,
            r.base_fee_view() == base_fee,
            r.base_fee_per_blob_gas_view() == base_fee_per_blob_gas,
            r.wf_fees(),
            best.yielded_view().len() == 0 ==> r.accepted_view().len() == 0,
    {
        let mut r = BestTransactionsWithFees {
            best,
            base_fee,
            base_fee_per_blob_gas,
            accepted: Ghost(Seq::empty()),
        };
        proof {
            r.accepted@ = r.best.yielded_view().filter(r.fee_pred());
            r.best.yielded_view().lemma_filter_len(r.fee_pred());
        }
        r
    }

    /// Yield the next transaction that satisfies both fee bounds; every
    /// transaction pulled past is marked invalid on the inner iterator,
    /// pruning its descendants.
    #[verifier::rlimit(60)]
    pub fn next(&mut self) -> (r: Option<PoolTransaction>)
        ensures
            final(self).base_fee_view() == old(self).base_fee_view(),
            final(self).base_fee_per_blob_gas_view() == old(self).base_fee_per_blob_gas_view(),
            old(self).wf_fees() ==> final(self).wf_fees(),
            r matches Some(y) ==> final(self).accepted_view() == old(self).accepted_view().push(y)
                && fee_ok(y, old(self).base_fee_view(), old(self).base_fee_per_blob_gas_view())
                && !final(self).inner().is_invalid(y.hash),
            r is None ==> final(self).accepted_view() == old(self).accepted_view(),
            final(self).inner().skip_blobs_view() == old(self).inner().skip_blobs_view(),
            old(self).inner().blob_skip_free() && !old(self).inner().skip_blobs_view()
                ==> final(self).inner().blob_skip_free(),
            old(self).inner().yielded_view().is_prefix_of(final(self).inner().yielded_view()),
            forall|h: B256|
                old(self).inner().is_invalid(h) ==> final(self).inner().is_invalid(h),
            r matches Some(y) ==> final(self).inner().yielded_view().len()
                > old(self).inner().yielded_view().len()
                && final(self).inner().yielded_view().last() == y && (forall|k: int|
                old(self).inner().yielded_view().len() <= k
                    < final(self).inner().yielded_view().len() - 1
                    ==> final(self).inner().is_invalid(
                    (#[trigger] final(self).inner().yielded_view()[k]).hash,
                )),
            r is None ==> (forall|k: int|
                old(self).inner().yielded_view().len() <= k
                    < final(self).inner().yielded_view().len()
                    ==> final(self).inner().is_invalid(
                    (#[trigger] final(self).inner().yielded_view()[k]).hash,
                )),
            old(self).inner().wf() && old(self).inner().no_channel() ==> final(self).inner().wf()
                && final(self).inner().no_channel() && final(self).inner().all_view() == old(
                self,
            ).inner().all_view() && (r is None ==> final(self).inner().independent_view().len()
                == 0),
            old(self).inner().wf() && old(self).inner().no_channel() ==> (r matches Some(y)
                ==> in_all_tx(old(self).inner().all_view(), y)),
            old(self).inner().wf() && old(self).inner().no_channel() && r is None ==> (forall|
                c: PendingTransaction,
            |
                old(self).inner().independent_view().contains(c) ==> old(self).inner().is_invalid(
                    c.transaction.hash,
                ) || (old(self).inner().skip_blobs_view() && c.transaction.kind == TxKind::Eip4844)
                    || !fee_ok(
                    c.transaction,
                    old(self).base_fee_view(),
                    old(self).base_fee_per_blob_gas_view(),
                )),
            old(self).inner().wf() && old(self).inner().no_channel() ==> (forall|h: B256|
                final(self).inner().is_invalid(h) ==> old(self).inner().is_invalid(h) || (exists|
                    t: PoolTransaction,
                |
                    in_all_tx(old(self).inner().all_view(), t) && t.hash == h && (!fee_ok(
                        t,
                        old(self).base_fee_view(),
                        old(self).base_fee_per_blob_gas_view(),
                    ) || (old(self).inner().skip_blobs_view() && t.kind == TxKind::Eip4844
                        && !final(self).inner().yielded_view().contains(t))))),
    {
        let ghost pre = *old(self);
        let ghost strong = pre.best.wf() && pre.best.no_channel();
        let mut fuel: u128 = u128::MAX;
        loop
            invariant
                pre == *old(self),
                strong == (pre.best.wf() && pre.best.no_channel()),
                self.base_fee == pre.base_fee,
                self.base_fee_per_blob_gas == pre.base_fee_per_blob_gas,
                self.accepted@ == pre.accepted@,
                pre.wf_fees() ==> self.wf_fees(),
                self.best.skip_blobs_view() == pre.best.skip_blobs_view(),
                pre.best.blob_skip_free() && !pre.best.skip_blobs_view()
                    ==> self.best.blob_skip_free(),
                pre.best.yielded_view().is_prefix_of(self.best.yielded_view()),
                forall|h: B256| pre.best.is_invalid(h) ==> self.best.is_invalid(h),
                forall|k: int|
                    pre.best.yielded_view().len() <= k < self.best.yielded_view().len()
                        ==> self.best.is_invalid(
                        (#[trigger] self.best.yielded_view()[k]).hash,
                    ),
                strong ==> self.best.wf() && self.best.no_channel() && self.best.all_view()
                    == pre.best.all_view() && fuel >= u128::MAX - pre.best.credit()
                    + self.best.credit() && self.best.credit() <= pre.best.credit(),
                strong ==> (forall|c: PendingTransaction|
                    pre.best.independent_view().contains(c)
                        ==> self.best.independent_view().contains(c) || pre.best.is_invalid(
                        c.transaction.hash,
                    ) || (pre.best.skip_blobs_view() && c.transaction.kind == TxKind::Eip4844)
                        || !fee_ok(c.transaction, pre.base_fee, pre.base_fee_per_blob_gas)),
                strong ==> (forall|h: B256|
                    self.best.is_invalid(h) ==> pre.best.is_invalid(h) || (exists|
                        t: PoolTransaction,
                    |
                        in_all_tx(pre.best.all_view(), t) && t.hash == h && (!fee_ok(
                            t,
                            pre.base_fee,
                            pre.base_fee_per_blob_gas,
                        ) || (pre.best.skip_blobs_view() && t.kind == TxKind::Eip4844
                            && !self.best.yielded_view().contains(t))))),
            decreases fuel,
        {
            if fuel == 0 {
                proof {
                    if strong {
                        vstd::std_specs::vec::axiom_spec_len(&pre.best.all);
                        vstd::std_specs::vec::axiom_spec_len(&pre.best.independent);
                        assert(self.best.credit() >= 0);
                        assert(false);
                    }
                }
                return None;
            }
            fuel = fuel - 1;
            let ghost ib0 = self.best;
            let pulled = self.best.next();
            let tx = match pulled {
                None => {
                    proof {
                        if strong {
                            // every pending candidate of the snapshot was
                            // already invalid, a skipped blob, or fee-failing
                            assert forall|c: PendingTransaction|
                                pre.best.independent_view().contains(c) implies pre.best.is_invalid(
                                c.transaction.hash,
                            ) || (pre.best.skip_blobs_view() && c.transaction.kind
                                == TxKind::Eip4844) || !fee_ok(
                                c.transaction,
                                pre.base_fee,
                                pre.base_fee_per_blob_gas,
                            ) by {
                                if ib0.independent_view().contains(c) {
                                    if !pre.best.is_invalid(c.transaction.hash) && ib0.is_invalid(
                                        c.transaction.hash,
                                    ) {
                                        let t = choose|t: PoolTransaction|
                                            in_all_tx(pre.best.all_view(), t) && t.hash
                                                == c.transaction.hash && (!fee_ok(
                                                t,
                                                pre.base_fee,
                                                pre.base_fee_per_blob_gas,
                                            ) || (pre.best.skip_blobs_view() && t.kind
                                                == TxKind::Eip4844
                                                && !ib0.yielded_view().contains(t)));
                                        assert(in_all_tx(pre.best.all_view(), c.transaction));
                                        lemma_hash_identifies(
                                            pre.best.all_view(),
                                            c.transaction,
                                            t,
                                        );
                                    }
                                }
                            }
                        }
                    }
                    return None;
                },
                Some(t) => t,
            };
            proof {
                lemma_prefix_push(pre.best.yielded_view(), ib0.yielded_view(), tx);
                if strong {
                    // compose the mark provenance of the pull with this
                    // wrapper's own markings so far
                    assert forall|h: B256|
                        self.best.is_invalid(h) && !pre.best.is_invalid(h) implies (exists|
                        t: PoolTransaction,
                    |
                        in_all_tx(pre.best.all_view(), t) && t.hash == h && (!fee_ok(
                            t,
                            pre.base_fee,
                            pre.base_fee_per_blob_gas,
                        ) || (pre.best.skip_blobs_view() && t.kind == TxKind::Eip4844
                            && !self.best.yielded_view().contains(t)))) by {
                        if ib0.is_invalid(h) {
                            let t = choose|t: PoolTransaction|
                                in_all_tx(pre.best.all_view(), t) && t.hash == h && (!fee_ok(
                                    t,
                                    pre.base_fee,
                                    pre.base_fee_per_blob_gas,
                                ) || (pre.best.skip_blobs_view() && t.kind == TxKind::Eip4844
                                    && !ib0.yielded_view().contains(t)));
                            assert(t.hash != tx.hash);
                            assert(self.best.yielded_view() == ib0.yielded_view().push(tx));
                            assert(in_all_tx(pre.best.all_view(), t) && t.hash == h && (!fee_ok(
                                t,
                                pre.base_fee,
                                pre.base_fee_per_blob_gas,
                            ) || (pre.best.skip_blobs_view() && t.kind == TxKind::Eip4844
                                && !self.best.yielded_view().contains(t))));
                        } else {
                            let t = choose|t: PoolTransaction|
                                in_all_tx(ib0.all_view(), t) && t.hash == h && t.kind
                                    == TxKind::Eip4844 && !self.best.yielded_view().contains(t);
                            assert(in_all_tx(pre.best.all_view(), t) && t.hash == h && (!fee_ok(
                                t,
                                pre.base_fee,
                                pre.base_fee_per_blob_gas,
                            ) || (pre.best.skip_blobs_view() && t.kind == TxKind::Eip4844
                                && !self.best.yielded_view().contains(t))));
                        }
                    }
                }
            }
            let blob_fee_ok = match tx.max_fee_per_blob_gas {
                Some(f) => f >= self.base_fee_per_blob_gas as u128,
                None => true,
            };
            if tx.max_fee_per_gas >= self.base_fee as u128 && blob_fee_ok {
                proof {
                    self.accepted@ = self.accepted@.push(tx);
                }
                return Some(tx);
            } else {
                self.best.mark_invalid(&tx);
                proof {
                    if strong {
                        assert(!fee_ok(tx, pre.base_fee, pre.base_fee_per_blob_gas));
                        assert forall|h: B256|
                            self.best.is_invalid(h) && !pre.best.is_invalid(h) implies (exists|
                            t: PoolTransaction,
                        |
                            in_all_tx(pre.best.all_view(), t) && t.hash == h && (!fee_ok(
                                t,
                                pre.base_fee,
                                pre.base_fee_per_blob_gas,
                            ) || (pre.best.skip_blobs_view() && t.kind == TxKind::Eip4844
                                && !self.best.yielded_view().contains(t)))) by {
                            if h == tx.hash {
                                assert(in_all_tx(pre.best.all_view(), tx) && tx.hash == h
                                    && !fee_ok(tx, pre.base_fee, pre.base_fee_per_blob_gas));
                            }
                        }
                    }
                }
            }
        }
    }

    /// Mark the transaction invalid on the inner iterator.
    pub fn mark_invalid(&mut self, tx: &PoolTransaction)
        ensures
            final(self).inner().is_invalid(tx.hash),
            forall|h: B256| old(self).inner().is_invalid(h) ==> final(self).inner().is_invalid(h),
            forall|h: B256|
                final(self).inner().is_invalid(h) ==> old(self).inner().is_invalid(h) || h
                    == tx.hash,
            final(self).inner().yielded_view() == old(self).inner().yielded_view(),
            final(self).inner().all_view() == old(self).inner().all_view(),
            final(self).inner().skip_blobs_view() == old(self).inner().skip_blobs_view(),
            final(self).inner().no_channel() == old(self).inner().no_channel(),
            final(self).accepted_view() == old(self).accepted_view(),
            final(self).base_fee_view() == old(self).base_fee_view(),
            final(self).base_fee_per_blob_gas_view() == old(self).base_fee_per_blob_gas_view(),
            old(self).wf_fees() ==> final(self).wf_fees(),
            old(self).inner().wf() ==> final(self).inner().wf(),
            final(self).inner().no_channel() == old(self).inner().no_channel(),
    {
        self.best.mark_invalid(tx);
    }

    /// Detach the late-arrival channel on the inner iterator.
    pub fn no_updates(&mut self)
        ensures
            final(self).inner().no_channel(),
            final(self).accepted_view() == old(self).accepted_view(),
            final(self).base_fee_view() == old(self).base_fee_view(),
            final(self).base_fee_per_blob_gas_view() == old(self).base_fee_per_blob_gas_view(),
            forall|h: B256| final(self).inner().is_invalid(h) == old(self).inner().is_invalid(h),
            final(self).inner().yielded_view() == old(self).inner().yielded_view(),
            old(self).wf_fees() ==> final(self).wf_fees(),
            old(self).inner().wf() ==> final(self).inner().wf(),
    {
        self.best.no_updates();
    }

    /// Exclude blob transactions from now on.
    pub fn skip_blobs(&mut self)
        ensures
            final(self).inner().skip_blobs_view(),
            final(self).accepted_view() == old(self).accepted_view(),
            final(self).base_fee_view() == old(self).base_fee_view(),
            final(self).base_fee_per_blob_gas_view() == old(self).base_fee_per_blob_gas_view(),
            forall|h: B256| final(self).inner().is_invalid(h) == old(self).inner().is_invalid(h),
            final(self).inner().yielded_view() == old(self).inner().yielded_view(),
            final(self).inner().all_view() == old(self).inner().all_view(),
            old(self).wf_fees() ==> final(self).wf_fees(),
            old(self).inner().wf() ==> final(self).inner().wf(),
            final(self).inner().no_channel() == old(self).inner().no_channel(),
    {
        self.set_skip_blobs(true)
    }

    /// Set the blob-exclusion flag on the inner iterator.
    pub fn set_skip_blobs(&mut self, skip_blobs: bool)
        ensures
            final(self).inner().skip_blobs_view() == skip_blobs,
            final(self).accepted_view() == old(self).accepted_view(),
            final(self).base_fee_view() == old(self).base_fee_view(),
            final(self).base_fee_per_blob_gas_view() == old(self).base_fee_per_blob_gas_view(),
            forall|h: B256| final(self).inner().is_invalid(h) == old(self).inner().is_invalid(h),
            final(self).inner().yielded_view() == old(self).inner().yielded_view(),
            final(self).inner().all_view() == old(self).inner().all_view(),
            old(self).wf_fees() ==> final(self).wf_fees(),
            old(self).inner().wf() ==> final(self).inner().wf(),
            final(self).inner().no_channel() == old(self).inner().no_channel(),
    {
        self.best.set_skip_blobs(skip_blobs)
    }
}


/// The capability set every best-transactions iterator offers: yielding,
/// invalidation-driven pruning, freezing the snapshot and blob
/// exclusion.
pub trait BestTransactionsSource {
    /// The transactions yielded so far, in order.
    spec fn yielded(&self) -> Seq<PoolTransaction>;

    /// Whether `h` was marked invalid.
    spec fn marked(&self, h: B256) -> bool;

    /// Yield the next transaction.
    fn next(&mut self) -> (r: Option<PoolTransaction>)
        ensures
            r matches Some(y) ==> final(self).yielded() == old(self).yielded().push(y),
            r is None ==> final(self).yielded() == old(self).yielded(),
            forall|h: B256| old(self).marked(h) ==> final(self).marked(h),
    ;

    /// Mark a transaction invalid, pruning its not yet unlocked
    /// descendants.
    fn mark_invalid(&mut self, tx: &PoolTransaction)
        ensures
            final(self).yielded() == old(self).yielded(),
            final(self).marked(tx.hash),
            forall|h: B256| old(self).marked(h) ==> final(self).marked(h),
    ;

    /// Detach the late-arrival channel.
    fn no_updates(&mut self)
        ensures
            final(self).yielded() == old(self).yielded(),
            forall|h: B256| final(self).marked(h) == old(self).marked(h),
    ;

    /// Exclude blob transactions from now on.
    fn skip_blobs(&mut self)
        ensures
            final(self).yielded() == old(self).yielded(),
            forall|h: B256| final(self).marked(h) == old(self).marked(h),
    ;

    /// Set the blob-exclusion flag.
    fn set_skip_blobs(&mut self, skip_blobs: bool)
        ensures
            final(self).yielded() == old(self).yielded(),
            forall|h: B256| final(self).marked(h) == old(self).marked(h),
    ;
}

impl BestTransactionsSource for BestTransactions {
    closed spec fn yielded(&self) -> Seq<PoolTransaction> {
        self.yielded_view()
    }

    closed spec fn marked(&self, h: B256) -> bool {
        self.is_invalid(h)
    }

    fn next(&mut self) -> (r: Option<PoolTransaction>) {
        BestTransactions::next(self)
    }

    fn mark_invalid(&mut self, tx: &PoolTransaction) {
        BestTransactions::mark_invalid(self, tx)
    }

    fn no_updates(&mut self) {
        BestTransactions::no_updates(self)
    }

    fn skip_blobs(&mut self) {
        BestTransactions::skip_blobs(self)
    }

    fn set_skip_blobs(&mut self, skip_blobs: bool) {
        BestTransactions::set_skip_blobs(self, skip_blobs)
    }
}

impl BestTransactionsSource for BestTransactionsWithFees {
    closed spec fn yielded(&self) -> Seq<PoolTransaction> {
        self.accepted_view()
    }

    closed spec fn marked(&self, h: B256) -> bool {
        self.inner().is_invalid(h)
    }

    fn next(&mut self) -> (r: Option<PoolTransaction>) {
        BestTransactionsWithFees::next(self)
    }

    fn mark_invalid(&mut self, tx: &PoolTransaction) {
        BestTransactionsWithFees::mark_invalid(self, tx)
    }

    fn no_updates(&mut self) {
        BestTransactionsWithFees::no_updates(self)
    }

    fn skip_blobs(&mut self) {
        BestTransactionsWithFees::skip_blobs(self)
    }

    fn set_skip_blobs(&mut self, skip_blobs: bool) {
        BestTransactionsWithFees::set_skip_blobs(self, skip_blobs)
    }
}

/// A best-transactions iterator that yields only the transactions a
/// caller-supplied predicate accepts; the rejected ones are marked
/// invalid on the wrapped iterator.
pub struct BestTransactionFilter<I, P> {
    best: I,
    predicate: P,
    accepted: Ghost<Seq<PoolTransaction>>,
}

impl<I, P> BestTransactionFilter<I, P> where
    I: BestTransactionsSource,
    P: Fn(PoolTransaction) -> bool,
 {
    /// The wrapped iterator.
    pub closed spec fn inner(self) -> I {
        self.best
    }

    /// The transactions yielded by the filter so far, in order.
    pub closed spec fn accepted_view(self) -> Seq<PoolTransaction> {
        self.accepted@
    }

    /// The caller-supplied predicate.
    pub closed spec fn pred(self) -> P {
        self.predicate
    }

    /// Wrap `best` with the given predicate.
    pub fn new(best: I, predicate: P) -> (r: BestTransactionFilter<I, P>)
        ensures
            r.inner() == best,
            r.pred() == predicate,
            r.accepted_view().len() == 0,
    {
        BestTransactionFilter { best, predicate, accepted: Ghost(Seq::empty()) }
    }

    /// Yield the next transaction the predicate accepts; every rejected
    /// draw is marked invalid on the wrapped iterator, pruning its
    /// descendants.
    pub fn next(&mut self) -> (r: Option<PoolTransaction>)
        requires
            forall|t: PoolTransaction| call_requires(old(self).pred(), (t,)),
        ensures
            r matches Some(y) ==> final(self).accepted_view() == old(self).accepted_view().push(y)
                && call_ensures(old(self).pred(), (y,), true),
            r is None ==> final(self).accepted_view() == old(self).accepted_view(),
            old(self).inner().yielded().is_prefix_of(final(self).inner().yielded()),
            forall|h: B256| old(self).inner().marked(h) ==> final(self).inner().marked(h),
            r matches Some(y) ==> final(self).inner().yielded().len()
                > old(self).inner().yielded().len() && final(self).inner().yielded().last() == y
                && (forall|k: int|
                old(self).inner().yielded().len() <= k < final(self).inner().yielded().len() - 1
                    ==> final(self).inner().marked(
                    (#[trigger] final(self).inner().yielded()[k]).hash,
                )),
            r is None ==> (forall|k: int|
                old(self).inner().yielded().len() <= k < final(self).inner().yielded().len()
                    ==> final(self).inner().marked(
                    (#[trigger] final(self).inner().yielded()[k]).hash,
                )),
    {
        let ghost pre = *old(self);
        let mut fuel: u64 = u64::MAX;
        loop
            invariant
                pre == *old(self),
                forall|t: PoolTransaction| call_requires(self.pred(), (t,)),
                self.pred() == old(self).pred(),
                self.accepted@ == old(self).accepted@,
                pre.best.yielded().is_prefix_of(self.best.yielded()),
                forall|h: B256| pre.best.marked(h) ==> self.best.marked(h),
                forall|k: int|
                    pre.best.yielded().len() <= k < self.best.yielded().len()
                        ==> self.best.marked((#[trigger] self.best.yielded()[k]).hash),
            decreases fuel,
        {
            if fuel == 0 {
                return None;
            }
            fuel = fuel - 1;
            let ghost ib0 = self.best;
            let pulled = self.best.next();
            let tx = match pulled {
                None => {
                    return None;
                },
                Some(t) => t,
            };
            proof {
                lemma_prefix_push(pre.best.yielded(), ib0.yielded(), tx);
            }
            if (self.predicate)(tx) {
                proof {
                    self.accepted@ = self.accepted@.push(tx);
                }
                return Some(tx);
            } else {
                self.best.mark_invalid(&tx);
            }
        }
    }

    /// Mark a transaction invalid on the wrapped iterator.
    pub fn mark_invalid(&mut self, tx: &PoolTransaction)
        ensures
            final(self).inner().marked(tx.hash),
            final(self).accepted_view() == old(self).accepted_view(),
    {
        self.best.mark_invalid(tx)
    }

    /// Detach the late-arrival channel on the wrapped iterator.
    pub fn no_updates(&mut self)
        ensures
            final(self).accepted_view() == old(self).accepted_view(),
    {
        self.best.no_updates()
    }

    /// Exclude blob transactions from now on.
    pub fn skip_blobs(&mut self)
        ensures
            final(self).accepted_view() == old(self).accepted_view(),
    {
        self.set_skip_blobs(true)
    }

    /// Set the blob-exclusion flag on the wrapped iterator.
    pub fn set_skip_blobs(&mut self, skip_blobs: bool)
        ensures
            final(self).accepted_view() == old(self).accepted_view(),
    {
        self.best.set_skip_blobs(skip_blobs)
    }
}

} // verus!
