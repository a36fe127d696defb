use vstd::prelude::*;

use crate::fixture::{
    lemma_merge_pre_all_present, lemma_merge_pre_keeps, mentions, merge_post, merge_pre,
    AccountList, AccountMap, AccountState, Address, BlockHeader, ExecutionEnvironment,
    ExecutionReceipt, ExecutionResult, Transaction,
};

verus! {

/// The account states that one transaction read and wrote.
#[derive(Debug)]
pub struct StateDiff {
    pub pre: AccountList,
    pub post: AccountList,
}

/// What the node's pre-state tracer reported for one transaction.
#[derive(Debug)]
pub enum PreStateTrace {
    /// A diff-mode frame: the states before and after the transaction.
    Diff(StateDiff),
    /// Any other frame shape; it carries nothing to merge.
    Other,
}

/// The pre-state map after merging the diffs among `t`, in order.
pub open spec fn traces_pre(
    m: Map<Address, AccountState>,
    t: Seq<PreStateTrace>,
) -> Map<Address, AccountState>
    decreases t.len(),
{
    if t.len() == 0 {
        m
    } else {
        let prev = traces_pre(m, t.drop_last());
        match t.last() {
            PreStateTrace::Diff(d) => merge_pre(prev, d.pre@),
            PreStateTrace::Other => prev,
        }
    }
}

/// The post-state map after merging the diffs among `t`, in order.
pub open spec fn traces_post(
    m: Map<Address, AccountState>,
    t: Seq<PreStateTrace>,
) -> Map<Address, AccountState>
    decreases t.len(),
{
    if t.len() == 0 {
        m
    } else {
        let prev = traces_post(m, t.drop_last());
        match t.last() {
            PreStateTrace::Diff(d) => merge_post(prev, d.post@),
            PreStateTrace::Other => prev,
        }
    }
}

/// The values present in `s`, in order.
pub open spec fn somes<T>(s: Seq<Option<T>>) -> Seq<T>
    decreases s.len(),
{
    if s.len() == 0 {
        Seq::empty()
    } else {
        let prev = somes(s.drop_last());
        match s.last() {
            Some(v) => prev.push(v),
            None => prev,
        }
    }
}

/// Whether `m` has an entry for every address in the pre-states of `t`.
pub open spec fn holds_pre_keys(m: Map<Address, AccountState>, t: Seq<PreStateTrace>) -> bool {
    forall|i: int, j: int|
        #![trigger t[i]->Diff_0.pre@[j]]
        0 <= i < t.len() && t[i] is Diff && 0 <= j < t[i]->Diff_0.pre@.len() ==> m.contains_key(
            t[i]->Diff_0.pre@[j].0,
        )
}

proof fn lemma_traces_pre_grows(m: Map<Address, AccountState>, t: Seq<PreStateTrace>)
    ensures
        forall|a: Address| m.contains_key(a) ==> #[trigger] traces_pre(m, t).contains_key(a),
        holds_pre_keys(traces_pre(m, t), t),
    decreases t.len(),
{
    if t.len() > 0 {
        let p = t.drop_last();
        lemma_traces_pre_grows(m, p);
        let mp = traces_pre(m, p);
        let mt = traces_pre(m, t);
        assert forall|a: Address| mp.contains_key(a) implies #[trigger] mt.contains_key(a) by {
            if let PreStateTrace::Diff(d) = t.last() {
                lemma_merge_pre_keeps(mp, d.pre@, a);
            }
        };
        assert forall|i: int, j: int|
            #![trigger t[i]->Diff_0.pre@[j]]
            0 <= i < t.len() && t[i] is Diff && 0 <= j < t[i]->Diff_0.pre@.len() implies mt.contains_key(
                t[i]->Diff_0.pre@[j].0,
            ) by {
            if i < t.len() - 1 {
                assert(p[i] == t[i]);
                assert(mp.contains_key(p[i]->Diff_0.pre@[j].0));
            } else {
                let d = t.last()->Diff_0;
                lemma_merge_pre_keeps(mp, d.pre@, d.pre@[j].0);
                assert(mentions(d.pre@, d.pre@[j].0));
            }
        };
    }
}

proof fn lemma_traces_pre_all_present(m: Map<Address, AccountState>, t: Seq<PreStateTrace>)
    requires
        holds_pre_keys(m, t),
    ensures
        traces_pre(m, t) == m,
    decreases t.len(),
{
    if t.len() > 0 {
        let p = t.drop_last();
        assert forall|i: int, j: int|
            #![trigger p[i]->Diff_0.pre@[j]]
            0 <= i < p.len() && p[i] is Diff && 0 <= j < p[i]->Diff_0.pre@.len() implies m.contains_key(
                p[i]->Diff_0.pre@[j].0,
            ) by {
            assert(p[i] == t[i]);
            assert(m.contains_key(t[i]->Diff_0.pre@[j].0));
        };
        lemma_traces_pre_all_present(m, p);
        if let PreStateTrace::Diff(d) = t.last() {
            assert forall|j: int| 0 <= j < d.pre@.len() implies m.contains_key(#[trigger] d.pre@[j].0) by {
                assert(m.contains_key(t[t.len() - 1]->Diff_0.pre@[j].0));
            };
            lemma_merge_pre_all_present(m, d.pre@);
        }
    }
}

/// Merging the same traces into the pre-state map a second time changes
/// nothing: every address they report already has its first state.
pub proof fn lemma_traces_pre_idempotent(m: Map<Address, AccountState>, t: Seq<PreStateTrace>)
    ensures
        traces_pre(traces_pre(m, t), t) == traces_pre(m, t),
{
    lemma_traces_pre_grows(m, t);
    lemma_traces_pre_all_present(traces_pre(m, t), t);
}

/// The positions in `s` of the values that `somes(s)` keeps.
pub open spec fn some_positions<T>(s: Seq<Option<T>>) -> Seq<int>
    decreases s.len(),
{
    if s.len() == 0 {
        Seq::empty()
    } else {
        let prev = some_positions(s.drop_last());
        if s.last() is Some {
            prev.push(s.len() - 1)
        } else {
            prev
        }
    }
}

proof fn lemma_some_positions<T>(s: Seq<Option<T>>)
    ensures
        some_positions(s).len() == somes(s).len(),
        somes(s).len() <= s.len(),
        forall|i: int|
            0 <= i < some_positions(s).len() ==> {
                &&& 0 <= #[trigger] some_positions(s)[i] < s.len()
                &&& s[some_positions(s)[i]] == Some(somes(s)[i])
            },
        forall|i: int, j: int|
            0 <= i < j < some_positions(s).len() ==> some_positions(s)[i] < some_positions(s)[j],
    decreases s.len(),
{
    if s.len() > 0 {
        let p = s.drop_last();
        lemma_some_positions(p);
        assert forall|i: int| 0 <= i < some_positions(p).len() implies p[some_positions(p)[i]] == s[some_positions(p)[i]] by {};
    }
}

/// Receipts follow block order: there are no more of them than transactions,
/// and they stand at strictly increasing block positions, each the receipt
/// fetched for the transaction at its position.
pub proof fn lemma_receipts_follow_block_order(fetched: Seq<Option<ExecutionReceipt>>)
    ensures
        somes(fetched).len() <= fetched.len(),
        exists|pos: Seq<int>|
            {
                &&& #[trigger] pos.len() == somes(fetched).len()
                &&& forall|i: int|
                    0 <= i < pos.len() ==> 0 <= #[trigger] pos[i] < fetched.len() && fetched[pos[i]]
                        == Some(somes(fetched)[i])
                &&& forall|i: int, j: int| 0 <= i < j < pos.len() ==> pos[i] < pos[j]
            },
{
    lemma_some_positions(fetched);
    let pos = some_positions(fetched);
    assert(pos.len() == somes(fetched).len());
}

/// The environment that a mined block's header gives a fixture.
pub open spec fn env_of(h: BlockHeader) -> ExecutionEnvironment {
    ExecutionEnvironment {
        current_coinbase: h.beneficiary,
        current_difficulty: h.difficulty,
        current_gas_limit: h.gas_limit,
        previous_hash: h.parent_hash,
        current_number: h.number,
        current_timestamp: h.timestamp,
    }
}

/// Whether `r` is the result that header `h` and the receipts `rs` give:
/// the roots and bloom copied from the header, an all-zero logs hash.
pub open spec fn is_result_of(r: ExecutionResult, h: BlockHeader, rs: Seq<ExecutionReceipt>) -> bool {
    &&& r.state_root == h.state_root
    &&& r.tx_root == h.transactions_root
    &&& r.receipt_root == h.receipts_root
    &&& forall|i: int| 0 <= i < 32 ==> r.logs_hash[i] == 0u8
    &&& r.logs_bloom == h.logs_bloom
    &&& r.receipts@ == rs
}

/// The fixture under construction.
#[derive(Debug)]
pub struct ExecutionFixture {
    /// Transactions in order of arrival.
    pub transactions: Vec<Transaction>,
    /// Pre-transaction state per address, first observation wins.
    pub alloc: AccountMap,
    /// Post-transaction state per address, latest observation wins.
    pub out_alloc: AccountMap,
    pub env: ExecutionEnvironment,
    pub result: ExecutionResult,
}

impl ExecutionFixture {
    pub open spec fn wf(&self) -> bool {
        self.alloc.wf() && self.out_alloc.wf()
    }

    /// An empty fixture: no transactions, no accounts, zeroed environment and result.
    pub fn new() -> (r: ExecutionFixture)
        ensures
            r.wf(),
            r.transactions@.len() == 0,
            r.alloc@ == Map::<Address, AccountState>::empty(),
            r.out_alloc@ == Map::<Address, AccountState>::empty(),
            r.result.receipts@.len() == 0,
    {
        ExecutionFixture {
            transactions: Vec::new(),
            alloc: AccountMap::new(),
            out_alloc: AccountMap::new(),
            env: ExecutionEnvironment {
                current_coinbase: Address { bytes: [0u8; 20] },
                current_difficulty: [0u8; 32],
                current_gas_limit: 0,
                previous_hash: [0u8; 32],
                current_number: 0,
                current_timestamp: 0,
            },
            result: ExecutionResult {
                state_root: [0u8; 32],
                tx_root: [0u8; 32],
                receipt_root: [0u8; 32],
                logs_hash: [0u8; 32],
                logs_bloom: [0u8; 256],
                receipts: Vec::new(),
            },
        }
    }

    /// Appends the transactions of a newly announced block, in block order.
    pub fn append_transactions(&mut self, txs: Vec<Transaction>)
        ensures
            final(self).transactions@ == old(self).transactions@ + txs@,
            final(self).alloc == old(self).alloc,
            final(self).out_alloc == old(self).out_alloc,
            final(self).env == old(self).env,
            final(self).result == old(self).result,
    {
        let mut txs = txs;
        self.transactions.append(&mut txs);
    }

    /// Merges the diff-mode traces in `traces`, in order, into the pre- and
    /// post-state maps; traces of any other shape are passed over.
    pub fn merge_traces(&mut self, traces: Vec<PreStateTrace>)
        requires
            old(self).wf(),
        ensures
            final(self).wf(),
            final(self).alloc@ == traces_pre(old(self).alloc@, traces@),
            final(self).out_alloc@ == traces_post(old(self).out_alloc@, traces@),
            final(self).transactions == old(self).transactions,
            final(self).env == old(self).env,
            final(self).result == old(self).result,
    {
        let ghost pre0 = self.alloc@;
        let ghost post0 = self.out_alloc@;
        let ghost all = traces@;
        let mut traces = traces;
        let ghost mut k: int = 0;
        while traces.len() > 0
            invariant
                self.wf(),
                0 <= k <= all.len(),
                traces@ == all.subrange(k, all.len() as int),
                self.alloc@ == traces_pre(pre0, all.subrange(0, k)),
                self.out_alloc@ == traces_post(post0, all.subrange(0, k)),
                self.transactions == old(self).transactions,
                self.env == old(self).env,
                self.result == old(self).result,
            decreases traces@.len(),
        {
            let t = traces.remove(0);
            proof {
                assert(all.subrange(0, k + 1).drop_last() =~= all.subrange(0, k));
                assert(all[k] == t);
                k = k + 1;
            }
            match t {
                PreStateTrace::Diff(d) => {
                    self.alloc.merge_pre_states(d.pre);
                    self.out_alloc.merge_post_states(d.post);
                },
                PreStateTrace::Other => {},
            }
            assert(traces@ =~= all.subrange(k, all.len() as int));
        }
        assert(all.subrange(0, k) =~= all);
    }
}

/// Keeps the receipts that the node returned, in block order; a transaction
/// without a receipt is passed over.
pub fn collect_receipts(fetched: Vec<Option<ExecutionReceipt>>) -> (r: Vec<ExecutionReceipt>)
    ensures
        r@ == somes(fetched@),
{
    let ghost all = fetched@;
    let mut fetched = fetched;
    let mut r: Vec<ExecutionReceipt> = Vec::new();
    let ghost mut k: int = 0;
    while fetched.len() > 0
        invariant
            0 <= k <= all.len(),
            fetched@ == all.subrange(k, all.len() as int),
            r@ == somes(all.subrange(0, k)),
        decreases fetched@.len(),
    {
        let f = fetched.remove(0);
        proof {
            assert(all.subrange(0, k + 1).drop_last() =~= all.subrange(0, k));
            assert(all[k] == f);
            k = k + 1;
        }
        match f {
            Some(receipt) => r.push(receipt),
            None => {},
        }
        assert(fetched@ =~= all.subrange(k, all.len() as int));
    }
    assert(all.subrange(0, k) =~= all);
    r
}

/// The result that a mined block's header and its receipts give.
pub fn result_from_header(h: &BlockHeader, receipts: Vec<ExecutionReceipt>) -> (r: ExecutionResult)
    ensures
        is_result_of(r, *h, receipts@),
{
    ExecutionResult {
        state_root: h.state_root,
        tx_root: h.transactions_root,
        receipt_root: h.receipts_root,
        logs_hash: [0u8; 32],
        logs_bloom: h.logs_bloom,
        receipts,
    }
}

/// The environment that a mined block's header gives.
pub fn env_from_header(h: &BlockHeader) -> (r: ExecutionEnvironment)
    ensures
        r == env_of(*h),
{
    ExecutionEnvironment {
        current_coinbase: h.beneficiary,
        current_difficulty: h.difficulty,
        current_gas_limit: h.gas_limit,
        previous_hash: h.parent_hash,
        current_number: h.number,
        current_timestamp: h.timestamp,
    }
}

} // verus!
