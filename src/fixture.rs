use vstd::prelude::*;

verus! {

/// A 20-byte account address.
#[derive(Clone, Copy, Debug, Eq)]
pub struct Address {
    pub bytes: [u8; 20],
}

impl PartialEq for Address {
    fn eq(&self, o: &Address) -> (r: bool) {
        let mut i: usize = 0;
        while i < 20
            invariant
                i <= 20,
                forall|j: int| 0 <= j < i ==> self.bytes[j] == o.bytes[j],
            decreases 20 - i,
        {
            if self.bytes[i] != o.bytes[i] {
                return false;
            }
            i = i + 1;
        }
        assert(self.bytes =~= o.bytes);
        true
    }
}

impl vstd::std_specs::cmp::PartialEqSpecImpl for Address {
    open spec fn obeys_eq_spec() -> bool {
        true
    }

    open spec fn eq_spec(&self, o: &Address) -> bool {
        *self == *o
    }
}

/// A 32-byte hash or word.
pub type B256 = [u8; 32];

/// A 2048-bit logs bloom filter.
pub type Bloom = [u8; 256];

/// A signed transaction as the node included it.
#[derive(Clone, Debug)]
pub struct Transaction {
    pub hash: B256,
    pub gas_price: u128,
    /// The transaction in its canonical encoding.
    pub encoded: Vec<u8>,
}

/// A log emitted during execution.
#[derive(Clone, Debug)]
pub struct LogEntry {
    pub address: Address,
    pub topics: Vec<B256>,
    pub data: Vec<u8>,
}

/// The receipt of one executed transaction.
#[derive(Clone, Debug)]
pub struct ExecutionReceipt {
    pub transaction_hash: B256,
    pub status: bool,
    pub cumulative_gas_used: u128,
    pub gas_used: u128,
    pub contract_address: Option<Address>,
    pub logs_bloom: Bloom,
    pub logs: Vec<LogEntry>,
}

/// The header fields of a mined block that a fixture records.
#[derive(Clone, Copy, Debug)]
pub struct BlockHeader {
    pub parent_hash: B256,
    pub beneficiary: Address,
    pub state_root: B256,
    pub transactions_root: B256,
    pub receipts_root: B256,
    pub logs_bloom: Bloom,
    pub difficulty: B256,
    pub number: u64,
    pub gas_limit: u128,
    pub timestamp: u64,
}

/// A mined block: its header and its transactions in block order.
#[derive(Debug)]
pub struct MinedBlock {
    pub header: BlockHeader,
    pub transactions: Vec<Transaction>,
}

/// The block execution environment of a fixture.
#[derive(Clone, Copy, Debug)]
pub struct ExecutionEnvironment {
    pub current_coinbase: Address,
    pub current_difficulty: B256,
    pub current_gas_limit: u128,
    pub previous_hash: B256,
    pub current_number: u64,
    pub current_timestamp: u64,
}

/// The outcome of mining a fixture's transactions.
#[derive(Debug)]
pub struct ExecutionResult {
    pub state_root: B256,
    pub tx_root: B256,
    pub receipt_root: B256,
    pub logs_hash: B256,
    pub logs_bloom: Bloom,
    pub receipts: Vec<ExecutionReceipt>,
}

/// An account as the node's diff-mode state tracer reports it.
#[derive(Clone, Debug)]
pub struct AccountState {
    /// Big-endian 256-bit balance, when reported.
    pub balance: Option<[u8; 32]>,
    pub nonce: Option<u64>,
    pub code: Option<Vec<u8>>,
    /// Storage slots as (key, value) pairs.
    pub storage: Vec<([u8; 32], [u8; 32])>,
}

/// The account states before or after a transaction, in the order reported.
pub type AccountList = Vec<(Address, AccountState)>;

/// The model of an account list: the map that inserting its entries one by
/// one, each over the earlier ones, would give.
pub open spec fn entries_map(
    m: Map<Address, AccountState>,
    d: Seq<(Address, AccountState)>,
) -> Map<Address, AccountState>
    decreases d.len(),
{
    if d.len() == 0 {
        m
    } else {
        entries_map(m, d.drop_last()).insert(d.last().0, d.last().1)
    }
}

/// Merging pre-states: an entry is taken only where its address has none yet.
pub open spec fn merge_pre(
    m: Map<Address, AccountState>,
    d: Seq<(Address, AccountState)>,
) -> Map<Address, AccountState>
    decreases d.len(),
{
    if d.len() == 0 {
        m
    } else {
        let prev = merge_pre(m, d.drop_last());
        if prev.contains_key(d.last().0) {
            prev
        } else {
            prev.insert(d.last().0, d.last().1)
        }
    }
}

/// Merging post-states: every entry replaces what its address had.
pub open spec fn merge_post(
    m: Map<Address, AccountState>,
    d: Seq<(Address, AccountState)>,
) -> Map<Address, AccountState>
    decreases d.len(),
{
    if d.len() == 0 {
        m
    } else {
        merge_post(m, d.drop_last()).insert(d.last().0, d.last().1)
    }
}

/// Whether some entry of `d` is for `a`.
pub open spec fn mentions(d: Seq<(Address, AccountState)>, a: Address) -> bool {
    exists|i: int| 0 <= i < d.len() && d[i].0 == a
}

/// The state of the last entry of `d` for `a`.
pub open spec fn last_state_for(d: Seq<(Address, AccountState)>, a: Address) -> AccountState
    recommends
        mentions(d, a),
    decreases d.len(),
{
    if d.len() == 0 {
        arbitrary()
    } else if d.last().0 == a {
        d.last().1
    } else {
        last_state_for(d.drop_last(), a)
    }
}

/// Whether the keys of an association list are pairwise distinct.
pub open spec fn keys_unique(s: Seq<(Address, AccountState)>) -> bool {
    forall|i: int, j: int| 0 <= i < j < s.len() ==> s[i].0 != s[j].0
}

/// The map that an association list with distinct keys stands for.
pub open spec fn assoc_map(s: Seq<(Address, AccountState)>) -> Map<Address, AccountState> {
    entries_map(Map::empty(), s)
}

proof fn lemma_assoc_map_domain(s: Seq<(Address, AccountState)>, a: Address)
    ensures
        assoc_map(s).contains_key(a) <==> mentions(s, a),
    decreases s.len(),
{
    if s.len() > 0 {
        lemma_assoc_map_domain(s.drop_last(), a);
        if mentions(s, a) && s.last().0 != a {
            let i = choose|i: int| 0 <= i < s.len() && s[i].0 == a;
            assert(s.drop_last()[i].0 == a);
        }
        if mentions(s.drop_last(), a) {
            let i = choose|i: int| 0 <= i < s.len() - 1 && s.drop_last()[i].0 == a;
            assert(s[i].0 == a);
        }
    }
}

proof fn lemma_assoc_map_index(s: Seq<(Address, AccountState)>, i: int)
    requires
        keys_unique(s),
        0 <= i < s.len(),
    ensures
        assoc_map(s).contains_key(s[i].0),
        assoc_map(s)[s[i].0] == s[i].1,
    decreases s.len(),
{
    if i < s.len() - 1 {
        assert(s.drop_last()[i] == s[i]);
        lemma_assoc_map_index(s.drop_last(), i);
        assert(s.last().0 != s[i].0);
    }
}

/// Finds the position of `a` among the keys of `s`.
fn find_key(s: &AccountList, a: &Address) -> (r: Option<usize>)
    ensures
        match r {
            Some(i) => i < s@.len() && s@[i as int].0 == *a,
            None => !mentions(s@, *a),
        },
{
    let mut i: usize = 0;
    while i < s.len()
        invariant
            i <= s@.len(),
            forall|j: int| 0 <= j < i ==> s@[j].0 != *a,
        decreases s@.len() - i,
    {
        if s[i].0 == *a {
            return Some(i);
        }
        i = i + 1;
    }
    None
}

/// Accounts keyed by address, each address at most once, in the order
/// the addresses were first inserted.
#[derive(Debug)]
pub struct AccountMap {
    entries: AccountList,
}

impl View for AccountMap {
    type V = Map<Address, AccountState>;

    closed spec fn view(&self) -> Map<Address, AccountState> {
        assoc_map(self.entries@)
    }
}

impl AccountMap {
    pub closed spec fn wf(&self) -> bool {
        keys_unique(self.entries@)
    }

    pub closed spec fn spec_entries(&self) -> Seq<(Address, AccountState)> {
        self.entries@
    }

    pub fn new() -> (r: AccountMap)
        ensures
            r.wf(),
            r@ == Map::<Address, AccountState>::empty(),
    {
        AccountMap { entries: Vec::new() }
    }

    /// The entries, each address once, in order of first insertion.
    pub fn entries(&self) -> (r: &AccountList)
        ensures
            r@ == self.spec_entries(),
    {
        &self.entries
    }

    pub fn len(&self) -> (r: usize)
        requires
            self.wf(),
        ensures
            r == self@.dom().len(),
    {
        proof {
            lemma_unique_dom_len(self.entries@);
        }
        self.entries.len()
    }

    pub fn get(&self, a: &Address) -> (r: Option<&AccountState>)
        requires
            self.wf(),
        ensures
            match r {
                Some(v) => self@.contains_key(*a) && self@[*a] == *v,
                None => !self@.contains_key(*a),
            },
    {
        proof {
            lemma_assoc_map_domain(self.entries@, *a);
        }
        match find_key(&self.entries, a) {
            Some(i) => {
                proof {
                    lemma_assoc_map_index(self.entries@, i as int);
                }
                Some(&self.entries[i].1)
            },
            None => None,
        }
    }

    /// Inserts `v` for `a` unless `a` already has an entry.
    pub fn insert_if_absent(&mut self, a: Address, v: AccountState)
        requires
            old(self).wf(),
        ensures
            final(self).wf(),
            final(self)@ == (if old(self)@.contains_key(a) {
                old(self)@
            } else {
                old(self)@.insert(a, v)
            }),
    {
        proof {
            lemma_assoc_map_domain(self.entries@, a);
        }
        match find_key(&self.entries, &a) {
            Some(_) => {},
            None => {
                let ghost prev = self.entries@;
                self.entries.push((a, v));
                assert(self.entries@.drop_last() =~= prev);
            },
        }
    }

    /// Sets the entry of `a` to `v`, replacing any earlier one.
    pub fn insert(&mut self, a: Address, v: AccountState)
        requires
            old(self).wf(),
        ensures
            final(self).wf(),
            final(self)@ == old(self)@.insert(a, v),
    {
        proof {
            lemma_assoc_map_domain(self.entries@, a);
        }
        let ghost prev = self.entries@;
        match find_key(&self.entries, &a) {
            Some(i) => {
                self.entries.set(i, (a, v));
                let ghost cur = self.entries@;
                assert(keys_unique(cur));
                assert forall|k: Address|
                    #![trigger assoc_map(cur).contains_key(k)]
                    assoc_map(cur).contains_key(k) <==> assoc_map(prev).insert(a, v).contains_key(k) by {
                    lemma_assoc_map_domain(cur, k);
                    lemma_assoc_map_domain(prev, k);
                    if mentions(prev, k) {
                        let j = choose|j: int| 0 <= j < prev.len() && prev[j].0 == k;
                        assert(cur[j].0 == k);
                    }
                    if mentions(cur, k) {
                        let j = choose|j: int| 0 <= j < cur.len() && cur[j].0 == k;
                        assert(j == i || prev[j].0 == k);
                    }
                };
                assert forall|k: Address|
                    #![trigger assoc_map(cur)[k]]
                    assoc_map(cur).contains_key(k) ==> assoc_map(cur)[k] == assoc_map(prev).insert(a, v)[k] by {
                    lemma_assoc_map_domain(cur, k);
                    if assoc_map(cur).contains_key(k) {
                        let j = choose|j: int| 0 <= j < cur.len() && cur[j].0 == k;
                        lemma_assoc_map_index(cur, j);
                        if j != i {
                            assert(prev[j] == cur[j]);
                            lemma_assoc_map_index(prev, j);
                        }
                    }
                };
                assert(assoc_map(cur) =~= assoc_map(prev).insert(a, v));
            },
            None => {
                self.entries.push((a, v));
                assert(self.entries@.drop_last() =~= prev);
            },
        }
    }

    /// Merges a list of pre-states: first-observed state wins per address.
    pub fn merge_pre_states(&mut self, d: AccountList)
        requires
            old(self).wf(),
        ensures
            final(self).wf(),
            final(self)@ == merge_pre(old(self)@, d@),
    {
        let ghost m0 = self@;
        let ghost all = d@;
        let mut d = d;
        let ghost mut k: int = 0;
        while d.len() > 0
            invariant
                self.wf(),
                0 <= k <= all.len(),
                d@ == all.subrange(k, all.len() as int),
                self@ == merge_pre(m0, all.subrange(0, k)),
            decreases d@.len(),
        {
            let (a, v) = d.remove(0);
            proof {
                assert(all.subrange(0, k + 1).drop_last() =~= all.subrange(0, k));
                assert(all[k] == (a, v));
                k = k + 1;
            }
            self.insert_if_absent(a, v);
            assert(d@ =~= all.subrange(k, all.len() as int));
        }
        assert(all.subrange(0, k) =~= all);
    }

    /// Merges a list of post-states: the latest state wins per address.
    pub fn merge_post_states(&mut self, d: AccountList)
        requires
            old(self).wf(),
        ensures
            final(self).wf(),
            final(self)@ == merge_post(old(self)@, d@),
    {
        let ghost m0 = self@;
        let ghost all = d@;
        let mut d = d;
        let ghost mut k: int = 0;
        while d.len() > 0
            invariant
                self.wf(),
                0 <= k <= all.len(),
                d@ == all.subrange(k, all.len() as int),
                self@ == merge_post(m0, all.subrange(0, k)),
            decreases d@.len(),
        {
            let (a, v) = d.remove(0);
            proof {
                assert(all.subrange(0, k + 1).drop_last() =~= all.subrange(0, k));
                assert(all[k] == (a, v));
                k = k + 1;
            }
            self.insert(a, v);
            assert(d@ =~= all.subrange(k, all.len() as int));
        }
        assert(all.subrange(0, k) =~= all);
    }
}

pub(crate) proof fn lemma_merge_pre_keeps(
    m: Map<Address, AccountState>,
    d: Seq<(Address, AccountState)>,
    a: Address,
)
    ensures
        merge_pre(m, d).contains_key(a) <==> (m.contains_key(a) || mentions(d, a)),
        m.contains_key(a) ==> merge_pre(m, d)[a] == m[a],
    decreases d.len(),
{
    if d.len() > 0 {
        let p = d.drop_last();
        lemma_merge_pre_keeps(m, p, a);
        if mentions(d, a) && d.last().0 != a {
            let i = choose|i: int| 0 <= i < d.len() && d[i].0 == a;
            assert(p[i].0 == a);
        }
        if mentions(p, a) {
            let i = choose|i: int| 0 <= i < p.len() && p[i].0 == a;
            assert(d[i].0 == a);
        }
    }
}

pub(crate) proof fn lemma_merge_pre_all_present(m: Map<Address, AccountState>, d: Seq<(Address, AccountState)>)
    requires
        forall|i: int| 0 <= i < d.len() ==> m.contains_key(#[trigger] d[i].0),
    ensures
        merge_pre(m, d) == m,
    decreases d.len(),
{
    if d.len() > 0 {
        let p = d.drop_last();
        assert forall|i: int| 0 <= i < p.len() implies m.contains_key(#[trigger] p[i].0) by {
            assert(p[i] == d[i]);
        };
        lemma_merge_pre_all_present(m, p);
        assert(m.contains_key(d[d.len() - 1].0));
    }
}

/// Pre-states are written once per address: an address that already has a
/// pre-state keeps it, and merging the same list a second time changes nothing.
pub proof fn lemma_pre_state_first_wins(
    m: Map<Address, AccountState>,
    d: Seq<(Address, AccountState)>,
)
    ensures
        forall|a: Address|
            #![trigger merge_pre(m, d)[a]]
            m.contains_key(a) ==> merge_pre(m, d)[a] == m[a],
        merge_pre(merge_pre(m, d), d) == merge_pre(m, d),
{
    let m1 = merge_pre(m, d);
    assert forall|a: Address| #![trigger merge_pre(m, d)[a]] m.contains_key(a) implies merge_pre(m, d)[a] == m[a] by {
        lemma_merge_pre_keeps(m, d, a);
    };
    assert forall|i: int| 0 <= i < d.len() implies m1.contains_key(#[trigger] d[i].0) by {
        lemma_merge_pre_keeps(m, d, d[i].0);
    };
    lemma_merge_pre_all_present(m1, d);
}

proof fn lemma_merge_post_last(
    m: Map<Address, AccountState>,
    d: Seq<(Address, AccountState)>,
    a: Address,
)
    requires
        mentions(d, a),
    ensures
        merge_post(m, d).contains_key(a),
        merge_post(m, d)[a] == last_state_for(d, a),
    decreases d.len(),
{
    if d.last().0 != a {
        let p = d.drop_last();
        let i = choose|i: int| 0 <= i < d.len() && d[i].0 == a;
        assert(p[i].0 == a);
        lemma_merge_post_last(m, p, a);
    }
}

/// Post-states follow the latest observation: after merging `d1` and then
/// `d2`, an address that `d2` reports has the state of its last entry in `d2`.
pub proof fn lemma_post_state_last_wins(
    m: Map<Address, AccountState>,
    d1: Seq<(Address, AccountState)>,
    d2: Seq<(Address, AccountState)>,
    a: Address,
)
    requires
        mentions(d2, a),
    ensures
        merge_post(merge_post(m, d1), d2).contains_key(a),
        merge_post(merge_post(m, d1), d2)[a] == last_state_for(d2, a),
{
    lemma_merge_post_last(merge_post(m, d1), d2, a);
}

proof fn lemma_unique_dom_len(s: Seq<(Address, AccountState)>)
    requires
        keys_unique(s),
    ensures
        assoc_map(s).dom().finite(),
        assoc_map(s).dom().len() == s.len(),
    decreases s.len(),
{
    if s.len() > 0 {
        let p = s.drop_last();
        assert(keys_unique(p));
        lemma_unique_dom_len(p);
        lemma_assoc_map_domain(p, s.last().0);
        if mentions(p, s.last().0) {
            let j = choose|j: int| 0 <= j < p.len() && p[j].0 == s.last().0;
            assert(s[j].0 == s[s.len() - 1].0);
        }
    }
}

} // verus!
