use vstd::prelude::*;

use crate::capture::{
    collect_receipts, env_from_header, env_of, is_result_of, result_from_header, somes,
    traces_post, traces_pre, ExecutionFixture, PreStateTrace,
};
use crate::command::{anvil_name, CommandError, ReplCommand};
use crate::fixture::{AccountState, Address, ExecutionReceipt, MinedBlock, Transaction};

verus! {

/// The state the node is reset to before re-mining: a remote endpoint and
/// a block number, each optional.
#[derive(Clone, Debug)]
pub struct Forking {
    pub json_rpc_url: Option<String>,
    pub block_number: Option<u64>,
}

/// What the event loop is to do after a command has been handled.
#[derive(Debug)]
pub enum SessionAction {
    /// Wait for the next event.
    Continue,
    /// Report the error to the operator and wait for the next event.
    ReportError(CommandError),
    /// Re-mine the accumulated transactions and write the fixture.
    Dump,
    /// Run the node tool with these arguments, its name first.
    RunNode(Vec<String>),
    /// Leave the loop; nothing more is written.
    Stop,
}

/// One capture session: the fixture under construction, the fork point to
/// re-mine from, and where the fixture is written.
#[derive(Debug)]
pub struct Opt8n {
    pub execution_fixture: ExecutionFixture,
    pub fork: Forking,
    pub output_file: String,
}

impl Opt8n {
    pub open spec fn wf(&self) -> bool {
        self.execution_fixture.wf()
    }

    /// A session with an empty fixture; without a fork point it resets to
    /// the node's own genesis.
    pub fn new(fork: Option<Forking>, output_file: String) -> (r: Opt8n)
        ensures
            r.wf(),
            r.execution_fixture.transactions@.len() == 0,
            r.execution_fixture.alloc@ == Map::<Address, AccountState>::empty(),
            r.execution_fixture.out_alloc@ == Map::<Address, AccountState>::empty(),
            r.output_file@ == output_file@,
            match fork {
                Some(f) => r.fork == f,
                None => r.fork.json_rpc_url is None && r.fork.block_number is None,
            },
    {
        let fork = match fork {
            Some(f) => f,
            None => Forking { json_rpc_url: None, block_number: None },
        };
        Opt8n { execution_fixture: ExecutionFixture::new(), fork, output_file }
    }

    /// Decides what a command asks for. Handling a command never changes
    /// the fixture.
    pub fn execute(&mut self, command: Result<ReplCommand, CommandError>) -> (r: SessionAction)
        ensures
            *final(self) == *old(self),
            match command {
                Err(e) => r == SessionAction::ReportError(e),
                Ok(ReplCommand::Exit) => r is Stop,
                Ok(ReplCommand::Dump) => r is Dump,
                Ok(ReplCommand::Cast { .. }) => r is Continue,
                Ok(ReplCommand::Anvil { args }) => match r {
                    SessionAction::RunNode(a) => a@.len() == args@.len() + 1 && a@[0]@
                        == anvil_name() && a@.drop_first() == args@,
                    _ => false,
                },
            },
    {
        match command {
            Err(e) => SessionAction::ReportError(e),
            Ok(ReplCommand::Exit) => SessionAction::Stop,
            Ok(ReplCommand::Dump) => SessionAction::Dump,
            Ok(ReplCommand::Cast { .. }) => SessionAction::Continue,
            Ok(ReplCommand::Anvil { args }) => {
                let mut a = args;
                proof {
                    reveal_strlit("anvil");
                }
                let name = "anvil".to_owned();
                let ghost before = a@;
                a.insert(0, name);
                assert(a@.drop_first() =~= before);
                SessionAction::RunNode(a)
            },
        }
    }

    /// Takes in the transactions of a newly announced block; a block that
    /// could not be fetched adds nothing.
    pub fn on_new_block(&mut self, block: Option<Vec<Transaction>>)
        requires
            old(self).wf(),
        ensures
            final(self).wf(),
            final(self).execution_fixture.transactions@ == old(
                self,
            ).execution_fixture.transactions@ + match block {
                Some(txs) => txs@,
                None => Seq::<Transaction>::empty(),
            },
            final(self).execution_fixture.alloc == old(self).execution_fixture.alloc,
            final(self).execution_fixture.out_alloc == old(self).execution_fixture.out_alloc,
            final(self).execution_fixture.env == old(self).execution_fixture.env,
            final(self).execution_fixture.result == old(self).execution_fixture.result,
            final(self).fork == old(self).fork,
            final(self).output_file == old(self).output_file,
    {
        match block {
            Some(txs) => self.execution_fixture.append_transactions(txs),
            None => {
                assert(self.execution_fixture.transactions@ + Seq::<Transaction>::empty()
                    =~= self.execution_fixture.transactions@);
            },
        }
    }

    /// The mining priority of each accumulated transaction, in order: its
    /// gas price.
    pub fn mining_priorities(&self) -> (r: Vec<u128>)
        ensures
            r@.len() == self.execution_fixture.transactions@.len(),
            forall|i: int|
                0 <= i < r@.len() ==> #[trigger] r@[i]
                    == self.execution_fixture.transactions@[i].gas_price,
    {
        let txs = &self.execution_fixture.transactions;
        let mut r: Vec<u128> = Vec::new();
        let mut i: usize = 0;
        while i < txs.len()
            invariant
                i <= txs@.len(),
                r@.len() == i,
                forall|k: int| 0 <= k < i ==> #[trigger] r@[k] == txs@[k].gas_price,
            decreases txs@.len() - i,
        {
            r.push(txs[i].gas_price);
            i = i + 1;
        }
        r
    }

    /// Merges the pre-state traces of transactions, in block order, into
    /// the fixture's pre- and post-state maps.
    pub fn update_alloc(&mut self, traces: Vec<PreStateTrace>)
        requires
            old(self).wf(),
        ensures
            final(self).wf(),
            final(self).execution_fixture.alloc@ == traces_pre(
                old(self).execution_fixture.alloc@,
                traces@,
            ),
            final(self).execution_fixture.out_alloc@ == traces_post(
                old(self).execution_fixture.out_alloc@,
                traces@,
            ),
            final(self).execution_fixture.transactions == old(self).execution_fixture.transactions,
            final(self).execution_fixture.env == old(self).execution_fixture.env,
            final(self).execution_fixture.result == old(self).execution_fixture.result,
            final(self).fork == old(self).fork,
            final(self).output_file == old(self).output_file,
    {
        self.execution_fixture.merge_traces(traces);
    }

    /// Records a re-mined block: the receipts found for its transactions in
    /// block order, the state diffs of its transactions, its roots and its
    /// environment. The accumulated transactions stay as they were.
    pub fn dump_execution_fixture(
        &mut self,
        block: &MinedBlock,
        fetched: Vec<Option<ExecutionReceipt>>,
        traces: Vec<PreStateTrace>,
    )
        requires
            old(self).wf(),
        ensures
            final(self).wf(),
            is_result_of(final(self).execution_fixture.result, block.header, somes(fetched@)),
            final(self).execution_fixture.env == env_of(block.header),
            final(self).execution_fixture.alloc@ == traces_pre(
                old(self).execution_fixture.alloc@,
                traces@,
            ),
            final(self).execution_fixture.out_alloc@ == traces_post(
                old(self).execution_fixture.out_alloc@,
                traces@,
            ),
            final(self).execution_fixture.transactions == old(self).execution_fixture.transactions,
            final(self).fork == old(self).fork,
            final(self).output_file == old(self).output_file,
    {
        let receipts = collect_receipts(fetched);
        self.update_alloc(traces);
        self.execution_fixture.result = result_from_header(&block.header, receipts);
        self.execution_fixture.env = env_from_header(&block.header);
    }
}

} // verus!
