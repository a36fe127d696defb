use opt8n::capture::{collect_receipts, ExecutionFixture, PreStateTrace, StateDiff};
use opt8n::command::{parse_command, receive_command, CommandError, ReplCommand};
use opt8n::fixture::{
    AccountMap, AccountState, Address, BlockHeader, ExecutionReceipt, MinedBlock, Transaction,
};
use opt8n::session::{Forking, Opt8n, SessionAction};

fn addr(n: u8) -> Address {
    let mut bytes = [0u8; 20];
    bytes[19] = n;
    Address { bytes }
}

fn account(nonce: u64) -> AccountState {
    AccountState { balance: Some([nonce as u8; 32]), nonce: Some(nonce), code: None, storage: vec![] }
}

fn tx(id: u8, gas_price: u128) -> Transaction {
    Transaction { hash: [id; 32], gas_price, encoded: vec![id] }
}

fn receipt(id: u8) -> ExecutionReceipt {
    ExecutionReceipt {
        transaction_hash: [id; 32],
        status: true,
        cumulative_gas_used: 21000 * id as u128,
        gas_used: 21000,
        contract_address: None,
        logs_bloom: [0u8; 256],
        logs: vec![],
    }
}

fn header() -> BlockHeader {
    BlockHeader {
        parent_hash: [1u8; 32],
        beneficiary: addr(9),
        state_root: [2u8; 32],
        transactions_root: [3u8; 32],
        receipts_root: [4u8; 32],
        logs_bloom: [5u8; 256],
        difficulty: [0u8; 32],
        number: 7,
        gas_limit: 30_000_000,
        timestamp: 1_700_000_000,
    }
}

fn diff(pre: Vec<(Address, AccountState)>, post: Vec<(Address, AccountState)>) -> PreStateTrace {
    PreStateTrace::Diff(StateDiff { pre, post })
}

fn nonce_of(m: &AccountMap, a: &Address) -> Option<u64> {
    m.get(a).and_then(|s| s.nonce)
}

fn session() -> Opt8n {
    Opt8n::new(None, "fixture.json".to_string())
}

#[test]
fn test_update_alloc() {
    let mut s = session();
    s.update_alloc(vec![
        diff(vec![(addr(1), account(0))], vec![(addr(1), account(1))]),
        PreStateTrace::Other,
        diff(vec![(addr(1), account(1)), (addr(2), account(5))], vec![(addr(1), account(2))]),
    ]);
    let f = &s.execution_fixture;
    assert_eq!(nonce_of(&f.alloc, &addr(1)), Some(0));
    assert_eq!(nonce_of(&f.alloc, &addr(2)), Some(5));
    assert_eq!(f.alloc.len(), 2);
    assert_eq!(nonce_of(&f.out_alloc, &addr(1)), Some(2));
    assert_eq!(nonce_of(&f.out_alloc, &addr(2)), None);
    assert_eq!(f.out_alloc.len(), 1);
}

#[test]
fn test_dump_execution_fixture() {
    let mut s = session();
    // A (gas price 10) arrives before B (gas price 20).
    s.on_new_block(Some(vec![tx(0xA, 10), tx(0xB, 20)]));
    assert_eq!(s.mining_priorities(), vec![10, 20]);
    // The node puts B first; A has no receipt.
    let block = MinedBlock { header: header(), transactions: vec![tx(0xB, 20), tx(0xA, 10)] };
    s.dump_execution_fixture(
        &block,
        vec![Some(receipt(0xB)), Some(receipt(0xA))],
        vec![diff(vec![(addr(1), account(0))], vec![(addr(1), account(1))]), PreStateTrace::Other],
    );
    let f = &s.execution_fixture;
    let hashes: Vec<[u8; 32]> = f.result.receipts.iter().map(|r| r.transaction_hash).collect();
    assert_eq!(hashes, vec![[0xB; 32], [0xA; 32]]);
    assert_eq!(f.result.state_root, [2u8; 32]);
    assert_eq!(f.result.tx_root, [3u8; 32]);
    assert_eq!(f.result.receipt_root, [4u8; 32]);
    assert_eq!(f.result.logs_hash, [0u8; 32]);
    assert_eq!(f.result.logs_bloom, [5u8; 256]);
    assert_eq!(f.env.current_number, 7);
    assert_eq!(f.env.current_timestamp, 1_700_000_000);
    assert_eq!(f.env.previous_hash, [1u8; 32]);
    assert_eq!(f.env.current_coinbase, addr(9));
    assert_eq!(f.env.current_gas_limit, 30_000_000);
    assert_eq!(nonce_of(&f.alloc, &addr(1)), Some(0));
    assert_eq!(nonce_of(&f.out_alloc, &addr(1)), Some(1));
    // The accumulated transactions keep their arrival order.
    assert_eq!(f.transactions.len(), 2);
    assert_eq!(f.transactions[0].hash, [0xA; 32]);
}

#[test]
fn receipts_skip_missing_and_keep_block_order() {
    let got = collect_receipts(vec![Some(receipt(3)), None, Some(receipt(1)), None]);
    assert_eq!(got.len(), 2);
    assert_eq!(got[0].transaction_hash, [3; 32]);
    assert_eq!(got[1].transaction_hash, [1; 32]);
    assert!(collect_receipts(vec![None, None]).is_empty());
}

#[test]
fn dump_twice_gives_same_roots() {
    let mut s = session();
    s.on_new_block(Some(vec![tx(1, 5)]));
    let block = MinedBlock { header: header(), transactions: vec![tx(1, 5)] };
    s.dump_execution_fixture(&block, vec![Some(receipt(1))], vec![]);
    let first = (s.execution_fixture.result.state_root, s.execution_fixture.result.tx_root);
    s.dump_execution_fixture(&block, vec![Some(receipt(1))], vec![]);
    assert_eq!((s.execution_fixture.result.state_root, s.execution_fixture.result.tx_root), first);
    assert_eq!(s.execution_fixture.result.receipts.len(), 1);
    assert_eq!(s.execution_fixture.transactions.len(), 1);
}

#[test]
fn pre_state_merged_twice_is_unchanged() {
    let mut f = ExecutionFixture::new();
    let d = || diff(vec![(addr(1), account(3)), (addr(2), account(4))], vec![]);
    f.merge_traces(vec![d()]);
    f.merge_traces(vec![diff(vec![(addr(1), account(8))], vec![]), d()]);
    assert_eq!(nonce_of(&f.alloc, &addr(1)), Some(3));
    assert_eq!(nonce_of(&f.alloc, &addr(2)), Some(4));
    assert_eq!(f.alloc.len(), 2);
}

#[test]
fn post_state_latest_wins() {
    let mut f = ExecutionFixture::new();
    f.merge_traces(vec![
        diff(vec![], vec![(addr(1), account(1)), (addr(2), account(2))]),
        diff(vec![], vec![(addr(1), account(6))]),
    ]);
    assert_eq!(nonce_of(&f.out_alloc, &addr(1)), Some(6));
    assert_eq!(nonce_of(&f.out_alloc, &addr(2)), Some(2));
    let order: Vec<Address> = f.out_alloc.entries().iter().map(|e| e.0).collect();
    assert_eq!(order, vec![addr(1), addr(2)]);
}

#[test]
fn exit_first_stops_without_touching_fixture() {
    let mut s = session();
    let c = receive_command("exit");
    assert!(matches!(c, Ok(ReplCommand::Exit)));
    assert!(matches!(s.execute(c), SessionAction::Stop));
    assert!(s.execution_fixture.transactions.is_empty());
    assert_eq!(s.execution_fixture.alloc.len(), 0);
}

#[test]
fn malformed_command_then_dump() {
    let mut s = session();
    let bad = receive_command("dumpp");
    assert!(matches!(bad, Err(CommandError::UnknownCommand)));
    assert!(matches!(s.execute(bad), SessionAction::ReportError(CommandError::UnknownCommand)));
    let good = receive_command("dump");
    assert!(matches!(good, Ok(ReplCommand::Dump)));
    assert!(matches!(s.execute(good), SessionAction::Dump));
}

#[test]
fn commands_accept_prefixes_and_aliases() {
    assert!(matches!(receive_command("du"), Ok(ReplCommand::Dump)));
    assert!(matches!(receive_command("e"), Ok(ReplCommand::Exit)));
    assert!(matches!(receive_command("ex"), Ok(ReplCommand::Exit)));
    match receive_command("c send --value 1") {
        Ok(ReplCommand::Cast { args }) => assert_eq!(args, vec!["send", "--value", "1"]),
        _ => panic!("expected a client command"),
    }
    match receive_command("a --port 8546") {
        Ok(ReplCommand::Anvil { args }) => assert_eq!(args, vec!["--port", "8546"]),
        _ => panic!("expected a node command"),
    }
}

#[test]
fn quoted_words_stay_together() {
    match receive_command("anvil --fork-url 'http://x y' \"a b\"") {
        Ok(ReplCommand::Anvil { args }) => {
            assert_eq!(args, vec!["--fork-url", "http://x y", "a b"])
        }
        _ => panic!("expected a node command"),
    }
}

#[test]
fn command_errors() {
    assert!(matches!(receive_command(""), Err(CommandError::MissingCommand)));
    assert!(matches!(receive_command("   "), Err(CommandError::MissingCommand)));
    assert!(matches!(receive_command("dump now"), Err(CommandError::UnexpectedArgument)));
    assert!(matches!(receive_command("exit 1"), Err(CommandError::UnexpectedArgument)));
    assert!(matches!(receive_command("help"), Err(CommandError::Help)));
    assert!(matches!(receive_command("anvill"), Err(CommandError::UnknownCommand)));
    assert!(matches!(receive_command("Dump"), Err(CommandError::UnknownCommand)));
    assert!(matches!(receive_command("dump 'open"), Err(CommandError::MismatchedQuotes)));
}

#[test]
fn parse_words_directly() {
    assert!(matches!(parse_command(vec![]), Err(CommandError::MissingCommand)));
    assert!(matches!(parse_command(vec!["d".to_string()]), Ok(ReplCommand::Dump)));
    match parse_command(vec!["cast".to_string(), "x y".to_string()]) {
        Ok(ReplCommand::Cast { args }) => assert_eq!(args, vec!["x y"]),
        _ => panic!("expected a client command"),
    }
}

#[test]
fn node_command_names_the_tool_first() {
    let mut s = session();
    let c = receive_command("anvil --port 9000");
    match s.execute(c) {
        SessionAction::RunNode(a) => assert_eq!(a, vec!["anvil", "--port", "9000"]),
        _ => panic!("expected a node run"),
    }
    assert!(matches!(s.execute(receive_command("cast call")), SessionAction::Continue));
}

#[test]
fn new_blocks_accumulate_in_arrival_order() {
    let mut s = session();
    s.on_new_block(Some(vec![tx(1, 3)]));
    s.on_new_block(None);
    s.on_new_block(Some(vec![tx(2, 1), tx(1, 3)]));
    let ids: Vec<u8> = s.execution_fixture.transactions.iter().map(|t| t.hash[0]).collect();
    assert_eq!(ids, vec![1, 2, 1]);
    assert_eq!(s.mining_priorities(), vec![3, 1, 3]);
}

#[test]
fn session_fork_defaults_and_output() {
    let s = session();
    assert!(s.fork.json_rpc_url.is_none());
    assert!(s.fork.block_number.is_none());
    assert_eq!(s.output_file, "fixture.json");
    let f = Forking { json_rpc_url: Some("http://localhost:8545".to_string()), block_number: Some(12) };
    let t = Opt8n::new(Some(f), "out.json".to_string());
    assert_eq!(t.fork.block_number, Some(12));
}

#[test]
fn account_map_insert_and_get() {
    let mut m = AccountMap::new();
    m.insert_if_absent(addr(1), account(1));
    m.insert_if_absent(addr(1), account(2));
    assert_eq!(nonce_of(&m, &addr(1)), Some(1));
    m.insert(addr(1), account(3));
    assert_eq!(nonce_of(&m, &addr(1)), Some(3));
    assert_eq!(m.len(), 1);
    assert!(m.get(&addr(2)).is_none());
    assert!(addr(1) != addr(2));
}
