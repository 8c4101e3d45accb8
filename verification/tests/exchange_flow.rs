use canvas_exchange::coin::{Coin, CoinId, InputCoin, OutputCoin, Txid};
use canvas_exchange::errors::{ExchangeError, PsbtArgsIssue};
use canvas_exchange::exchange::{
    blocks_tx_records_count, execute_tx, get_minimal_tx_value, get_pool_info, get_pool_list,
    init_canvas_token, new_block, pre_buy_token, pre_sell_token, query_blocks, rollback_tx,
    ExchangeAction, ExchangeState, ExecuteError, ExecuteTxArgs, Intention, IntentionSet,
    RollbackError,
};
use canvas_exchange::guard::{ExecuteTxGuard, ExecutingSet};
use canvas_exchange::blocks::NewBlockInfo;
use ree_types::bitcoin::{absolute::LockTime, transaction::Version, Psbt, Transaction};

fn txid(n: u64) -> Txid {
    Txid { w0: n, w1: 0, w2: 0, w3: 0 }
}

fn valid_psbt_hex() -> String {
    let tx = Transaction {
        version: Version::TWO,
        lock_time: LockTime::ZERO,
        input: vec![],
        output: vec![],
    };
    Psbt::from_unsigned_tx(tx).unwrap().serialize_hex()
}

const POOL_ADDR: &str = "bc1qcanvaspool";

fn setup_pool(st: &mut ExchangeState) -> String {
    let info = init_canvas_token(
        st,
        840000,
        7,
        "CANV".to_string(),
        100,
        vec![1, 2, 3],
        vec![4, 5, 6],
        POOL_ADDR.to_string(),
    )
    .expect("pool should be created");
    assert_eq!(info.address, POOL_ADDR);
    assert_eq!(info.exchange_rate, 100);
    assert!(matches!(info.token_id, CoinId::Rune { block: 840000, tx: 7 }));
    POOL_ADDR.to_string()
}

fn buy_args(addr: &str, id: Txid, nonce: u64, btc_in: u128, token_out: u128) -> ExecuteTxArgs {
    ExecuteTxArgs {
        psbt_hex: valid_psbt_hex(),
        txid: id,
        intention_set: IntentionSet {
            initiator_address: "bc1quser".to_string(),
            tx_fee_in_sats: 0,
            intentions: vec![Intention {
                action: ExchangeAction::BuyToken,
                pool_address: addr.to_string(),
                nonce,
                input_coins: vec![InputCoin { coin: Coin { id: CoinId::Btc, value: btc_in } }],
                output_coins: vec![OutputCoin {
                    coin: Coin { id: CoinId::Rune { block: 840000, tx: 7 }, value: token_out },
                }],
            }],
        },
        intention_index: 0,
    }
}

fn sell_args(addr: &str, id: Txid, nonce: u64, token_in: u128, btc_out: u128) -> ExecuteTxArgs {
    ExecuteTxArgs {
        psbt_hex: valid_psbt_hex(),
        txid: id,
        intention_set: IntentionSet {
            initiator_address: "bc1quser".to_string(),
            tx_fee_in_sats: 0,
            intentions: vec![Intention {
                action: ExchangeAction::SellToken,
                pool_address: addr.to_string(),
                nonce,
                input_coins: vec![InputCoin {
                    coin: Coin { id: CoinId::Rune { block: 840000, tx: 7 }, value: token_in },
                }],
                output_coins: vec![OutputCoin { coin: Coin { id: CoinId::Btc, value: btc_out } }],
            }],
        },
        intention_index: 0,
    }
}

fn empty_block(height: u32) -> NewBlockInfo {
    NewBlockInfo {
        block_height: height,
        block_hash: format!("hash-{height}"),
        block_timestamp: 1000 + height as u64,
        confirmed_txids: vec![],
    }
}

#[test]
fn init_and_first_buy() {
    let mut st = ExchangeState::new();
    let addr = setup_pool(&mut st);

    let offer = pre_buy_token(&st, addr.clone(), 10_000).unwrap();
    assert_eq!(offer.nonce, 0);
    assert_eq!(offer.token_amount, 1_000_000);
    assert_eq!(offer.current_btc_balance, 0);

    let r = execute_tx(&mut st, buy_args(&addr, txid(1), 0, 10_000, 1_000_000), 42);
    assert!(r.is_ok());

    let info = get_pool_info(&st, addr.clone()).unwrap();
    assert_eq!(info.nonce, 1);
    assert_eq!(info.btc_reserved, 10_000);
    let pool = &st.pools.pools[0];
    assert_eq!(pool.states.len(), 1);
    assert_eq!(pool.states[0].exchange_rate, Some(100));
    assert_eq!(pool.states[0].id, Some(txid(1)));
    assert_eq!(pool.states[0].timestamp, 42);
}

#[test]
fn nonce_replay_is_rejected() {
    let mut st = ExchangeState::new();
    let addr = setup_pool(&mut st);
    execute_tx(&mut st, buy_args(&addr, txid(1), 0, 10_000, 1_000_000), 42).unwrap();

    let r = execute_tx(&mut st, buy_args(&addr, txid(2), 0, 10_000, 1_000_000), 43);
    assert_eq!(r, Err(ExecuteError::Exchange(ExchangeError::TokenStateExpired(1))));
    assert_eq!(st.pools.pools[0].states.len(), 1);
}

#[test]
fn amount_mismatch_is_rejected() {
    let mut st = ExchangeState::new();
    let addr = setup_pool(&mut st);
    let r = execute_tx(&mut st, buy_args(&addr, txid(1), 0, 10_000, 999_999), 42);
    assert_eq!(
        r,
        Err(ExecuteError::Exchange(ExchangeError::InvalidSignPsbtArgs(
            PsbtArgsIssue::AmountMismatch
        )))
    );
    assert!(st.pools.pools[0].states.is_empty());
}

#[test]
fn sell_drains_the_pool() {
    let mut st = ExchangeState::new();
    let addr = setup_pool(&mut st);
    execute_tx(&mut st, buy_args(&addr, txid(1), 0, 10_000, 1_000_000), 42).unwrap();

    let offer = pre_sell_token(&st, addr.clone(), 1_000_000).unwrap();
    assert_eq!(offer.nonce, 1);
    assert_eq!(offer.btc_amount, 10_000);
    assert_eq!(offer.current_btc_balance, 10_000);

    let r = execute_tx(&mut st, sell_args(&addr, txid(2), 1, 1_000_000, 10_000), 43);
    assert!(r.is_ok());
    let pool = &st.pools.pools[0];
    assert_eq!(pool.states.len(), 2);
    assert_eq!(pool.states[1].btc_balance, 0);
    assert_eq!(pool.states[1].nonce, 2);
}

#[test]
fn buy_never_decreases_and_sell_never_increases_balance() {
    let mut st = ExchangeState::new();
    let addr = setup_pool(&mut st);
    execute_tx(&mut st, buy_args(&addr, txid(1), 0, 10_000, 1_000_000), 1).unwrap();
    let after_buy = st.pools.pools[0].states.last().unwrap().btc_balance;
    assert!(after_buy >= 0 && after_buy == 10_000);
    execute_tx(&mut st, buy_args(&addr, txid(2), 1, 20_000, 2_000_000), 2).unwrap();
    let after_buy2 = st.pools.pools[0].states.last().unwrap().btc_balance;
    assert!(after_buy2 >= after_buy);
    execute_tx(&mut st, sell_args(&addr, txid(3), 2, 1_000_000, 10_000), 3).unwrap();
    let after_sell = st.pools.pools[0].states.last().unwrap().btc_balance;
    assert!(after_sell <= after_buy2);
    assert_eq!(after_sell, after_buy2 - 10_000);
}

#[test]
fn reorg_rollback_allows_replay() {
    let mut st = ExchangeState::new();
    let addr = setup_pool(&mut st);
    execute_tx(&mut st, buy_args(&addr, txid(1), 0, 10_000, 1_000_000), 42).unwrap();

    rollback_tx(&mut st, txid(1)).unwrap();
    assert!(st.pools.pools[0].states.is_empty());

    let r = execute_tx(&mut st, buy_args(&addr, txid(1), 0, 10_000, 1_000_000), 50);
    assert!(r.is_ok());
    assert_eq!(st.pools.pools[0].states.len(), 1);
}

#[test]
fn rollback_of_unknown_txid_fails() {
    let mut st = ExchangeState::new();
    setup_pool(&mut st);
    assert_eq!(rollback_tx(&mut st, txid(9)), Err(RollbackError::RecordNotFound));
}

#[test]
fn finalization_window() {
    let mut st = ExchangeState::new();
    let addr = setup_pool(&mut st);
    execute_tx(&mut st, buy_args(&addr, txid(1), 0, 10_000, 1_000_000), 42).unwrap();

    for h in 1..=6 {
        new_block(&mut st, empty_block(h));
    }
    let mut b7 = empty_block(7);
    b7.confirmed_txids = vec![txid(1)];
    new_block(&mut st, b7);

    // Not yet beyond reorg depth: the record is still there, now confirmed.
    let (_blocks, recs) = blocks_tx_records_count(&st);
    assert_eq!(recs, 1);

    new_block(&mut st, empty_block(13));

    let pool = &st.pools.pools[0];
    assert_eq!(pool.states[0].id, Some(txid(1)));
    let (nblocks, nrecs) = blocks_tx_records_count(&st);
    assert_eq!(nrecs, 0);
    assert_eq!(nblocks, 1);
    let blocks = query_blocks(&st);
    assert_eq!(blocks.len(), 1);
    assert_eq!(blocks[0].height, 13);
}

#[test]
fn finalize_then_rollback_clears_history() {
    let mut st = ExchangeState::new();
    let addr = setup_pool(&mut st);
    execute_tx(&mut st, buy_args(&addr, txid(1), 0, 10_000, 1_000_000), 1).unwrap();
    execute_tx(&mut st, buy_args(&addr, txid(2), 1, 10_000, 1_000_000), 2).unwrap();

    // Finalize txid 2 directly on the pool: it becomes the base state.
    let pool = &mut st.pools.pools[0];
    pool.finalize(txid(2)).unwrap();
    assert_eq!(pool.states.len(), 1);
    assert_eq!(pool.states[0].id, Some(txid(2)));

    // Rolling the finalized transaction back clears the whole chain.
    pool.rollback(txid(2)).unwrap();
    assert!(pool.states.is_empty());

    // And a second rollback of the same transaction reports the violation.
    assert!(matches!(
        st.pools.pools[0].rollback(txid(2)),
        Err(ExchangeError::InvalidState(_))
    ));
}

#[test]
fn concurrent_execution_is_rejected() {
    let mut st = ExchangeState::new();
    let addr = setup_pool(&mut st);

    let held = ExecuteTxGuard::new(&mut st.executing, addr.clone()).unwrap();
    let r = execute_tx(&mut st, buy_args(&addr, txid(1), 0, 10_000, 1_000_000), 42);
    assert_eq!(r, Err(ExecuteError::Executing(addr.clone())));
    assert!(st.pools.pools[0].states.is_empty());

    held.release(&mut st.executing);
    let r2 = execute_tx(&mut st, buy_args(&addr, txid(1), 0, 10_000, 1_000_000), 42);
    assert!(r2.is_ok());
}

#[test]
fn guard_excludes_same_pool_only() {
    let mut set = ExecutingSet::new();
    let g1 = ExecuteTxGuard::new(&mut set, "a".to_string());
    assert!(g1.is_some());
    assert!(ExecuteTxGuard::new(&mut set, "a".to_string()).is_none());
    let g2 = ExecuteTxGuard::new(&mut set, "b".to_string());
    assert!(g2.is_some());
    g1.unwrap().release(&mut set);
    assert!(ExecuteTxGuard::new(&mut set, "a".to_string()).is_some());
}

#[test]
fn error_variants_from_quotes() {
    let mut st = ExchangeState::new();
    let addr = setup_pool(&mut st);

    assert_eq!(pre_buy_token(&st, addr.clone(), 9_999), Err(ExchangeError::TooSmallFunds));
    assert_eq!(
        pre_buy_token(&st, "bc1qunknown".to_string(), 10_000),
        Err(ExchangeError::InvalidToken)
    );
    assert_eq!(pre_sell_token(&st, addr.clone(), 1_000_000), Err(ExchangeError::EmptyToken));

    execute_tx(&mut st, buy_args(&addr, txid(1), 0, 10_000, 1_000_000), 1).unwrap();
    assert_eq!(pre_sell_token(&st, addr.clone(), 2_000_000), Err(ExchangeError::InsufficientBtc));
    assert_eq!(pre_sell_token(&st, addr.clone(), 100), Err(ExchangeError::TooSmallFunds));
    let huge = (u64::MAX as u128 + 1) * 100;
    assert_eq!(pre_sell_token(&st, addr.clone(), huge), Err(ExchangeError::Overflow));
}

#[test]
fn buy_overflow_is_rejected() {
    let mut st = ExchangeState::new();
    let addr = setup_pool(&mut st);
    let r = execute_tx(&mut st, buy_args(&addr, txid(1), 0, u128::MAX, 1), 1);
    assert_eq!(r, Err(ExecuteError::Exchange(ExchangeError::Overflow)));
    assert!(st.pools.pools[0].states.is_empty());
}

#[test]
fn wrong_coin_kinds_are_rejected() {
    let mut st = ExchangeState::new();
    let addr = setup_pool(&mut st);
    let mut args = buy_args(&addr, txid(1), 0, 10_000, 1_000_000);
    args.intention_set.intentions[0].input_coins[0].coin.id = CoinId::Rune { block: 1, tx: 1 };
    let r = execute_tx(&mut st, args, 1);
    assert_eq!(
        r,
        Err(ExecuteError::Exchange(ExchangeError::InvalidSignPsbtArgs(
            PsbtArgsIssue::InputCoinKind
        )))
    );

    let mut args2 = buy_args(&addr, txid(1), 0, 10_000, 1_000_000);
    args2.intention_set.intentions[0].output_coins[0].coin.id = CoinId::Btc;
    let r2 = execute_tx(&mut st, args2, 1);
    assert_eq!(
        r2,
        Err(ExecuteError::Exchange(ExchangeError::InvalidSignPsbtArgs(
            PsbtArgsIssue::OutputCoinKind
        )))
    );

    let mut args3 = buy_args(&addr, txid(1), 0, 10_000, 1_000_000);
    args3.intention_set.intentions[0].input_coins.clear();
    let r3 = execute_tx(&mut st, args3, 1);
    assert_eq!(
        r3,
        Err(ExecuteError::Exchange(ExchangeError::InvalidSignPsbtArgs(PsbtArgsIssue::CoinShape)))
    );
}

#[test]
fn invalid_psbt_and_method() {
    let mut st = ExchangeState::new();
    let addr = setup_pool(&mut st);

    let mut args = buy_args(&addr, txid(1), 0, 10_000, 1_000_000);
    args.psbt_hex = "zz".to_string();
    assert_eq!(execute_tx(&mut st, args, 1), Err(ExecuteError::InvalidPsbt));

    let mut args2 = buy_args(&addr, txid(1), 0, 10_000, 1_000_000);
    args2.psbt_hex = "00ff".to_string();
    assert_eq!(execute_tx(&mut st, args2, 1), Err(ExecuteError::InvalidPsbt));

    let mut args3 = buy_args(&addr, txid(1), 0, 10_000, 1_000_000);
    args3.intention_set.intentions[0].action = ExchangeAction::Unsupported;
    assert_eq!(execute_tx(&mut st, args3, 1), Err(ExecuteError::InvalidMethod));
    assert!(st.pools.pools[0].states.is_empty());
}

#[test]
fn execute_returns_psbt_hex() {
    let mut st = ExchangeState::new();
    let addr = setup_pool(&mut st);
    let hex = execute_tx(&mut st, buy_args(&addr, txid(1), 0, 10_000, 1_000_000), 1).unwrap();
    // The returned string must itself be a decodable PSBT.
    let raw = hex::decode(&hex).unwrap();
    assert!(ree_types::bitcoin::Psbt::deserialize(&raw).is_ok());
}

#[test]
fn zero_rate_pool_is_refused() {
    let mut st = ExchangeState::new();
    let r = init_canvas_token(
        &mut st,
        1,
        1,
        "BAD".to_string(),
        0,
        vec![],
        vec![],
        "bc1qbad".to_string(),
    );
    assert!(r.is_none());
    assert!(st.pools.pools.is_empty());
}

#[test]
fn listings_and_constants() {
    let mut st = ExchangeState::new();
    let addr = setup_pool(&mut st);
    assert_eq!(get_minimal_tx_value(), 10_000);
    let list = get_pool_list(&st);
    assert_eq!(list.len(), 1);
    assert_eq!(list[0].name, "CANV");
    assert_eq!(list[0].address, addr);
    let info = get_pool_info(&st, addr).unwrap();
    assert_eq!(info.name, "CANV");
    assert_eq!(info.key, vec![1, 2, 3]);
    assert_eq!(info.nonce, 0);
    assert_eq!(info.btc_reserved, 0);
    assert!(get_pool_info(&st, "bc1qnone".to_string()).is_none());
}

#[test]
fn promotion_moves_and_preserves_records() {
    let mut st = ExchangeState::new();
    let addr = setup_pool(&mut st);
    execute_tx(&mut st, buy_args(&addr, txid(1), 0, 10_000, 1_000_000), 1).unwrap();
    assert!(st.tx_records.get(txid(1), false).is_some());

    // A block confirming nothing, and one confirming an unknown txid, leave
    // the unconfirmed record alone.
    new_block(&mut st, empty_block(1));
    let mut b2 = empty_block(2);
    b2.confirmed_txids = vec![txid(9)];
    new_block(&mut st, b2);
    assert!(st.tx_records.get(txid(1), false).is_some());
    assert!(st.tx_records.get(txid(9), false).is_none());
    assert!(st.tx_records.get(txid(9), true).is_none());

    // A block confirming the transaction moves its record to the confirmed
    // tier with the same pools.
    let mut b3 = empty_block(3);
    b3.confirmed_txids = vec![txid(1)];
    new_block(&mut st, b3);
    assert!(st.tx_records.get(txid(1), false).is_none());
    let rec = st.tx_records.get(txid(1), true).unwrap();
    assert_eq!(rec.pools, vec![addr]);
}
