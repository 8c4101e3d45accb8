use vstd::prelude::*;

use crate::blocks::{BlockLedger, NewBlockInfo};
use crate::coin::{CoinId, InputCoin, OutputCoin, Txid};
use crate::errors::ExchangeError;
use crate::guard::{ExecuteTxGuard, ExecutingSet};
use crate::ledger::{addrs_contain, pools_contain, TxLedger, TxRecord};
use crate::registry::PoolRegistry;
use crate::token_pool::{CanvasToken, TokenMeta, TokenState, MIN_BTC_VALUE};

verus! {

/// The rate applied when an intent carries no parsed rate of its own.
pub const DEFAULT_EXCHANGE_RATE: u64 = 100;

/// How many confirmations place a block beyond reorg reach.
pub const REORG_DEPTH: u32 = 6;

/// A quote for minting tokens against BTC.
#[derive(Clone, Copy, Debug, PartialEq, Eq, Structural)]
pub struct BuyTokenOffer {
    pub nonce: u64,
    pub token_amount: u128,
    pub current_btc_balance: u64,
}

/// A quote for burning tokens back into BTC.
#[derive(Clone, Copy, Debug, PartialEq, Eq, Structural)]
pub struct SellTokenOffer {
    pub nonce: u64,
    pub btc_amount: u64,
    pub current_btc_balance: u64,
}

/// What `init_canvas_token` reports of a freshly created pool.
#[derive(Clone, Debug, PartialEq, Eq)]
pub struct CanvasTokenInfo {
    pub address: String,
    pub symbol: String,
    pub exchange_rate: u64,
    pub token_id: CoinId,
}

/// One row of the transaction-record read model.
#[derive(Clone, Debug, PartialEq, Eq)]
pub struct TxRecordInfo {
    pub txid: String,
    pub confirmed: bool,
    pub records: Vec<String>,
}

/// One row of the block read model.
#[derive(Clone, Debug, PartialEq, Eq)]
pub struct BlockInfo {
    pub height: u32,
    pub hash: String,
}

/// A pool's name and address, for listings.
#[derive(Clone, Debug, PartialEq, Eq)]
pub struct PoolBasic {
    pub name: String,
    pub address: String,
}

/// The published facts of one pool.
#[derive(Clone, Debug, PartialEq, Eq)]
pub struct PoolInfo {
    pub key: Vec<u8>,
    pub name: String,
    pub address: String,
    pub nonce: u64,
    pub btc_reserved: u64,
}

/// The action an intent requests.
#[derive(Clone, Copy, Debug, PartialEq, Eq, Structural)]
pub enum ExchangeAction {
    BuyToken,
    SellToken,
    /// Anything but the two supported actions; rejected at dispatch.
    Unsupported,
}

/// An orchestrator-declared operation against one pool.
#[derive(Clone, Debug)]
pub struct Intention {
    pub action: ExchangeAction,
    pub pool_address: String,
    pub nonce: u64,
    pub input_coins: Vec<InputCoin>,
    pub output_coins: Vec<OutputCoin>,
}

/// The intents of one transaction.
#[derive(Clone, Debug)]
pub struct IntentionSet {
    pub initiator_address: String,
    pub tx_fee_in_sats: u64,
    pub intentions: Vec<Intention>,
}

/// The arguments of `execute_tx`.
#[derive(Clone, Debug)]
pub struct ExecuteTxArgs {
    pub psbt_hex: String,
    pub txid: Txid,
    pub intention_set: IntentionSet,
    pub intention_index: u32,
}

/// Why `execute_tx` failed.
#[derive(Clone, Debug, PartialEq, Eq)]
pub enum ExecuteError {
    /// The PSBT hex did not decode and parse.
    InvalidPsbt,
    /// The intent's action is not a supported method.
    InvalidMethod,
    /// Another execution holds the named pool.
    Executing(String),
    /// Validation rejected the intent.
    Exchange(ExchangeError),
}

/// Why `rollback_tx` failed.
#[derive(Clone, Copy, Debug, PartialEq, Eq, Structural)]
pub enum RollbackError {
    /// The ledger holds no record of the transaction in either tier.
    RecordNotFound,
}

/// The process-wide stores the handlers work on, passed as one handle.
pub struct ExchangeState {
    pub pools: PoolRegistry,
    pub tx_records: TxLedger,
    pub blocks: BlockLedger,
    pub executing: ExecutingSet,
}

impl ExchangeState {
    /// Every store satisfies its own invariant.
    pub open spec fn wf(self) -> bool {
        &&& self.pools.wf()
        &&& self.tx_records.wf()
        &&& self.blocks.wf()
        &&& self.executing.wf()
    }

    /// A fresh, empty exchange.
    pub fn new() -> (r: ExchangeState)
        ensures
            r.wf(),
            r.pools.pools@.len() == 0,
            r.tx_records.entries@.len() == 0,
            r.blocks.blocks@.len() == 0,
            forall|a: Seq<char>| !r.executing.spec_contains(a),
    {
        ExchangeState {
            pools: PoolRegistry::new(),
            tx_records: TxLedger::new(),
            blocks: BlockLedger::new(),
            executing: ExecutingSet::new(),
        }
    }
}

/// The smallest BTC amount an intent may move.
pub fn get_minimal_tx_value() -> (r: u64)
    ensures
        r == MIN_BTC_VALUE,
{
    MIN_BTC_VALUE
}

/// What `pre_buy_token` answers: the quote for paying `btc_amount` satoshis
/// into the pool at `token_address`, or the first failed check.
pub open spec fn spec_pre_buy(
    st: ExchangeState,
    token_address: Seq<char>,
    btc_amount: u64,
) -> Result<BuyTokenOffer, ExchangeError> {
    if btc_amount < MIN_BTC_VALUE {
        Err(ExchangeError::TooSmallFunds)
    } else {
        match st.pools.spec_find(token_address) {
            None => Err(ExchangeError::InvalidToken),
            Some(i) => {
                let pool = st.pools.pools@[i];
                Ok(
                    (BuyTokenOffer {
                        nonce: pool.spec_latest().nonce,
                        token_amount: (btc_amount as u128 * pool.spec_current_rate() as u128)
                            as u128,
                        current_btc_balance: pool.spec_latest().btc_balance,
                    }),
                )
            },
        }
    }
}

/// Quotes a buy: how many tokens `btc_amount` satoshis mint at the rate in
/// effect, with the nonce the intent must carry.
pub fn pre_buy_token(st: &ExchangeState, token_address: String, btc_amount: u64) -> (r: Result<
    BuyTokenOffer,
    ExchangeError,
>)
    ensures
        r == spec_pre_buy(*st, token_address@, btc_amount),
{
    if btc_amount < MIN_BTC_VALUE {
        return Err(ExchangeError::TooSmallFunds);
    }
    proof {
        st.pools.lemma_spec_find(token_address@);
    }
    match st.pools.get(&token_address) {
        None => Err(ExchangeError::InvalidToken),
        Some(token) => {
            let state = token.latest_or_default();
            let token_amount = token.calculate_buy_amount(btc_amount);
            Ok(
                BuyTokenOffer {
                    nonce: state.nonce,
                    token_amount,
                    current_btc_balance: state.btc_balance,
                },
            )
        },
    }
}

/// What `pre_sell_token` answers: the quote for burning `token_amount`
/// tokens of the pool at `token_address`, or the first failed check.
pub open spec fn spec_pre_sell(
    st: ExchangeState,
    token_address: Seq<char>,
    token_amount: u128,
) -> Result<SellTokenOffer, ExchangeError> {
    match st.pools.spec_find(token_address) {
        None => Err(ExchangeError::InvalidToken),
        Some(i) => {
            let pool = st.pools.pools@[i];
            let quotient = token_amount / pool.spec_current_rate() as u128;
            if pool.states@.len() == 0 {
                Err(ExchangeError::EmptyToken)
            } else if quotient > u64::MAX {
                Err(ExchangeError::Overflow)
            } else if quotient < MIN_BTC_VALUE {
                Err(ExchangeError::TooSmallFunds)
            } else if pool.spec_latest().btc_balance < quotient {
                Err(ExchangeError::InsufficientBtc)
            } else {
                Ok(
                    (SellTokenOffer {
                        nonce: pool.spec_latest().nonce,
                        btc_amount: quotient as u64,
                        current_btc_balance: pool.spec_latest().btc_balance,
                    }),
                )
            }
        },
    }
}

/// Quotes a sell: how many satoshis `token_amount` tokens fetch at the rate
/// in effect, requiring the pool to be touched, the amount to clear the
/// minimum, and the reserve to cover it. A quotient beyond 64 bits is
/// rejected as `Overflow` rather than truncated.
pub fn pre_sell_token(st: &ExchangeState, token_address: String, token_amount: u128) -> (r: Result<
    SellTokenOffer,
    ExchangeError,
>)
    requires
        st.wf(),
    ensures
        r == spec_pre_sell(*st, token_address@, token_amount),
{
    proof {
        st.pools.lemma_spec_find(token_address@);
    }
    let token = match st.pools.get(&token_address) {
        None => {
            return Err(ExchangeError::InvalidToken);
        },
        Some(t) => t,
    };
    if token.states.len() == 0 {
        return Err(ExchangeError::EmptyToken);
    }
    let state = token.latest_or_default();
    let rate = token.get_current_exchange_rate();
    let quotient: u128 = token_amount / (rate as u128);
    if quotient > u64::MAX as u128 {
        return Err(ExchangeError::Overflow);
    }
    let btc_amount: u64 = quotient as u64;
    if btc_amount < MIN_BTC_VALUE {
        return Err(ExchangeError::TooSmallFunds);
    }
    if state.btc_balance < btc_amount {
        return Err(ExchangeError::InsufficientBtc);
    }
    Ok(SellTokenOffer { nonce: state.nonce, btc_amount, current_btc_balance: state.btc_balance })
}

/// Lists every pool's name and address, in registration order.
pub fn get_pool_list(st: &ExchangeState) -> (r: Vec<PoolBasic>)
    ensures
        r@.len() == st.pools.pools@.len(),
        forall|i: int|
            0 <= i < r@.len() ==> (#[trigger] r@[i]).name@ == st.pools.pools@[i].meta.symbol@
                && r@[i].address@ == st.pools.pools@[i].addr@,
{
    let n = st.pools.pools.len();
    let mut out: Vec<PoolBasic> = Vec::new();
    let mut i: usize = 0;
    while i < n
        invariant
            n == st.pools.pools@.len(),
            i <= n,
            out@.len() == i,
            forall|j: int|
                0 <= j < i ==> (#[trigger] out@[j]).name@ == st.pools.pools@[j].meta.symbol@
                    && out@[j].address@ == st.pools.pools@[j].addr@,
        decreases n - i,
    {
        let t = &st.pools.pools[i];
        out.push(PoolBasic { name: t.meta.symbol.clone(), address: t.addr.clone() });
        i += 1;
    }
    out
}

/// The published facts of the pool at `pool_address`, if it exists: its key,
/// symbol, address, and the nonce and reserve of its latest state.
pub fn get_pool_info(st: &ExchangeState, pool_address: String) -> (r: Option<PoolInfo>)
    ensures
        match st.pools.spec_find(pool_address@) {
            None => r is None,
            Some(i) => r matches Some(info) && {
                let pool = st.pools.pools@[i];
                &&& info.key@ == pool.pubkey@
                &&& info.name@ == pool.meta.symbol@
                &&& info.address@ == pool.addr@
                &&& info.nonce == pool.spec_latest().nonce
                &&& info.btc_reserved == pool.spec_latest().btc_balance
            },
        },
{
    proof {
        st.pools.lemma_spec_find(pool_address@);
    }
    match st.pools.get(&pool_address) {
        None => None,
        Some(t) => {
            let state = t.latest_or_default();
            Some(
                PoolInfo {
                    key: t.pubkey.clone(),
                    name: t.meta.symbol.clone(),
                    address: t.addr.clone(),
                    nonce: state.nonce,
                    btc_reserved: state.btc_balance,
                },
            )
        },
    }
}

/// The block read model: height and hash of every stored block, lowest first.
pub fn query_blocks(st: &ExchangeState) -> (r: Vec<BlockInfo>)
    ensures
        r@.len() == st.blocks.blocks@.len(),
        forall|i: int|
            0 <= i < r@.len() ==> (#[trigger] r@[i]).height == st.blocks.blocks@[i].block_height
                && r@[i].hash@ == st.blocks.blocks@[i].block_hash@,
{
    let n = st.blocks.blocks.len();
    let mut out: Vec<BlockInfo> = Vec::new();
    let mut i: usize = 0;
    while i < n
        invariant
            n == st.blocks.blocks@.len(),
            i <= n,
            out@.len() == i,
            forall|j: int|
                0 <= j < i ==> (#[trigger] out@[j]).height == st.blocks.blocks@[j].block_height
                    && out@[j].hash@ == st.blocks.blocks@[j].block_hash@,
        decreases n - i,
    {
        let b = &st.blocks.blocks[i];
        out.push(BlockInfo { height: b.block_height, hash: b.block_hash.clone() });
        i += 1;
    }
    out
}

/// `p` is a freshly initialized pool over the given metadata and keys.
pub open spec fn is_fresh_pool(
    p: CanvasToken,
    block: u64,
    tx: u32,
    symbol: Seq<char>,
    exchange_rate: u64,
    pubkey: Seq<u8>,
    tweaked: Seq<u8>,
    addr: Seq<char>,
) -> bool {
    &&& p.states@.len() == 0
    &&& p.meta.id == (CoinId::Rune { block, tx })
    &&& p.meta.symbol@ == symbol
    &&& p.meta.exchange_rate == exchange_rate
    &&& p.meta.min_amount == 1
    &&& p.pubkey@ == pubkey
    &&& p.tweaked@ == tweaked
    &&& p.addr@ == addr
}

/// Creates the pool of the rune etched at `block`/`tx` under `addr`, with the
/// keys the caller derived for it. Fails, changing nothing, when
/// `exchange_rate` is zero. A pool already registered under `addr` is
/// replaced, as a repeated initialization would replace it in the store.
/// Authorization and address derivation stay with the host shell.
pub fn init_canvas_token(
    st: &mut ExchangeState,
    block: u64,
    tx: u32,
    symbol: String,
    exchange_rate: u64,
    pubkey: Vec<u8>,
    tweaked: Vec<u8>,
    addr: String,
) -> (r: Option<CanvasTokenInfo>)
    requires
        old(st).wf(),
    ensures
        final(st).wf(),
        final(st).tx_records == old(st).tx_records,
        final(st).blocks == old(st).blocks,
        final(st).executing == old(st).executing,
        exchange_rate == 0 ==> r is None && final(st).pools == old(st).pools,
        exchange_rate > 0 ==> (r matches Some(info) && info.address@ == addr@ && info.symbol@
            == symbol@ && info.exchange_rate == exchange_rate && info.token_id == (CoinId::Rune {
            block,
            tx,
        })),
        exchange_rate > 0 ==> match old(st).pools.spec_find(addr@) {
            None => {
                &&& final(st).pools.pools@.len() == old(st).pools.pools@.len() + 1
                &&& final(st).pools.pools@.take(old(st).pools.pools@.len() as int) == old(
                    st,
                ).pools.pools@
                &&& is_fresh_pool(
                    final(st).pools.pools@.last(),
                    block,
                    tx,
                    symbol@,
                    exchange_rate,
                    pubkey@,
                    tweaked@,
                    addr@,
                )
            },
            Some(i) => {
                &&& final(st).pools.pools@.len() == old(st).pools.pools@.len()
                &&& (forall|j: int|
                    0 <= j < old(st).pools.pools@.len() && j != i
                        ==> #[trigger] final(st).pools.pools@[j] == old(st).pools.pools@[j])
                &&& is_fresh_pool(
                    final(st).pools.pools@[i],
                    block,
                    tx,
                    symbol@,
                    exchange_rate,
                    pubkey@,
                    tweaked@,
                    addr@,
                )
            },
        },
{
    if exchange_rate == 0 {
        return None;
    }
    let id = CoinId::rune(block, tx);
    let info = CanvasTokenInfo {
        address: addr.clone(),
        symbol: symbol.clone(),
        exchange_rate,
        token_id: id,
    };
    let meta = TokenMeta { id, symbol, exchange_rate, min_amount: 1 };
    let pool = CanvasToken { states: Vec::new(), meta, pubkey, tweaked, addr };
    proof {
        st.pools.lemma_spec_find(pool.addr@);
    }
    let ghost pre = st.pools.pools@;
    match st.pools.find_index(&pool.addr) {
        None => {
            st.pools.pools.push(pool);
            proof {
                let post = st.pools.pools@;
                assert(post.take(pre.len() as int) =~= pre);
                assert forall|p: int, q: int|
                    0 <= p < q < post.len() implies (#[trigger] post[p]).addr@ != (
                #[trigger] post[q]).addr@ by {
                    if q < pre.len() {
                        assert(post[p] == pre[p]);
                        assert(post[q] == pre[q]);
                    } else {
                        assert(post[p] == pre[p]);
                    }
                }
            }
        },
        Some(i) => {
            self_replace_pool(st, i, pool);
            proof {
                let post = st.pools.pools@;
                assert(post == pre.update(i as int, post[i as int]));
            }
        },
    }
    Some(info)
}

/// Replaces the pool at `i` with `pool`, which must carry the same address.
fn self_replace_pool(st: &mut ExchangeState, i: usize, pool: CanvasToken)
    requires
        old(st).pools.wf(),
        i < old(st).pools.pools@.len(),
        pool.wf(),
        pool.addr@ == old(st).pools.pools@[i as int].addr@,
    ensures
        final(st).pools.wf(),
        final(st).pools.pools@ == old(st).pools.pools@.update(i as int, pool),
        final(st).tx_records == old(st).tx_records,
        final(st).blocks == old(st).blocks,
        final(st).executing == old(st).executing,
{
    let ghost pre = st.pools.pools@;
    st.pools.pools.remove(i);
    st.pools.pools.insert(i, pool);
    proof {
        let post = st.pools.pools@;
        assert(post =~= pre.update(i as int, post[i as int]));
        assert forall|p: int, q: int|
            0 <= p < q < post.len() implies (#[trigger] post[p]).addr@ != (
        #[trigger] post[q]).addr@ by {
            assert(pre[p].addr@ != pre[q].addr@);
            if p != i {
                assert(post[p] == pre[p]);
            }
            if q != i {
                assert(post[q] == pre[q]);
            }
        }
    }
}

/// The state chain of `p` after a rollback of `txid`: everything from the
/// state `txid` produced onward is dropped; without such a state the chain
/// stays whole.
pub open spec fn rolled_back_states(p: CanvasToken, txid: Txid) -> Seq<TokenState> {
    match crate::token_pool::first_state_for(p.states@, txid) {
        Some(i) => p.states@.take(i),
        None => p.states@,
    }
}

/// Rolls back every pool the ledger lists for `txid` (in either tier) and
/// drops both ledger rows of `txid`. A pool whose chain holds no state of
/// `txid` is left whole rather than blocking its siblings. Fails, changing
/// nothing, when the ledger has no record of `txid`.
#[verifier::rlimit(60)]
pub fn rollback_tx(st: &mut ExchangeState, txid: Txid) -> (r: Result<(), RollbackError>)
    requires
        old(st).wf(),
    ensures
        final(st).wf(),
        final(st).blocks == old(st).blocks,
        final(st).executing == old(st).executing,
        match old(st).tx_records.spec_get_any(txid) {
            None => {
                &&& r == Err::<(), RollbackError>(RollbackError::RecordNotFound)
                &&& final(st).pools == old(st).pools
                &&& final(st).tx_records == old(st).tx_records
            },
            Some(rec) => {
                &&& r == Ok::<(), RollbackError>(())
                &&& final(st).tx_records.spec_get(txid, false) is None
                &&& final(st).tx_records.spec_get(txid, true) is None
                &&& (forall|t: Txid, c: bool|
                    t != txid ==> #[trigger] final(st).tx_records.spec_get(t, c)
                        == old(st).tx_records.spec_get(t, c))
                &&& final(st).pools.pools@.len() == old(st).pools.pools@.len()
                &&& (forall|j: int|
                    0 <= j < old(st).pools.pools@.len()
                        ==> (#[trigger] final(st).pools.pools@[j]).same_but_states(
                        old(st).pools.pools@[j],
                    ) && final(st).pools.pools@[j].states@ == (if addrs_contain(
                        rec.pools@,
                        old(st).pools.pools@[j].addr@,
                    ) {
                        rolled_back_states(old(st).pools.pools@[j], txid)
                    } else {
                        old(st).pools.pools@[j].states@
                    }))
            },
        },
{
    let pool_addrs: Vec<String> = match st.tx_records.get_any(txid) {
        None => {
            return Err(RollbackError::RecordNotFound);
        },
        Some(rec) => clone_addrs(&rec.pools),
    };
    rollback_pools(&mut st.pools, &pool_addrs, txid);
    st.tx_records.drop_tx(txid);
    Ok(())
}

/// Rolls `txid` back in every pool whose address is listed in `pool_addrs`;
/// a listed pool without a state of `txid`, or a listed address without a
/// pool, is left as it is.
#[verifier::rlimit(100)]
fn rollback_pools(reg: &mut PoolRegistry, pool_addrs: &Vec<String>, txid: Txid)
    requires
        old(reg).wf(),
    ensures
        final(reg).wf(),
        final(reg).pools@.len() == old(reg).pools@.len(),
        forall|j: int|
            0 <= j < old(reg).pools@.len() ==> (#[trigger] final(reg).pools@[j]).same_but_states(
                old(reg).pools@[j],
            ) && final(reg).pools@[j].states@ == (if addrs_contain(
                pool_addrs@,
                old(reg).pools@[j].addr@,
            ) {
                rolled_back_states(old(reg).pools@[j], txid)
            } else {
                old(reg).pools@[j].states@
            }),
{
    let ghost pools0 = reg.pools@;
    let n = reg.pools.len();
    let mut j: usize = 0;
    while j < n
        invariant
            n == pools0.len(),
            j <= n,
            reg.wf(),
            reg.pools@.len() == pools0.len(),
            forall|i: int| j <= i < pools0.len() ==> #[trigger] reg.pools@[i] == pools0[i],
            forall|i: int|
                0 <= i < j ==> (#[trigger] reg.pools@[i]).same_but_states(pools0[i])
                    && reg.pools@[i].states@ == (if addrs_contain(pool_addrs@, pools0[i].addr@) {
                    rolled_back_states(pools0[i], txid)
                } else {
                    pools0[i].states@
                }),
        decreases n - j,
    {
        let touched = pools_contain(pool_addrs, &reg.pools[j].addr);
        if touched {
            let ghost pre = reg.pools@;
            let mut pool = reg.pools.remove(j);
            proof {
                crate::token_pool::lemma_first_state_for(pool.states@, txid);
            }
            let _ = pool.rollback(txid);
            reg.pools.insert(j, pool);
            proof {
                let post = reg.pools@;
                assert(post =~= pre.update(j as int, post[j as int]));
                assert forall|p: int, q: int|
                    0 <= p < q < post.len() implies (#[trigger] post[p]).addr@ != (
                #[trigger] post[q]).addr@ by {
                    if p != j {
                        assert(post[p] == pre[p]);
                    }
                    if q != j {
                        assert(post[q] == pre[q]);
                    }
                }
            }
        }
        j += 1;
    }
}

/// Each address cloned, preserving the sequence.
fn clone_addrs(v: &Vec<String>) -> (r: Vec<String>)
    ensures
        r@ =~= v@,
{
    let n = v.len();
    let mut out: Vec<String> = Vec::new();
    let mut i: usize = 0;
    while i < n
        invariant
            n == v@.len(),
            i <= n,
            out@ =~= v@.take(i as int),
        decreases n - i,
    {
        out.push(v[i].clone());
        proof {
            assert(out@ =~= v@.take(i + 1 as int));
        }
        i += 1;
    }
    out
}

/// The hex string decodes to the bytes of a well-formed PSBT.
pub open spec fn spec_psbt_ok(s: Seq<char>) -> bool {
    crate::psbt::valid_hex(s) && crate::psbt::psbt_wf(crate::psbt::bytes_of_hex(s))
}

/// `post` is `pre` with `s` committed to the pool at `i` and nothing else
/// changed.
pub open spec fn committed_pool_ok(
    pre: Seq<CanvasToken>,
    post: Seq<CanvasToken>,
    i: int,
    s: TokenState,
) -> bool {
    &&& post.len() == pre.len()
    &&& (forall|j: int| 0 <= j < pre.len() && j != i ==> post[j] == pre[j])
    &&& post[i].same_but_states(pre[i])
    &&& post[i].states@ == pre[i].states@.push(s)
}

/// `post` is `pre` with `addr_s` recorded under the unconfirmed row of
/// `txid` and nothing else changed.
pub open spec fn recorded_unconfirmed_ok(
    pre: TxLedger,
    post: TxLedger,
    txid: Txid,
    addr_s: String,
) -> bool {
    &&& (forall|t: Txid, c: bool|
        t != txid || c ==> #[trigger] post.spec_get(t, c) == pre.spec_get(t, c))
    &&& match pre.spec_get(txid, false) {
        None => post.spec_get(txid, false) matches Some(rec) && rec.pools@.len() == 1
            && rec.pools@[0]@ == addr_s@,
        Some(r0) => post.spec_get(txid, false) matches Some(rec) && (if addrs_contain(
            r0.pools@,
            addr_s@,
        ) {
            rec.pools@ == r0.pools@
        } else {
            rec.pools@ == r0.pools@.push(addr_s)
        }),
    }
}

/// What `execute_tx` does to the stores and returns: the PSBT must decode,
/// the pool must be free of a concurrent execution, the action must be
/// supported, and the intent must validate; then the validated state is
/// committed and the transaction recorded as unconfirmed, and the first
/// failure instead leaves every store unchanged.
pub open spec fn spec_execute_post(
    pre: ExchangeState,
    post: ExchangeState,
    args: ExecuteTxArgs,
    now: u64,
    r: Result<String, ExecuteError>,
) -> bool {
    let intent = args.intention_set.intentions@[args.intention_index as int];
    let addr = intent.pool_address@;
    if !spec_psbt_ok(args.psbt_hex@) {
        &&& r == Err::<String, ExecuteError>(ExecuteError::InvalidPsbt)
        &&& post.pools == pre.pools
        &&& post.tx_records == pre.tx_records
    } else if pre.executing.spec_contains(addr) {
        &&& (r matches Err(e) && e matches ExecuteError::Executing(a) && a@ == addr)
        &&& post.pools == pre.pools
        &&& post.tx_records == pre.tx_records
    } else {
        match pre.pools.spec_find(addr) {
            None => true,
            Some(i) => {
                let pool = pre.pools.pools@[i];
                match intent.action {
                    ExchangeAction::Unsupported => {
                        &&& r == Err::<String, ExecuteError>(ExecuteError::InvalidMethod)
                        &&& post.pools == pre.pools
                        &&& post.tx_records == pre.tx_records
                    },
                    ExchangeAction::BuyToken => match pool.spec_validate_buy(
                        args.txid,
                        intent.nonce,
                        intent.input_coins@,
                        intent.output_coins@,
                        DEFAULT_EXCHANGE_RATE,
                        now,
                    ) {
                        Err(e) => {
                            &&& r == Err::<String, ExecuteError>(ExecuteError::Exchange(e))
                            &&& post.pools == pre.pools
                            &&& post.tx_records == pre.tx_records
                        },
                        Ok(sa) => {
                            &&& (r matches Ok(h) && crate::psbt::valid_hex(h@))
                            &&& committed_pool_ok(pre.pools.pools@, post.pools.pools@, i, sa.0)
                            &&& recorded_unconfirmed_ok(
                                pre.tx_records,
                                post.tx_records,
                                args.txid,
                                intent.pool_address,
                            )
                        },
                    },
                    ExchangeAction::SellToken => match pool.spec_validate_sell(
                        args.txid,
                        intent.nonce,
                        intent.input_coins@,
                        intent.output_coins@,
                        DEFAULT_EXCHANGE_RATE,
                        now,
                    ) {
                        Err(e) => {
                            &&& r == Err::<String, ExecuteError>(ExecuteError::Exchange(e))
                            &&& post.pools == pre.pools
                            &&& post.tx_records == pre.tx_records
                        },
                        Ok(sa) => {
                            &&& (r matches Ok(h) && crate::psbt::valid_hex(h@))
                            &&& committed_pool_ok(pre.pools.pools@, post.pools.pools@, i, sa.0)
                            &&& recorded_unconfirmed_ok(
                                pre.tx_records,
                                post.tx_records,
                                args.txid,
                                intent.pool_address,
                            )
                        },
                    },
                }
            },
        }
    }
}

/// After a successful `execute_tx`, the touched pool's newest state carries
/// exactly the nonce of its prior latest state — or of the zero base for an
/// untouched pool — plus one.
pub proof fn lemma_execute_success_increments_nonce(
    pre: ExchangeState,
    post: ExchangeState,
    args: ExecuteTxArgs,
    now: u64,
    h: String,
)
    requires
        args.intention_index < args.intention_set.intentions@.len(),
        spec_execute_post(pre, post, args, now, Ok(h)),
    ensures
        match pre.pools.spec_find(
            args.intention_set.intentions@[args.intention_index as int].pool_address@,
        ) {
            Some(i) => post.pools.pools@[i].spec_latest().nonce == pre.pools.pools@[
                i].spec_latest().nonce + 1,
            None => true,
        },
{
    let intent = args.intention_set.intentions@[args.intention_index as int];
    match pre.pools.spec_find(intent.pool_address@) {
        Some(i) => {
            let pool = pre.pools.pools@[i];
            match intent.action {
                ExchangeAction::BuyToken => {
                    match pool.spec_validate_buy(
                        args.txid,
                        intent.nonce,
                        intent.input_coins@,
                        intent.output_coins@,
                        DEFAULT_EXCHANGE_RATE,
                        now,
                    ) {
                        Ok(sa) => {
                            assert(post.pools.pools@[i].states@.last() == sa.0);
                        },
                        Err(_) => {
                            assert(false);
                        },
                    }
                },
                ExchangeAction::SellToken => {
                    match pool.spec_validate_sell(
                        args.txid,
                        intent.nonce,
                        intent.input_coins@,
                        intent.output_coins@,
                        DEFAULT_EXCHANGE_RATE,
                        now,
                    ) {
                        Ok(sa) => {
                            assert(post.pools.pools@[i].states@.last() == sa.0);
                        },
                        Err(_) => {
                            assert(false);
                        },
                    }
                },
                ExchangeAction::Unsupported => {
                    assert(false);
                },
            }
        },
        None => {},
    }
}

/// Executes one intent of a PSBT-backed transaction against its pool: decode
/// the PSBT, take the pool's execution guard, validate the intent at the
/// default rate, commit the resulting state, record the transaction as
/// unconfirmed, and hand the serialized PSBT back. The guard is released on
/// every path. The caller must have created the pool and must not replay a
/// transaction already in its chain.
#[verifier::rlimit(60)]
pub fn execute_tx(st: &mut ExchangeState, args: ExecuteTxArgs, now: u64) -> (r: Result<
    String,
    ExecuteError,
>)
    requires
        old(st).wf(),
        args.intention_index < args.intention_set.intentions@.len(),
        old(st).pools.spec_find(
            args.intention_set.intentions@[args.intention_index as int].pool_address@,
        ) is Some,
        old(st).pools.spec_find(
            args.intention_set.intentions@[args.intention_index as int].pool_address@,
        ) matches Some(i) ==> !crate::token_pool::has_state_for(
            old(st).pools.pools@[i].states@,
            args.txid,
        ),
    ensures
        final(st).wf(),
        final(st).blocks == old(st).blocks,
        forall|a: Seq<char>|
            final(st).executing.spec_contains(a) == old(st).executing.spec_contains(a),
        spec_execute_post(*old(st), *final(st), args, now, r),
{
    let ExecuteTxArgs { psbt_hex, txid, intention_set, intention_index } = args;
    let raw = match crate::psbt::hex_decode(&psbt_hex) {
        None => {
            return Err(ExecuteError::InvalidPsbt);
        },
        Some(v) => v,
    };
    let psbt = match crate::psbt::psbt_deserialize(&raw) {
        None => {
            return Err(ExecuteError::InvalidPsbt);
        },
        Some(p) => p,
    };
    let intention = &intention_set.intentions[intention_index as usize];
    let pool_address = intention.pool_address.clone();
    let guard = match ExecuteTxGuard::new(&mut st.executing, pool_address.clone()) {
        None => {
            return Err(ExecuteError::Executing(pool_address));
        },
        Some(g) => g,
    };
    proof {
        st.pools.lemma_spec_find(pool_address@);
    }
    let i = match st.pools.find_index(&pool_address) {
        Some(i) => i,
        None => {
            proof {
                assert(false);
            }
            return Err(ExecuteError::InvalidMethod);
        },
    };
    let new_state: TokenState = match intention.action {
        ExchangeAction::BuyToken => {
            match st.pools.pools[i].validate_buy_token(
                txid,
                intention.nonce,
                &intention.input_coins,
                &intention.output_coins,
                DEFAULT_EXCHANGE_RATE,
                now,
            ) {
                Ok(sa) => sa.0,
                Err(e) => {
                    guard.release(&mut st.executing);
                    return Err(ExecuteError::Exchange(e));
                },
            }
        },
        ExchangeAction::SellToken => {
            match st.pools.pools[i].validate_sell_token(
                txid,
                intention.nonce,
                &intention.input_coins,
                &intention.output_coins,
                DEFAULT_EXCHANGE_RATE,
                now,
            ) {
                Ok(sa) => sa.0,
                Err(e) => {
                    guard.release(&mut st.executing);
                    return Err(ExecuteError::Exchange(e));
                },
            }
        },
        ExchangeAction::Unsupported => {
            guard.release(&mut st.executing);
            return Err(ExecuteError::InvalidMethod);
        },
    };
    let ghost pre_pools = st.pools.pools@;
    let mut pool = st.pools.pools.remove(i);
    pool.commit(new_state);
    st.pools.pools.insert(i, pool);
    proof {
        let post = st.pools.pools@;
        assert(post =~= pre_pools.update(i as int, post[i as int]));
        assert forall|j: int| 0 <= j < pre_pools.len() && j != i implies #[trigger] post[j]
            == pre_pools[j] by {}
        assert forall|p: int, q: int|
            0 <= p < q < post.len() implies (#[trigger] post[p]).addr@ != (
        #[trigger] post[q]).addr@ by {
            if p != i {
                assert(post[p] == pre_pools[p]);
            }
            if q != i {
                assert(post[q] == pre_pools[q]);
            }
        }
    }
    st.tx_records.record_unconfirmed(txid, pool_address);
    guard.release(&mut st.executing);
    Ok(crate::psbt::psbt_serialize_hex(&psbt))
}

/// A chain after a finalization of `txid`: the state `txid` produced becomes
/// the base and everything older is dropped; without such a state the chain
/// stays whole.
pub open spec fn finalized_chain(states: Seq<TokenState>, txid: Txid) -> Seq<TokenState> {
    match crate::token_pool::first_state_for(states, txid) {
        Some(i) => states.skip(i),
        None => states,
    }
}

/// The state chain of `p` after a finalization of `txid`.
pub open spec fn finalized_states(p: CanvasToken, txid: Txid) -> Seq<TokenState> {
    finalized_chain(p.states@, txid)
}

/// The height at or below which a block is beyond reorg reach once a block
/// at `height` arrives.
pub open spec fn spec_safe_height(height: u32) -> u32 {
    if height >= REORG_DEPTH {
        (height - REORG_DEPTH) as u32
    } else {
        0
    }
}

/// The leading blocks of `bs` at or below `safe`: with ascending heights,
/// exactly the blocks the finalization sweep visits, lowest first.
pub open spec fn prefix_le(bs: Seq<NewBlockInfo>, safe: u32) -> Seq<NewBlockInfo>
    decreases bs.len(),
{
    if bs.len() == 0 {
        Seq::empty()
    } else if bs[0].block_height <= safe {
        seq![bs[0]] + prefix_le(bs.drop_first(), safe)
    } else {
        Seq::empty()
    }
}

/// The confirmed txids of `bs`, block by block in order.
pub open spec fn txids_of(bs: Seq<NewBlockInfo>) -> Seq<Txid>
    decreases bs.len(),
{
    if bs.len() == 0 {
        Seq::empty()
    } else {
        txids_of(bs.drop_last()) + bs.last().confirmed_txids@
    }
}

/// The confirmed-tier row of `u` once the txids in `listed` are promoted:
/// the unconfirmed row moves over where one exists.
pub open spec fn promoted_confirmed_row(led: TxLedger, listed: Seq<Txid>, u: Txid) -> Option<
    TxRecord,
> {
    if listed.contains(u) && led.spec_get(u, false) is Some {
        led.spec_get(u, false)
    } else {
        led.spec_get(u, true)
    }
}

/// One pool's chain after the sweep finalizes the txids `us` in order: a
/// txid acts only at its first occurrence, only when the promoted ledger
/// holds a confirmed row for it, and only in pools that row lists.
pub open spec fn chain_after_sweep(
    states: Seq<TokenState>,
    us: Seq<Txid>,
    led: TxLedger,
    listed: Seq<Txid>,
    addr: Seq<char>,
) -> Seq<TokenState>
    decreases us.len(),
{
    if us.len() == 0 {
        states
    } else {
        let prev = chain_after_sweep(states, us.drop_last(), led, listed, addr);
        let u = us.last();
        if !us.drop_last().contains(u) && (promoted_confirmed_row(led, listed, u) matches Some(rec)
            && addrs_contain(rec.pools@, addr)) {
            finalized_chain(prev, u)
        } else {
            prev
        }
    }
}

/// Appending one txid extends the containment test by exactly that txid.
pub proof fn lemma_push_contains(s: Seq<Txid>, u: Txid, x: Txid)
    ensures
        s.push(u).contains(x) <==> (s.contains(x) || x == u),
{
    if s.push(u).contains(x) {
        let i = choose|i: int| 0 <= i < s.push(u).len() && s.push(u)[i] == x;
        if i < s.len() {
            assert(s[i] == x);
        }
    }
    if s.contains(x) {
        let i = choose|i: int| 0 <= i < s.len() && s[i] == x;
        assert(s.push(u)[i] == x);
    }
    if x == u {
        assert(s.push(u)[s.len() as int] == x);
    }
}

/// Blocks at or below the safe height, standing whole at the front, are
/// exactly what the sweep visits when the remainder starts above it.
pub proof fn lemma_prefix_le_concat(d: Seq<NewBlockInfo>, rest: Seq<NewBlockInfo>, safe: u32)
    requires
        forall|i: int| 0 <= i < d.len() ==> (#[trigger] d[i]).block_height <= safe,
        rest.len() == 0 || rest[0].block_height > safe,
    ensures
        prefix_le(d + rest, safe) == d,
    decreases d.len(),
{
    if d.len() == 0 {
        assert(d + rest =~= rest);
        assert(prefix_le(rest, safe) =~= d);
    } else {
        assert((d + rest)[0] == d[0]);
        assert((d + rest).drop_first() =~= d.drop_first() + rest);
        lemma_prefix_le_concat(d.drop_first(), rest, safe);
        assert(prefix_le(d + rest, safe) =~= d);
    }
}

/// `s2` is a suffix of `s1`.
pub open spec fn is_suffix_of(s2: Seq<TokenState>, s1: Seq<TokenState>) -> bool {
    exists|k: int| 0 <= k <= s1.len() && s2 == #[trigger] s1.skip(k)
}

/// Being a suffix is reflexive and carries over one more `skip`.
pub proof fn lemma_suffix_step(s1: Seq<TokenState>, s2: Seq<TokenState>, k: int)
    requires
        is_suffix_of(s2, s1),
        0 <= k <= s2.len(),
    ensures
        is_suffix_of(s2.skip(k), s1),
        is_suffix_of(s1, s1),
{
    let k1 = choose|k1: int| 0 <= k1 <= s1.len() && s2 == #[trigger] s1.skip(k1);
    assert(s2.skip(k) =~= s1.skip(k1 + k));
    assert(s1 =~= s1.skip(0));
}

/// Finalizes `txid` in every pool whose address is listed in `pool_addrs`;
/// a listed pool without a state of `txid`, or a listed address without a
/// pool, is left as it is.
#[verifier::rlimit(60)]
fn finalize_pools(reg: &mut PoolRegistry, pool_addrs: &Vec<String>, txid: Txid)
    requires
        old(reg).wf(),
    ensures
        final(reg).wf(),
        final(reg).pools@.len() == old(reg).pools@.len(),
        forall|j: int|
            0 <= j < old(reg).pools@.len() ==> (#[trigger] final(reg).pools@[j]).same_but_states(
                old(reg).pools@[j],
            ) && final(reg).pools@[j].states@ == (if addrs_contain(
                pool_addrs@,
                old(reg).pools@[j].addr@,
            ) {
                finalized_states(old(reg).pools@[j], txid)
            } else {
                old(reg).pools@[j].states@
            }),
        forall|j: int|
            0 <= j < old(reg).pools@.len() ==> is_suffix_of(
                (#[trigger] final(reg).pools@[j]).states@,
                old(reg).pools@[j].states@,
            ),
{
    let ghost pools0 = reg.pools@;
    let n = reg.pools.len();
    let mut j: usize = 0;
    while j < n
        invariant
            n == pools0.len(),
            j <= n,
            reg.wf(),
            reg.pools@.len() == pools0.len(),
            forall|i: int| j <= i < pools0.len() ==> #[trigger] reg.pools@[i] == pools0[i],
            forall|i: int|
                0 <= i < j ==> (#[trigger] reg.pools@[i]).same_but_states(pools0[i])
                    && reg.pools@[i].states@ == (if addrs_contain(pool_addrs@, pools0[i].addr@) {
                    finalized_states(pools0[i], txid)
                } else {
                    pools0[i].states@
                }),
        decreases n - j,
    {
        let touched = pools_contain(pool_addrs, &reg.pools[j].addr);
        if touched {
            let ghost pre = reg.pools@;
            let mut pool = reg.pools.remove(j);
            proof {
                crate::token_pool::lemma_first_state_for(pool.states@, txid);
            }
            let _ = pool.finalize(txid);
            reg.pools.insert(j, pool);
            proof {
                let post = reg.pools@;
                assert(post =~= pre.update(j as int, post[j as int]));
                assert forall|p: int, q: int|
                    0 <= p < q < post.len() implies (#[trigger] post[p]).addr@ != (
                #[trigger] post[q]).addr@ by {
                    if p != j {
                        assert(post[p] == pre[p]);
                    }
                    if q != j {
                        assert(post[q] == pre[q]);
                    }
                }
            }
        }
        j += 1;
    }
    proof {
        assert forall|i: int| 0 <= i < pools0.len() implies is_suffix_of(
            (#[trigger] reg.pools@[i]).states@,
            pools0[i].states@,
        ) by {
            assert(pools0[i].states@ =~= pools0[i].states@.skip(0));
            crate::token_pool::lemma_first_state_for(pools0[i].states@, txid);
        }
    }
}

/// Each txid copied, preserving the sequence.
fn clone_txids(v: &Vec<Txid>) -> (r: Vec<Txid>)
    ensures
        r@ =~= v@,
{
    let n = v.len();
    let mut out: Vec<Txid> = Vec::new();
    let mut i: usize = 0;
    while i < n
        invariant
            n == v@.len(),
            i <= n,
            out@ =~= v@.take(i as int),
        decreases n - i,
    {
        out.push(v[i]);
        proof {
            assert(out@ =~= v@.take((i + 1) as int));
        }
        i += 1;
    }
    out
}

/// Ingests one block report: stores the block, promotes the transactions it
/// confirms, then — for every stored block at or below the safe height, in
/// ascending order — finalizes each transaction it confirmed in every pool
/// the ledger lists for it, drops those ledger rows, and prunes the block.
/// The contract pins each store: the block map, both ledger tiers pointwise,
/// and every pool's chain as the sweep fold over the swept txids.
#[verifier::rlimit(100)]
pub fn new_block(st: &mut ExchangeState, block: NewBlockInfo)
    requires
        old(st).wf(),
    ensures
        final(st).wf(),
        final(st).executing == old(st).executing,
        ({
            let safe = spec_safe_height(block.block_height);
            forall|h: u32|
                #[trigger] final(st).blocks.spec_get(h) == (if h <= safe {
                    Option::<NewBlockInfo>::None
                } else if h == block.block_height {
                    Some(block)
                } else {
                    old(st).blocks.spec_get(h)
                })
        }),
        ({
            let safe = spec_safe_height(block.block_height);
            let listed = block.confirmed_txids@;
            let swept = txids_of(
                prefix_le(crate::blocks::binsert(old(st).blocks.blocks@, block), safe),
            );
            &&& (forall|t: Txid|
                #[trigger] final(st).tx_records.spec_get(t, false) == (if listed.contains(t) {
                    Option::<TxRecord>::None
                } else {
                    old(st).tx_records.spec_get(t, false)
                }))
            &&& (forall|t: Txid|
                #[trigger] final(st).tx_records.spec_get(t, true) == (if swept.contains(t) {
                    Option::<TxRecord>::None
                } else {
                    promoted_confirmed_row(old(st).tx_records, listed, t)
                }))
            &&& final(st).pools.pools@.len() == old(st).pools.pools@.len()
            &&& (forall|j: int|
                0 <= j < old(st).pools.pools@.len() ==> {
                    &&& (#[trigger] final(st).pools.pools@[j]).same_but_states(
                        old(st).pools.pools@[j],
                    )
                    &&& final(st).pools.pools@[j].states@ == chain_after_sweep(
                        old(st).pools.pools@[j].states@,
                        swept,
                        old(st).tx_records,
                        listed,
                        old(st).pools.pools@[j].addr@,
                    )
                    &&& is_suffix_of(
                        final(st).pools.pools@[j].states@,
                        old(st).pools.pools@[j].states@,
                    )
                })
        }),
{
    let height = block.block_height;
    let ghost led0 = st.tx_records;
    let ghost pools0 = st.pools.pools@;
    let ghost listed = block.confirmed_txids@;
    let txids = clone_txids(&block.confirmed_txids);
    st.blocks.insert(block);
    let ghost blocks1 = st.blocks;
    let m = txids.len();
    let mut k: usize = 0;
    while k < m
        invariant
            m == txids@.len(),
            txids@ == listed,
            k <= m,
            st.tx_records.wf(),
            st.pools == old(st).pools,
            st.executing == old(st).executing,
            st.blocks == blocks1,
            forall|t: Txid|
                #[trigger] st.tx_records.spec_get(t, false) == (if listed.take(
                    k as int,
                ).contains(t) {
                    Option::<TxRecord>::None
                } else {
                    led0.spec_get(t, false)
                }),
            forall|t: Txid|
                #[trigger] st.tx_records.spec_get(t, true) == promoted_confirmed_row(
                    led0,
                    listed.take(k as int),
                    t,
                ),
        decreases m - k,
    {
        let u = txids[k];
        let ghost pre_led = st.tx_records;
        st.tx_records.promote(u);
        proof {
            assert(listed.take((k + 1) as int) =~= listed.take(k as int).push(listed[k as int]));
            assert forall|t: Txid|
                #[trigger] st.tx_records.spec_get(t, false) == (if listed.take(
                    (k + 1) as int,
                ).contains(t) {
                    Option::<TxRecord>::None
                } else {
                    led0.spec_get(t, false)
                }) by {
                lemma_push_contains(listed.take(k as int), u, t);
                if t != u {
                    assert(st.tx_records.spec_get(t, false) == pre_led.spec_get(t, false));
                }
            }
            assert forall|t: Txid|
                #[trigger] st.tx_records.spec_get(t, true) == promoted_confirmed_row(
                    led0,
                    listed.take((k + 1) as int),
                    t,
                ) by {
                lemma_push_contains(listed.take(k as int), u, t);
                if t != u {
                    assert(st.tx_records.spec_get(t, true) == pre_led.spec_get(t, true));
                }
            }
        }
        k += 1;
    }
    proof {
        assert(listed.take(m as int) =~= listed);
    }
    let safe: u32 = if height >= REORG_DEPTH {
        height - REORG_DEPTH
    } else {
        0
    };
    let ghost mut done: Seq<NewBlockInfo> = Seq::empty();
    proof {
        assert(blocks1.blocks@ =~= done + st.blocks.blocks@);
        assert forall|j: int| 0 <= j < pools0.len() implies {
            &&& #[trigger] st.pools.pools@[j].states@ == chain_after_sweep(
                pools0[j].states@,
                txids_of(done),
                led0,
                listed,
                pools0[j].addr@,
            )
            &&& is_suffix_of(st.pools.pools@[j].states@, pools0[j].states@)
        } by {
            assert(pools0[j].states@ =~= pools0[j].states@.skip(0));
        }
    }
    while st.blocks.blocks.len() > 0 && st.blocks.blocks[0].block_height <= safe
        invariant
            st.executing == old(st).executing,
            st.blocks.wf(),
            st.tx_records.wf(),
            st.pools.wf(),
            blocks1.blocks@ == done + st.blocks.blocks@,
            forall|i: int| 0 <= i < done.len() ==> (#[trigger] done[i]).block_height <= safe,
            forall|h: u32| h > safe ==> #[trigger] st.blocks.spec_get(h) == blocks1.spec_get(h),
            forall|t: Txid|
                #[trigger] st.tx_records.spec_get(t, false) == (if listed.contains(t) {
                    Option::<TxRecord>::None
                } else {
                    led0.spec_get(t, false)
                }),
            forall|t: Txid|
                #[trigger] st.tx_records.spec_get(t, true) == (if txids_of(done).contains(t) {
                    Option::<TxRecord>::None
                } else {
                    promoted_confirmed_row(led0, listed, t)
                }),
            st.pools.pools@.len() == pools0.len(),
            forall|j: int|
                0 <= j < pools0.len() ==> {
                    &&& (#[trigger] st.pools.pools@[j]).same_but_states(pools0[j])
                    &&& st.pools.pools@[j].states@ == chain_after_sweep(
                        pools0[j].states@,
                        txids_of(done),
                        led0,
                        listed,
                        pools0[j].addr@,
                    )
                    &&& is_suffix_of(st.pools.pools@[j].states@, pools0[j].states@)
                },
        decreases st.blocks.blocks@.len(),
    {
        let ghost bpre = st.blocks.blocks@;
        let ghost stb_pre = st.blocks;
        let blk = st.blocks.blocks.remove(0);
        proof {
            crate::blocks::lemma_bget_remove(bpre, 0);
            assert(st.blocks.blocks@ == bpre.remove(0));
            assert forall|h: u32| h > safe implies #[trigger] st.blocks.spec_get(h)
                == blocks1.spec_get(h) by {
                assert(h != bpre[0].block_height);
                assert(crate::blocks::bget(bpre.remove(0), h) == crate::blocks::bget(bpre, h));
                assert(stb_pre.spec_get(h) == blocks1.spec_get(h));
            }
            assert(blocks1.blocks@ =~= done.push(blk) + st.blocks.blocks@);
        }
        let ghost done_prev = done;
        let ghost processed0 = txids_of(done);
        let bn = blk.confirmed_txids.len();
        let ghost binner = st.blocks;
        let mut t: usize = 0;
        while t < bn
            invariant
                bn == blk.confirmed_txids@.len(),
                t <= bn,
                st.blocks == binner,
                st.executing == old(st).executing,
                st.tx_records.wf(),
                st.pools.wf(),
                forall|t2: Txid|
                    #[trigger] st.tx_records.spec_get(t2, false) == (if listed.contains(t2) {
                        Option::<TxRecord>::None
                    } else {
                        led0.spec_get(t2, false)
                    }),
                forall|t2: Txid|
                    #[trigger] st.tx_records.spec_get(t2, true) == (if (processed0
                        + blk.confirmed_txids@.take(t as int)).contains(t2) {
                        Option::<TxRecord>::None
                    } else {
                        promoted_confirmed_row(led0, listed, t2)
                    }),
                st.pools.pools@.len() == pools0.len(),
                forall|j: int|
                    0 <= j < pools0.len() ==> {
                        &&& (#[trigger] st.pools.pools@[j]).same_but_states(pools0[j])
                        &&& st.pools.pools@[j].states@ == chain_after_sweep(
                            pools0[j].states@,
                            processed0 + blk.confirmed_txids@.take(t as int),
                            led0,
                            listed,
                            pools0[j].addr@,
                        )
                        &&& is_suffix_of(st.pools.pools@[j].states@, pools0[j].states@)
                    },
            decreases bn - t,
        {
            let u = blk.confirmed_txids[t];
            let ghost processed = processed0 + blk.confirmed_txids@.take(t as int);
            proof {
                assert(processed0 + blk.confirmed_txids@.take((t + 1) as int) =~= processed.push(
                    u,
                ));
            }
            let addrs_opt: Option<Vec<String>> = match st.tx_records.get(u, true) {
                Some(rec) => Some(clone_addrs(&rec.pools)),
                None => None,
            };
            match addrs_opt {
                Some(addrs) => {
                    let ghost pmid = st.pools.pools@;
                    let ghost led_mid = st.tx_records;
                    finalize_pools(&mut st.pools, &addrs, u);
                    st.tx_records.remove_row(u, true);
                    proof {
                        assert(!processed.contains(u) && promoted_confirmed_row(led0, listed, u)
                            == led_mid.spec_get(u, true));
                        let rec = promoted_confirmed_row(led0, listed, u)->0;
                        assert(addrs@ == rec.pools@);
                        assert forall|t2: Txid|
                            #[trigger] st.tx_records.spec_get(t2, true) == (if processed.push(
                                u,
                            ).contains(t2) {
                                Option::<TxRecord>::None
                            } else {
                                promoted_confirmed_row(led0, listed, t2)
                            }) by {
                            lemma_push_contains(processed, u, t2);
                            if t2 != u {
                                assert(st.tx_records.spec_get(t2, true) == led_mid.spec_get(
                                    t2,
                                    true,
                                ));
                            }
                        }
                        assert forall|j: int| 0 <= j < pools0.len() implies {
                            &&& (#[trigger] st.pools.pools@[j]).same_but_states(pools0[j])
                            &&& st.pools.pools@[j].states@ == chain_after_sweep(
                                pools0[j].states@,
                                processed.push(u),
                                led0,
                                listed,
                                pools0[j].addr@,
                            )
                            &&& is_suffix_of(st.pools.pools@[j].states@, pools0[j].states@)
                        } by {
                            assert(processed.push(u).drop_last() =~= processed);
                            assert(pmid[j].addr@ == pools0[j].addr@);
                            if addrs_contain(rec.pools@, pools0[j].addr@) {
                                assert(st.pools.pools@[j].states@ == finalized_chain(
                                    pmid[j].states@,
                                    u,
                                ));
                            } else {
                                assert(st.pools.pools@[j].states@ == pmid[j].states@);
                            }
                            lemma_suffix_step(pools0[j].states@, pmid[j].states@, 0);
                            let k2 = choose|k2: int|
                                0 <= k2 <= pmid[j].states@.len() && st.pools.pools@[j].states@
                                    == #[trigger] pmid[j].states@.skip(k2);
                            let k1 = choose|k1: int|
                                0 <= k1 <= pools0[j].states@.len() && pmid[j].states@
                                    == #[trigger] pools0[j].states@.skip(k1);
                            assert(st.pools.pools@[j].states@ =~= pools0[j].states@.skip(k1 + k2));
                        }
                    }
                },
                None => {
                    proof {
                        assert forall|j: int| 0 <= j < pools0.len() implies (
                        #[trigger] st.pools.pools@[j]).states@ == chain_after_sweep(
                            pools0[j].states@,
                            processed.push(u),
                            led0,
                            listed,
                            pools0[j].addr@,
                        ) by {
                            assert(processed.push(u).drop_last() =~= processed);
                        }
                        assert forall|t2: Txid|
                            #[trigger] st.tx_records.spec_get(t2, true) == (if processed.push(
                                u,
                            ).contains(t2) {
                                Option::<TxRecord>::None
                            } else {
                                promoted_confirmed_row(led0, listed, t2)
                            }) by {
                            lemma_push_contains(processed, u, t2);
                        }
                    }
                },
            }
            t += 1;
        }
        proof {
            assert(blk.confirmed_txids@.take(bn as int) =~= blk.confirmed_txids@);
            done = done_prev.push(blk);
            assert(done.drop_last() =~= done_prev);
            assert(done.last() == blk);
            assert(txids_of(done) == txids_of(done_prev) + blk.confirmed_txids@);
            assert(blk.block_height <= safe);
        }
    }
    proof {
        let swept_blocks = prefix_le(blocks1.blocks@, safe);
        lemma_prefix_le_concat(done, st.blocks.blocks@, safe);
        assert(swept_blocks == done);
        assert forall|h: u32| #[trigger] st.blocks.spec_get(h) == (if h <= safe {
            Option::<NewBlockInfo>::None
        } else if h == height {
            Some(block)
        } else {
            old(st).blocks.spec_get(h)
        }) by {
            if h <= safe {
                crate::blocks::lemma_bfind(st.blocks.blocks@, h);
                match crate::blocks::bfind(st.blocks.blocks@, h) {
                    Some(i) => {
                        if i > 0 {
                            assert(st.blocks.blocks@[0].block_height
                                < st.blocks.blocks@[i].block_height);
                        }
                        assert(false);
                    },
                    None => {},
                }
            }
        }
    }
}

/// How many blocks and transaction records are stored.
pub fn blocks_tx_records_count(st: &ExchangeState) -> (r: (u64, u64))
    ensures
        r.0 == st.blocks.blocks@.len(),
        r.1 == st.tx_records.entries@.len(),
{
    (st.blocks.blocks.len() as u64, st.tx_records.entries.len() as u64)
}

} // verus!
