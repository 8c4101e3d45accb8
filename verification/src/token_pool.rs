use vstd::prelude::*;
use vstd::string::StringExecFns;

use crate::coin::{Coin, CoinId, InputCoin, OutputCoin, Txid};
use crate::errors::{ExchangeError, PsbtArgsIssue, StateIssue};
use crate::search::{find_first, lemma_find_first};

verus! {

/// The smallest BTC amount (in satoshis) an exchange intent may move.
pub const MIN_BTC_VALUE: u64 = 10000;

/// Immutable metadata of a pool's token.
#[derive(Clone, Debug, PartialEq, Eq)]
pub struct TokenMeta {
    pub id: CoinId,
    pub symbol: String,
    pub exchange_rate: u64,
    pub min_amount: u128,
}

impl TokenMeta {
    /// Metadata describing native BTC itself.
    pub fn btc() -> (r: TokenMeta)
        ensures
            r.id == CoinId::Btc,
            r.symbol@ == "BTC"@,
            r.exchange_rate == 1,
            r.min_amount == 546,
    {
        TokenMeta {
            id: CoinId::btc(),
            symbol: String::from_str("BTC"),
            exchange_rate: 1,
            min_amount: 546,
        }
    }
}

/// One versioned snapshot of a pool: balance and nonce after the transaction
/// `id` was applied, together with the rate in effect at that transaction.
#[derive(Clone, Copy, Debug, PartialEq, Eq)]
pub struct TokenState {
    pub id: Option<Txid>,
    pub nonce: u64,
    pub btc_balance: u64,
    pub exchange_rate: Option<u64>,
    pub timestamp: u64,
}

impl TokenState {
    /// The all-empty base state of an untouched pool.
    pub open spec fn spec_default() -> TokenState {
        TokenState { id: None, nonce: 0, btc_balance: 0, exchange_rate: None, timestamp: 0 }
    }
}

impl Default for TokenState {
    fn default() -> (r: TokenState)
        ensures
            r == TokenState::spec_default(),
    {
        TokenState { id: None, nonce: 0, btc_balance: 0, exchange_rate: None, timestamp: 0 }
    }
}

/// The decimal digit character of `d`.
pub open spec fn digit_char(d: int) -> char {
    if d == 0 {
        '0'
    } else if d == 1 {
        '1'
    } else if d == 2 {
        '2'
    } else if d == 3 {
        '3'
    } else if d == 4 {
        '4'
    } else if d == 5 {
        '5'
    } else if d == 6 {
        '6'
    } else if d == 7 {
        '7'
    } else if d == 8 {
        '8'
    } else {
        '9'
    }
}

/// The decimal rendering of `n`, most significant digit first.
pub open spec fn dec_digits(n: int) -> Seq<char>
    decreases n,
{
    if n < 10 {
        seq![digit_char(n)]
    } else {
        dec_digits(n / 10).push(digit_char(n % 10))
    }
}

/// The rendering of a coin id: block and transaction index, separated by a
/// colon; native BTC renders as the zero pair.
pub open spec fn coin_id_text(id: CoinId) -> Seq<char> {
    match id {
        CoinId::Btc => dec_digits(0) + seq![':'] + dec_digits(0),
        CoinId::Rune { block, tx } => dec_digits(block as int) + seq![':'] + dec_digits(tx as int),
    }
}

/// The one-character string of the decimal digit `d`.
fn digit_str(d: u64) -> (r: &'static str)
    requires
        d < 10,
    ensures
        r@ == seq![digit_char(d as int)],
{
    let s = match d {
        0 => "0",
        1 => "1",
        2 => "2",
        3 => "3",
        4 => "4",
        5 => "5",
        6 => "6",
        7 => "7",
        8 => "8",
        _ => "9",
    };
    proof {
        reveal_strlit("0");
        reveal_strlit("1");
        reveal_strlit("2");
        reveal_strlit("3");
        reveal_strlit("4");
        reveal_strlit("5");
        reveal_strlit("6");
        reveal_strlit("7");
        reveal_strlit("8");
        reveal_strlit("9");
    }
    s
}

/// Renders `n` in decimal.
pub fn u64_to_decimal(n: u64) -> (r: String)
    ensures
        r@ == dec_digits(n as int),
    decreases n,
{
    if n < 10 {
        String::from_str(digit_str(n))
    } else {
        let mut s = u64_to_decimal(n / 10);
        s.append(digit_str(n % 10));
        proof {
            assert(s@ =~= dec_digits(n as int));
        }
        s
    }
}

/// Renders a coin id as its block and transaction index.
fn coin_id_string(id: CoinId) -> (r: String)
    ensures
        r@ == coin_id_text(id),
{
    let (block, tx) = match id {
        CoinId::Btc => (0u64, 0u32),
        CoinId::Rune { block, tx } => (block, tx),
    };
    let mut s = u64_to_decimal(block);
    s.append(":");
    let t = u64_to_decimal(tx as u64);
    s.append(t.as_str());
    proof {
        reveal_strlit(":");
        assert(s@ =~= coin_id_text(id));
    }
    s
}

/// The nonces of consecutive states grow by exactly one.
pub open spec fn nonce_chain_ok(states: Seq<TokenState>) -> bool {
    forall|i: int|
        1 <= i < states.len() ==> (#[trigger] states[i]).nonce == states[i - 1].nonce + 1
}

/// No two states were produced by the same transaction.
pub open spec fn txids_unique(states: Seq<TokenState>) -> bool {
    forall|i: int, j: int|
        0 <= i < j < states.len() && (#[trigger] states[i]).id is Some ==> states[i].id
            != (#[trigger] states[j]).id
}

/// Every rate recorded in a state is positive.
pub open spec fn rates_positive(states: Seq<TokenState>) -> bool {
    forall|i: int|
        0 <= i < states.len() ==> ((#[trigger] states[i]).exchange_rate matches Some(r) ==> r > 0)
}

/// The predicate picking states produced by `txid`.
pub open spec fn made_by(txid: Txid) -> spec_fn(TokenState) -> bool {
    |s: TokenState| s.id == Some(txid)
}

/// The index of the first state produced by `txid`, if any.
pub open spec fn first_state_for(states: Seq<TokenState>, txid: Txid) -> Option<int> {
    find_first(states, made_by(txid))
}

/// Some state of `states` was produced by `txid`.
pub open spec fn has_state_for(states: Seq<TokenState>, txid: Txid) -> bool {
    exists|i: int| 0 <= i < states.len() && (#[trigger] states[i]).id == Some(txid)
}

/// `first_state_for` finds the first state produced by `txid`: the index it
/// returns matches and is preceded only by non-matches, and it returns `None`
/// exactly when `has_state_for` is false.
pub proof fn lemma_first_state_for(states: Seq<TokenState>, txid: Txid)
    ensures
        match first_state_for(states, txid) {
            None => !has_state_for(states, txid),
            Some(i) => 0 <= i < states.len() && states[i].id == Some(txid) && (forall|j: int|
                0 <= j < i ==> (#[trigger] states[j]).id != Some(txid)),
        },
{
    lemma_find_first(states, made_by(txid));
    assert forall|j: int| 0 <= j < states.len() implies (made_by(txid)(#[trigger] states[j]) == (
    states[j].id == Some(txid))) by {}
}

/// Once the states from the first one produced by `txid` onward are dropped,
/// no state produced by `txid` remains: a second rollback of the same
/// transaction finds nothing.
pub proof fn lemma_rollback_removes_txid(states: Seq<TokenState>, txid: Txid)
    ensures
        match first_state_for(states, txid) {
            Some(i) => first_state_for(states.take(i), txid) is None,
            None => true,
        },
{
    lemma_first_state_for(states, txid);
    match first_state_for(states, txid) {
        Some(i) => {
            let t = states.take(i);
            lemma_first_state_for(t, txid);
            match first_state_for(t, txid) {
                Some(m) => {
                    assert(t[m] == states[m]);
                    assert(false);
                },
                None => {},
            }
        },
        None => {},
    }
}

/// After a finalization of `txid` the state it produced stands at index
/// zero, so a rollback of the same transaction on the finalized chain finds
/// it there and clears the whole chain: the asymmetry between the two
/// operations is by design.
pub proof fn lemma_finalize_then_rollback(states: Seq<TokenState>, txid: Txid)
    ensures
        match first_state_for(states, txid) {
            Some(i) => states.skip(i)[0].id == Some(txid) && first_state_for(
                states.skip(i),
                txid,
            ) == Some(0int) && states.skip(i).take(0) =~= Seq::<TokenState>::empty(),
            None => true,
        },
{
    lemma_first_state_for(states, txid);
    match first_state_for(states, txid) {
        Some(i) => {
            let t = states.skip(i);
            assert(t[0] == states[i]);
            lemma_first_state_for(t, txid);
            match first_state_for(t, txid) {
                Some(m) => {
                    if m > 0 {
                        assert(t[0].id != Some(txid));
                        assert(false);
                    }
                },
                None => {
                    assert(t[0].id == Some(txid));
                    assert(false);
                },
            }
        },
        None => {},
    }
}

/// A buy whose BTC input times the rate does not fit in 128 bits is rejected
/// as `Overflow`, before any state could change: with one BTC input, one
/// output of the pool's token and a fresh nonce, such an input must already
/// exceed the 64-bit bound that the balance arithmetic lives in.
pub proof fn lemma_buy_overflow_rejected(
    pool: CanvasToken,
    txid: Txid,
    nonce: u64,
    input_coins: Seq<InputCoin>,
    output_coins: Seq<OutputCoin>,
    exchange_rate: u64,
    now: u64,
)
    requires
        input_coins.len() == 1,
        output_coins.len() == 1,
        input_coins[0].coin.id == CoinId::Btc,
        output_coins[0].coin.id == pool.meta.id,
        pool.spec_latest().nonce == nonce,
        input_coins[0].coin.value * exchange_rate > u128::MAX,
    ensures
        pool.spec_validate_buy(txid, nonce, input_coins, output_coins, exchange_rate, now) == Err::<
            (TokenState, u128),
            ExchangeError,
        >(ExchangeError::Overflow),
{
    assert(input_coins[0].coin.value > u64::MAX as u128) by (nonlinear_arith)
        requires
            input_coins[0].coin.value * exchange_rate > u128::MAX,
            0 <= input_coins[0].coin.value,
            0 <= exchange_rate <= u64::MAX,
            u128::MAX == (u64::MAX as u128) * (u64::MAX as u128) + 2 * (u64::MAX as u128),
    ;
}

/// A successful buy never decreases the pool's BTC balance.
pub proof fn lemma_buy_never_decreases_balance(
    pool: CanvasToken,
    txid: Txid,
    nonce: u64,
    input_coins: Seq<InputCoin>,
    output_coins: Seq<OutputCoin>,
    exchange_rate: u64,
    now: u64,
)
    ensures
        match pool.spec_validate_buy(txid, nonce, input_coins, output_coins, exchange_rate, now) {
            Ok(sa) => sa.0.btc_balance >= pool.spec_latest().btc_balance,
            Err(_) => true,
        },
{
}

/// A successful sell never increases the pool's BTC balance; it is only
/// accepted when the prior balance covers the BTC paid out, and the new
/// balance is exactly the prior balance minus that amount.
pub proof fn lemma_sell_only_decreases_balance(
    pool: CanvasToken,
    txid: Txid,
    nonce: u64,
    input_coins: Seq<InputCoin>,
    output_coins: Seq<OutputCoin>,
    exchange_rate: u64,
    now: u64,
)
    ensures
        match pool.spec_validate_sell(txid, nonce, input_coins, output_coins, exchange_rate, now) {
            Ok(sa) => pool.spec_latest().btc_balance >= sa.1 && sa.0.btc_balance == pool.spec_latest().btc_balance
                - sa.1 && sa.0.btc_balance <= pool.spec_latest().btc_balance,
            Err(_) => true,
        },
{
}

/// A prefix of a chain with consecutive nonces, unique txids and positive
/// rates has those properties too.
pub proof fn lemma_chain_take(s: Seq<TokenState>, n: int)
    requires
        0 <= n <= s.len(),
        nonce_chain_ok(s),
        txids_unique(s),
        rates_positive(s),
    ensures
        nonce_chain_ok(s.take(n)),
        txids_unique(s.take(n)),
        rates_positive(s.take(n)),
{
    let t = s.take(n);
    assert(forall|i: int| 0 <= i < n ==> #[trigger] t[i] == s[i]);
}

/// A suffix of a chain with consecutive nonces, unique txids and positive
/// rates has those properties too.
pub proof fn lemma_chain_skip(s: Seq<TokenState>, n: int)
    requires
        0 <= n <= s.len(),
        nonce_chain_ok(s),
        txids_unique(s),
        rates_positive(s),
    ensures
        nonce_chain_ok(s.skip(n)),
        txids_unique(s.skip(n)),
        rates_positive(s.skip(n)),
{
    let t = s.skip(n);
    assert(forall|i: int| 0 <= i < t.len() ==> #[trigger] t[i] == s[i + n]);
    assert forall|i: int| 1 <= i < t.len() implies (#[trigger] t[i]).nonce == t[i - 1].nonce
        + 1 by {
        assert(t[i] == s[i + n]);
        assert(t[i - 1] == s[i + n - 1]);
    }
    assert forall|i: int, j: int|
        0 <= i < j < t.len() && (#[trigger] t[i]).id is Some implies t[i].id != (
    #[trigger] t[j]).id by {
        assert(t[i] == s[i + n]);
        assert(t[j] == s[j + n]);
    }
}

/// An exchange pool: immutable metadata, its Schnorr keys and address, and the
/// append-only chain of per-transaction states (oldest first).
#[derive(Clone, Debug)]
pub struct CanvasToken {
    pub states: Vec<TokenState>,
    pub meta: TokenMeta,
    pub pubkey: Vec<u8>,
    pub tweaked: Vec<u8>,
    pub addr: String,
}

impl CanvasToken {
    /// The pool's structural invariant: consecutive nonces, unique
    /// originating txids, and positive exchange rates.
    pub open spec fn wf(self) -> bool {
        &&& nonce_chain_ok(self.states@)
        &&& txids_unique(self.states@)
        &&& rates_positive(self.states@)
        &&& self.meta.exchange_rate > 0
    }

    /// The latest state, or the all-empty base state for an untouched pool.
    pub open spec fn spec_latest(self) -> TokenState {
        if self.states@.len() == 0 {
            TokenState::spec_default()
        } else {
            self.states@.last()
        }
    }

    /// The rate in effect: the latest state's rate, falling back to the
    /// metadata's rate.
    pub open spec fn spec_current_rate(self) -> u64 {
        if self.states@.len() == 0 {
            self.meta.exchange_rate
        } else {
            match self.states@.last().exchange_rate {
                Some(r) => r,
                None => self.meta.exchange_rate,
            }
        }
    }

    /// All fields but the state chain are those of `other`.
    pub open spec fn same_but_states(self, other: CanvasToken) -> bool {
        &&& self.meta == other.meta
        &&& self.pubkey@ == other.pubkey@
        &&& self.tweaked@ == other.tweaked@
        &&& self.addr@ == other.addr@
    }

    /// The id of the pool's token.
    pub fn token_id(&self) -> (r: CoinId)
        ensures
            r == self.meta.id,
    {
        self.meta.id
    }

    /// The pool's published attribute string: its exchange rate.
    pub fn attrs(&self) -> (r: String)
        ensures
            r@ == "exchange_rate:"@ + dec_digits(self.meta.exchange_rate as int),
    {
        let mut s = String::from_str("exchange_rate:");
        let d = u64_to_decimal(self.meta.exchange_rate);
        s.append(d.as_str());
        s
    }

    /// The key-derivation path unique to this pool's token: the UTF-8 bytes
    /// of the token id's rendering, as a single path component.
    pub fn derivation_path(&self) -> (r: Vec<Vec<u8>>)
        ensures
            r@.len() == 1,
            r@[0]@ == vstd::utf8::encode_utf8(coin_id_text(self.meta.id)),
    {
        let text = coin_id_string(self.meta.id);
        let bytes = vstd::slice::slice_to_vec(text.as_str().as_bytes());
        let mut out: Vec<Vec<u8>> = Vec::new();
        out.push(bytes);
        out
    }

    /// The latest state, or the default base state if the pool is untouched.
    pub fn latest_or_default(&self) -> (r: TokenState)
        ensures
            r == self.spec_latest(),
    {
        if self.states.len() == 0 {
            TokenState::default()
        } else {
            self.states[self.states.len() - 1]
        }
    }

    /// The rate in effect for the next transaction.
    pub fn get_current_exchange_rate(&self) -> (r: u64)
        ensures
            r == self.spec_current_rate(),
    {
        if self.states.len() == 0 {
            self.meta.exchange_rate
        } else {
            match self.states[self.states.len() - 1].exchange_rate {
                Some(rate) => rate,
                None => self.meta.exchange_rate,
            }
        }
    }

    /// Tokens minted when `btc_amount` satoshis are paid in at `exchange_rate`.
    pub fn calculate_buy_amount_with_rate(&self, btc_amount: u64, exchange_rate: u64) -> (r: u128)
        ensures
            r == btc_amount as u128 * exchange_rate as u128,
    {
        proof {
            assert((btc_amount as int) * (exchange_rate as int) <= (u64::MAX as int) * (
            u64::MAX as int)) by (nonlinear_arith)
                requires
                    btc_amount as int <= u64::MAX as int,
                    exchange_rate as int <= u64::MAX as int,
                    0 <= btc_amount as int,
                    0 <= exchange_rate as int,
            ;
        }
        (btc_amount as u128) * (exchange_rate as u128)
    }

    /// Satoshis paid out when `token_amount` tokens are burned at
    /// `exchange_rate`; the quotient is truncated to 64 bits.
    pub fn calculate_sell_amount_with_rate(&self, token_amount: u128, exchange_rate: u64) -> (r:
        u64)
        requires
            exchange_rate > 0,
        ensures
            r == (token_amount / exchange_rate as u128) as u64,
    {
        (token_amount / (exchange_rate as u128)) as u64
    }

    /// Tokens minted for `btc_amount` satoshis at the rate in effect.
    pub fn calculate_buy_amount(&self, btc_amount: u64) -> (r: u128)
        ensures
            r == btc_amount as u128 * self.spec_current_rate() as u128,
    {
        let rate = self.get_current_exchange_rate();
        self.calculate_buy_amount_with_rate(btc_amount, rate)
    }

    /// Satoshis paid out for `token_amount` tokens at the rate in effect.
    pub fn calculate_sell_amount(&self, token_amount: u128) -> (r: u64)
        requires
            self.wf(),
        ensures
            r == (token_amount / self.spec_current_rate() as u128) as u64,
    {
        let rate = self.get_current_exchange_rate();
        self.calculate_sell_amount_with_rate(token_amount, rate)
    }

    /// What validating a buy intent yields: the first failed check decides
    /// the error, and on success the state the buy would commit together with
    /// the token amount to mint.
    pub open spec fn spec_validate_buy(
        self,
        txid: Txid,
        nonce: u64,
        input_coins: Seq<InputCoin>,
        output_coins: Seq<OutputCoin>,
        exchange_rate: u64,
        now: u64,
    ) -> Result<(TokenState, u128), ExchangeError> {
        let base = self.spec_latest();
        if !(input_coins.len() == 1 && output_coins.len() == 1) {
            Err(ExchangeError::InvalidSignPsbtArgs(PsbtArgsIssue::CoinShape))
        } else if input_coins[0].coin.id != CoinId::Btc {
            Err(ExchangeError::InvalidSignPsbtArgs(PsbtArgsIssue::InputCoinKind))
        } else if output_coins[0].coin.id != self.meta.id {
            Err(ExchangeError::InvalidSignPsbtArgs(PsbtArgsIssue::OutputCoinKind))
        } else if base.nonce != nonce {
            Err(ExchangeError::TokenStateExpired(base.nonce))
        } else if input_coins[0].coin.value > u64::MAX as u128 {
            Err(ExchangeError::Overflow)
        } else if input_coins[0].coin.value < MIN_BTC_VALUE as u128 {
            Err(ExchangeError::TooSmallFunds)
        } else if output_coins[0].coin.value != input_coins[0].coin.value * exchange_rate as u128 {
            Err(ExchangeError::InvalidSignPsbtArgs(PsbtArgsIssue::AmountMismatch))
        } else if base.btc_balance + input_coins[0].coin.value > u64::MAX {
            Err(ExchangeError::Overflow)
        } else if base.nonce == u64::MAX {
            Err(ExchangeError::Overflow)
        } else {
            Ok(
                (
                    TokenState {
                        id: Some(txid),
                        nonce: (base.nonce + 1) as u64,
                        btc_balance: (base.btc_balance + input_coins[0].coin.value) as u64,
                        exchange_rate: Some(exchange_rate),
                        timestamp: now,
                    },
                    (input_coins[0].coin.value * exchange_rate as u128) as u128,
                ),
            )
        }
    }

    /// What validating a sell intent yields, with the same error precedence
    /// as the buy path but directions reversed.
    pub open spec fn spec_validate_sell(
        self,
        txid: Txid,
        nonce: u64,
        input_coins: Seq<InputCoin>,
        output_coins: Seq<OutputCoin>,
        exchange_rate: u64,
        now: u64,
    ) -> Result<(TokenState, u64), ExchangeError> {
        let base = self.spec_latest();
        let expected = input_coins[0].coin.value / exchange_rate as u128;
        if !(input_coins.len() == 1 && output_coins.len() == 1) {
            Err(ExchangeError::InvalidSignPsbtArgs(PsbtArgsIssue::CoinShape))
        } else if input_coins[0].coin.id != self.meta.id {
            Err(ExchangeError::InvalidSignPsbtArgs(PsbtArgsIssue::InputCoinKind))
        } else if output_coins[0].coin.id != CoinId::Btc {
            Err(ExchangeError::InvalidSignPsbtArgs(PsbtArgsIssue::OutputCoinKind))
        } else if self.states@.len() == 0 {
            Err(ExchangeError::EmptyToken)
        } else if base.nonce != nonce {
            Err(ExchangeError::TokenStateExpired(base.nonce))
        } else if expected > u64::MAX {
            Err(ExchangeError::Overflow)
        } else if expected < MIN_BTC_VALUE {
            Err(ExchangeError::TooSmallFunds)
        } else if output_coins[0].coin.value > u64::MAX as u128 {
            Err(ExchangeError::Overflow)
        } else if output_coins[0].coin.value != expected {
            Err(ExchangeError::InvalidSignPsbtArgs(PsbtArgsIssue::AmountMismatch))
        } else if base.btc_balance < expected {
            Err(ExchangeError::InsufficientBtc)
        } else if base.nonce == u64::MAX {
            Err(ExchangeError::Overflow)
        } else {
            Ok(
                (
                    TokenState {
                        id: Some(txid),
                        nonce: (base.nonce + 1) as u64,
                        btc_balance: (base.btc_balance - expected) as u64,
                        exchange_rate: Some(exchange_rate),
                        timestamp: now,
                    },
                    expected as u64,
                ),
            )
        }
    }

    /// Validates a buy intent (BTC in, token out) against the pool and, on
    /// success, returns the state the buy commits and the minted amount.
    /// A nonce at the 64-bit limit is rejected as `Overflow` rather than
    /// wrapping.
    pub fn validate_buy_token(
        &self,
        txid: Txid,
        nonce: u64,
        input_coins: &Vec<InputCoin>,
        output_coins: &Vec<OutputCoin>,
        exchange_rate: u64,
        now: u64,
    ) -> (r: Result<(TokenState, u128), ExchangeError>)
        ensures
            r == self.spec_validate_buy(
                txid,
                nonce,
                input_coins@,
                output_coins@,
                exchange_rate,
                now,
            ),
    {
        if !(input_coins.len() == 1 && output_coins.len() == 1) {
            return Err(ExchangeError::InvalidSignPsbtArgs(PsbtArgsIssue::CoinShape));
        }
        let btc_input: Coin = input_coins[0].coin;
        let token_output: Coin = output_coins[0].coin;
        if btc_input.id != CoinId::btc() {
            return Err(ExchangeError::InvalidSignPsbtArgs(PsbtArgsIssue::InputCoinKind));
        }
        if token_output.id != self.meta.id {
            return Err(ExchangeError::InvalidSignPsbtArgs(PsbtArgsIssue::OutputCoinKind));
        }
        let base = self.latest_or_default();
        if base.nonce != nonce {
            return Err(ExchangeError::TokenStateExpired(base.nonce));
        }
        if btc_input.value > u64::MAX as u128 {
            return Err(ExchangeError::Overflow);
        }
        let btc_amount: u64 = btc_input.value as u64;
        if btc_amount < MIN_BTC_VALUE {
            return Err(ExchangeError::TooSmallFunds);
        }
        let expected_token_amount = self.calculate_buy_amount_with_rate(btc_amount, exchange_rate);
        if token_output.value != expected_token_amount {
            return Err(ExchangeError::InvalidSignPsbtArgs(PsbtArgsIssue::AmountMismatch));
        }
        if base.btc_balance > u64::MAX - btc_amount {
            return Err(ExchangeError::Overflow);
        }
        if base.nonce == u64::MAX {
            return Err(ExchangeError::Overflow);
        }
        Ok(
            (
                TokenState {
                    id: Some(txid),
                    nonce: base.nonce + 1,
                    btc_balance: base.btc_balance + btc_amount,
                    exchange_rate: Some(exchange_rate),
                    timestamp: now,
                },
                expected_token_amount,
            ),
        )
    }

    /// Validates a sell intent (token in, BTC out) against the pool and, on
    /// success, returns the state the sell commits and the satoshis to pay.
    /// A quotient beyond 64 bits is rejected as `Overflow` rather than
    /// truncated, and a nonce at the 64-bit limit likewise.
    pub fn validate_sell_token(
        &self,
        txid: Txid,
        nonce: u64,
        input_coins: &Vec<InputCoin>,
        output_coins: &Vec<OutputCoin>,
        exchange_rate: u64,
        now: u64,
    ) -> (r: Result<(TokenState, u64), ExchangeError>)
        requires
            exchange_rate > 0,
        ensures
            r == self.spec_validate_sell(
                txid,
                nonce,
                input_coins@,
                output_coins@,
                exchange_rate,
                now,
            ),
    {
        if !(input_coins.len() == 1 && output_coins.len() == 1) {
            return Err(ExchangeError::InvalidSignPsbtArgs(PsbtArgsIssue::CoinShape));
        }
        let token_input: Coin = input_coins[0].coin;
        let btc_output: Coin = output_coins[0].coin;
        if token_input.id != self.meta.id {
            return Err(ExchangeError::InvalidSignPsbtArgs(PsbtArgsIssue::InputCoinKind));
        }
        if btc_output.id != CoinId::btc() {
            return Err(ExchangeError::InvalidSignPsbtArgs(PsbtArgsIssue::OutputCoinKind));
        }
        if self.states.len() == 0 {
            return Err(ExchangeError::EmptyToken);
        }
        let base = self.latest_or_default();
        if base.nonce != nonce {
            return Err(ExchangeError::TokenStateExpired(base.nonce));
        }
        let quotient: u128 = token_input.value / (exchange_rate as u128);
        if quotient > u64::MAX as u128 {
            return Err(ExchangeError::Overflow);
        }
        let expected_btc_amount: u64 = quotient as u64;
        if expected_btc_amount < MIN_BTC_VALUE {
            return Err(ExchangeError::TooSmallFunds);
        }
        if btc_output.value > u64::MAX as u128 {
            return Err(ExchangeError::Overflow);
        }
        let btc_amount: u64 = btc_output.value as u64;
        if btc_amount != expected_btc_amount {
            return Err(ExchangeError::InvalidSignPsbtArgs(PsbtArgsIssue::AmountMismatch));
        }
        if base.btc_balance < expected_btc_amount {
            return Err(ExchangeError::InsufficientBtc);
        }
        if base.nonce == u64::MAX {
            return Err(ExchangeError::Overflow);
        }
        Ok(
            (
                TokenState {
                    id: Some(txid),
                    nonce: base.nonce + 1,
                    btc_balance: base.btc_balance - expected_btc_amount,
                    exchange_rate: Some(exchange_rate),
                    timestamp: now,
                },
                expected_btc_amount,
            ),
        )
    }

    /// Appends a validated state to the chain. The requirements restate what
    /// the validators guarantee of the state they produce.
    pub fn commit(&mut self, state: TokenState)
        requires
            old(self).wf(),
            state.nonce == old(self).spec_latest().nonce + 1,
            state.exchange_rate matches Some(r) ==> r > 0,
            state.id matches Some(t) ==> !has_state_for(old(self).states@, t),
        ensures
            final(self).states@ == old(self).states@.push(state),
            final(self).same_but_states(*old(self)),
            final(self).wf(),
            final(self).spec_latest() == state,
    {
        self.states.push(state);
        proof {
            let s = old(self).states@;
            let s2 = self.states@;
            assert forall|i: int| 1 <= i < s2.len() implies (#[trigger] s2[i]).nonce == s2[i
                - 1].nonce + 1 by {
                if i < s.len() {
                    assert(s2[i] == s[i]);
                    assert(s2[i - 1] == s[i - 1]);
                } else {
                    assert(s2[i] == state);
                    assert(s2[i - 1] == s[i - 1]);
                }
            }
            assert forall|i: int, j: int|
                0 <= i < j < s2.len() && (#[trigger] s2[i]).id is Some implies s2[i].id != (
            #[trigger] s2[j]).id by {
                if j < s.len() {
                    assert(s2[i] == s[i]);
                    assert(s2[j] == s[j]);
                } else {
                    assert(s2[j] == state);
                    assert(s2[i] == s[i]);
                }
            }
            assert forall|i: int| 0 <= i < s2.len() implies ((#[trigger] s2[i]).exchange_rate
                matches Some(r) ==> r > 0) by {
                if i < s.len() {
                    assert(s2[i] == s[i]);
                } else {
                    assert(s2[i] == state);
                }
            }
        }
    }

    /// The index of the first state produced by `txid`, if any.
    pub fn find_state_index(&self, txid: Txid) -> (r: Option<usize>)
        ensures
            match first_state_for(self.states@, txid) {
                None => r is None,
                Some(i) => r matches Some(u) && u as int == i,
            },
    {
        proof {
            lemma_first_state_for(self.states@, txid);
        }
        let n = self.states.len();
        let mut i: usize = 0;
        while i < n
            invariant
                n == self.states@.len(),
                i <= n,
                forall|j: int| 0 <= j < i ==> (#[trigger] self.states@[j]).id != Some(txid),
            decreases n - i,
        {
            let hit = match self.states[i].id {
                Some(t) => t == txid,
                None => false,
            };
            if hit {
                return Some(i);
            }
            i += 1;
        }
        None
    }

    /// Drops the state produced by `txid` and every later state; clears the
    /// whole chain when that state is the base. Fails with `InvalidState`
    /// when no state was produced by `txid`, leaving the pool unchanged.
    pub fn rollback(&mut self, txid: Txid) -> (r: Result<(), ExchangeError>)
        requires
            old(self).wf(),
        ensures
            final(self).wf(),
            final(self).same_but_states(*old(self)),
            match first_state_for(old(self).states@, txid) {
                None => r == Err::<(), ExchangeError>(
                    ExchangeError::InvalidState(StateIssue::TxidNotFound),
                ) && final(self).states@ == old(self).states@,
                Some(i) => r == Ok::<(), ExchangeError>(()) && final(self).states@ == old(
                    self,
                ).states@.take(i),
            },
    {
        match self.find_state_index(txid) {
            Some(i) => {
                proof {
                    lemma_first_state_for(self.states@, txid);
                    lemma_chain_take(self.states@, i as int);
                }
                self.states.truncate(i);
                Ok(())
            },
            None => Err(ExchangeError::InvalidState(StateIssue::TxidNotFound)),
        }
    }

    /// Makes the state produced by `txid` the new base, dropping every older
    /// state; a no-op when it already is the base. Fails with `InvalidState`
    /// when no state was produced by `txid`, leaving the pool unchanged.
    pub fn finalize(&mut self, txid: Txid) -> (r: Result<(), ExchangeError>)
        requires
            old(self).wf(),
        ensures
            final(self).wf(),
            final(self).same_but_states(*old(self)),
            match first_state_for(old(self).states@, txid) {
                None => r == Err::<(), ExchangeError>(
                    ExchangeError::InvalidState(StateIssue::TxidNotFound),
                ) && final(self).states@ == old(self).states@,
                Some(i) => r == Ok::<(), ExchangeError>(()) && final(self).states@ == old(
                    self,
                ).states@.skip(i),
            },
    {
        match self.find_state_index(txid) {
            Some(i) => {
                proof {
                    lemma_first_state_for(self.states@, txid);
                    lemma_chain_skip(self.states@, i as int);
                }
                let tail = self.states.split_off(i);
                self.states = tail;
                Ok(())
            },
            None => Err(ExchangeError::InvalidState(StateIssue::TxidNotFound)),
        }
    }
}

} // verus!
