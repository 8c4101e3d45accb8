use vstd::prelude::*;

verus! {

/// Identifies a coin: native BTC, or a rune etched at a given block and
/// transaction index.
#[derive(Clone, Copy, Debug, PartialEq, Eq, Structural, Hash)]
pub enum CoinId {
    Btc,
    Rune { block: u64, tx: u32 },
}

impl CoinId {
    /// The native BTC coin id.
    pub fn btc() -> (r: CoinId)
        ensures
            r == CoinId::Btc,
    {
        CoinId::Btc
    }

    /// The id of the rune etched at `block`/`tx`.
    pub fn rune(block: u64, tx: u32) -> (r: CoinId)
        ensures
            r == (CoinId::Rune { block, tx }),
    {
        CoinId::Rune { block, tx }
    }
}

/// A 32-byte transaction id, held as four little-endian 64-bit words.
#[derive(Clone, Copy, Debug, PartialEq, Eq, Structural, Hash)]
pub struct Txid {
    pub w0: u64,
    pub w1: u64,
    pub w2: u64,
    pub w3: u64,
}

/// An amount of one coin.
#[derive(Clone, Copy, Debug, PartialEq, Eq, Structural)]
pub struct Coin {
    pub id: CoinId,
    pub value: u128,
}

/// A coin flowing into a transaction.
#[derive(Clone, Copy, Debug, PartialEq, Eq, Structural)]
pub struct InputCoin {
    pub coin: Coin,
}

/// A coin flowing out of a transaction.
#[derive(Clone, Copy, Debug, PartialEq, Eq, Structural)]
pub struct OutputCoin {
    pub coin: Coin,
}

} // verus!
