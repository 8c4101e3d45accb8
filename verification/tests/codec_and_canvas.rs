use canvas_exchange::canvas::{Canvas, CanvasError};
use canvas_exchange::codec::{
    decode_canvas_token, decode_token_state, encode_canvas_token, encode_token_state,
};
use canvas_exchange::coin::{CoinId, Txid};
use canvas_exchange::pixel::Rgb888;
use canvas_exchange::token_pool::{CanvasToken, TokenMeta, TokenState, MIN_BTC_VALUE};

fn sample_state(n: u64) -> TokenState {
    TokenState {
        id: Some(Txid { w0: n, w1: n + 1, w2: n + 2, w3: n + 3 }),
        nonce: n,
        btc_balance: 10_000 * n,
        exchange_rate: Some(100),
        timestamp: 1_700_000_000 + n,
    }
}

#[test]
fn token_state_round_trip() {
    let s = sample_state(3);
    let bytes = encode_token_state(&s);
    assert_eq!(bytes.len(), 66);
    let back = decode_token_state(&bytes).unwrap();
    assert_eq!(back, s);

    let empty = TokenState::default();
    assert_eq!(empty.nonce, 0);
    assert_eq!(empty.btc_balance, 0);
    assert_eq!(empty.id, None);
    assert_eq!(empty.exchange_rate, None);
    let bytes2 = encode_token_state(&empty);
    assert_eq!(decode_token_state(&bytes2).unwrap(), empty);
}

#[test]
fn token_state_decode_rejects_junk() {
    assert!(decode_token_state(&vec![0u8; 65]).is_none());
    let mut bad = encode_token_state(&sample_state(1));
    bad[0] = 7;
    assert!(decode_token_state(&bad).is_none());
}

#[test]
fn canvas_token_round_trip() {
    let pool = CanvasToken {
        states: vec![sample_state(1), sample_state(2)],
        meta: TokenMeta {
            id: CoinId::Rune { block: 840000, tx: 7 },
            symbol: "CANVÄS".to_string(),
            exchange_rate: 100,
            min_amount: 1,
        },
        pubkey: vec![2, 250, 17],
        tweaked: vec![3, 99],
        addr: "bc1qcanvaspool".to_string(),
    };
    let bytes = encode_canvas_token(&pool);
    let back = decode_canvas_token(&bytes).unwrap();
    assert_eq!(back.states, pool.states);
    assert_eq!(back.meta.id, pool.meta.id);
    assert_eq!(back.meta.symbol, pool.meta.symbol);
    assert_eq!(back.meta.exchange_rate, pool.meta.exchange_rate);
    assert_eq!(back.meta.min_amount, pool.meta.min_amount);
    assert_eq!(back.pubkey, pool.pubkey);
    assert_eq!(back.tweaked, pool.tweaked);
    assert_eq!(back.addr, pool.addr);
}

#[test]
fn canvas_token_decode_rejects_truncation() {
    let pool = CanvasToken {
        states: vec![sample_state(1)],
        meta: TokenMeta {
            id: CoinId::Btc,
            symbol: "BTC".to_string(),
            exchange_rate: 1,
            min_amount: 546,
        },
        pubkey: vec![],
        tweaked: vec![],
        addr: "a".to_string(),
    };
    let mut bytes = encode_canvas_token(&pool);
    bytes.pop();
    assert!(decode_canvas_token(&bytes).is_none());
}

#[test]
fn token_meta_btc() {
    let m = TokenMeta::btc();
    assert_eq!(m.id, CoinId::Btc);
    assert_eq!(m.symbol, "BTC");
    assert_eq!(m.exchange_rate, 1);
    assert_eq!(m.min_amount, 546);
    assert_eq!(CoinId::btc(), CoinId::Btc);
    assert_eq!(CoinId::rune(5, 9), CoinId::Rune { block: 5, tx: 9 });
}

#[test]
fn calculation_helpers() {
    let pool = CanvasToken {
        states: vec![],
        meta: TokenMeta {
            id: CoinId::Rune { block: 1, tx: 1 },
            symbol: "T".to_string(),
            exchange_rate: 100,
            min_amount: 1,
        },
        pubkey: vec![],
        tweaked: vec![],
        addr: "p".to_string(),
    };
    assert_eq!(pool.get_current_exchange_rate(), 100);
    assert_eq!(pool.calculate_buy_amount(10_000), 1_000_000);
    assert_eq!(pool.calculate_sell_amount(1_000_000), 10_000);
    assert_eq!(pool.calculate_buy_amount_with_rate(10_000, 3), 30_000);
    assert_eq!(pool.calculate_sell_amount_with_rate(30_001, 3), 10_000);
    assert_eq!(pool.token_id(), CoinId::Rune { block: 1, tx: 1 });
    assert_eq!(MIN_BTC_VALUE, 10_000);
}

#[test]
fn rate_follows_latest_state() {
    let mut pool = CanvasToken {
        states: vec![],
        meta: TokenMeta {
            id: CoinId::Rune { block: 1, tx: 1 },
            symbol: "T".to_string(),
            exchange_rate: 100,
            min_amount: 1,
        },
        pubkey: vec![],
        tweaked: vec![],
        addr: "p".to_string(),
    };
    let mut s = sample_state(1);
    s.nonce = 1;
    s.exchange_rate = Some(250);
    pool.commit(s);
    assert_eq!(pool.get_current_exchange_rate(), 250);
    assert_eq!(pool.calculate_buy_amount(10_000), 2_500_000);
}

#[test]
fn canvas_paint_and_buy() {
    let mut c = Canvas::new(4, 3, 10);
    let p = c.pixel(3, 2).unwrap();
    assert_eq!(p.price, 10);
    assert_eq!(p.owner, None);
    assert_eq!(p.color, Rgb888(0xFFFFFF));
    assert!(matches!(c.pixel(4, 2), Err(CanvasError::OutOfBounds)));
    assert!(matches!(c.pixel(3, 3), Err(CanvasError::OutOfBounds)));

    c.set_color(1, 1, Rgb888(0x123456)).unwrap();
    assert_eq!(c.pixel(1, 1).unwrap().color, Rgb888(0x123456));
    assert_eq!(c.pixel(1, 1).unwrap().price, 10);

    let r = c.buy_pixel(1, 1, "bc1qbuyer".to_string(), 9, Rgb888(0xFF0000));
    assert!(matches!(r, Err(CanvasError::PriceTooLow { required: 10 })));

    c.buy_pixel(1, 1, "bc1qbuyer".to_string(), 10, Rgb888(0xFF0000)).unwrap();
    let p = c.pixel(1, 1).unwrap();
    assert_eq!(p.owner, Some("bc1qbuyer".to_string()));
    assert_eq!(p.color, Rgb888(0xFF0000));
    assert_eq!(p.price, 20);

    // Prices double per purchase and saturate at the 128-bit limit.
    let mut c2 = Canvas::new(1, 1, u128::MAX / 2 + 1);
    c2.buy_pixel(0, 0, "x".to_string(), u128::MAX, Rgb888(0)).unwrap();
    assert_eq!(c2.pixel(0, 0).unwrap().price, u128::MAX);

    assert!(matches!(
        c.buy_pixel(9, 0, "x".to_string(), 100, Rgb888(0)),
        Err(CanvasError::OutOfBounds)
    ));
}

#[test]
fn decimal_rendering_and_derivation_path() {
    assert_eq!(canvas_exchange::token_pool::u64_to_decimal(0), "0");
    assert_eq!(canvas_exchange::token_pool::u64_to_decimal(105), "105");
    assert_eq!(canvas_exchange::token_pool::u64_to_decimal(u64::MAX), u64::MAX.to_string());
    let pool = CanvasToken {
        states: vec![],
        meta: TokenMeta {
            id: CoinId::Rune { block: 840000, tx: 7 },
            symbol: "CANV".to_string(),
            exchange_rate: 100,
            min_amount: 1,
        },
        pubkey: vec![],
        tweaked: vec![],
        addr: "p".to_string(),
    };
    assert_eq!(pool.attrs(), "exchange_rate:100");
    assert_eq!(pool.derivation_path(), vec![b"840000:7".to_vec()]);
}
