use vstd::bytes::{
    lemma_auto_spec_u128_to_from_le_bytes, lemma_auto_spec_u64_to_from_le_bytes,
    spec_u128_from_le_bytes, spec_u128_to_le_bytes, spec_u64_from_le_bytes, spec_u64_to_le_bytes,
    u128_from_le_bytes, u128_to_le_bytes, u64_from_le_bytes, u64_to_le_bytes,
};
use vstd::prelude::*;
use vstd::string::StringSliceAdditionalSpecFns;

use crate::coin::{CoinId, Txid};
use crate::token_pool::{CanvasToken, TokenMeta, TokenState};

verus! {

/// The 32-byte encoding of a txid: its four words, little-endian.
pub open spec fn spec_enc_txid(t: Txid) -> Seq<u8> {
    spec_u64_to_le_bytes(t.w0) + spec_u64_to_le_bytes(t.w1) + spec_u64_to_le_bytes(t.w2)
        + spec_u64_to_le_bytes(t.w3)
}

/// The all-zero txid used to pad the slot of an absent one.
pub open spec fn zero_txid() -> Txid {
    Txid { w0: 0, w1: 0, w2: 0, w3: 0 }
}

/// The 66-byte encoding of a state: a presence tag and the txid slot, the
/// nonce, the balance, a presence tag and the rate slot, and the timestamp.
pub open spec fn spec_enc_state(s: TokenState) -> Seq<u8> {
    (match s.id {
        Some(t) => seq![1u8] + spec_enc_txid(t),
        None => seq![0u8] + spec_enc_txid(zero_txid()),
    }) + spec_u64_to_le_bytes(s.nonce) + spec_u64_to_le_bytes(s.btc_balance) + (
    match s.exchange_rate {
        Some(r) => seq![1u8] + spec_u64_to_le_bytes(r),
        None => seq![0u8] + spec_u64_to_le_bytes(0),
    }) + spec_u64_to_le_bytes(s.timestamp)
}

/// What decoding 66 bytes yields: the state they encode, or nothing when a
/// presence tag is out of range or the length is wrong.
pub open spec fn spec_dec_state(b: Seq<u8>) -> Option<TokenState> {
    if b.len() != 66 {
        None
    } else if b[0] != 0 && b[0] != 1 {
        None
    } else if b[49] != 0 && b[49] != 1 {
        None
    } else {
        Some(
            TokenState {
                id: if b[0] == 1 {
                    Some(
                        Txid {
                            w0: spec_u64_from_le_bytes(b.subrange(1, 9)),
                            w1: spec_u64_from_le_bytes(b.subrange(9, 17)),
                            w2: spec_u64_from_le_bytes(b.subrange(17, 25)),
                            w3: spec_u64_from_le_bytes(b.subrange(25, 33)),
                        },
                    )
                } else {
                    None
                },
                nonce: spec_u64_from_le_bytes(b.subrange(33, 41)),
                btc_balance: spec_u64_from_le_bytes(b.subrange(41, 49)),
                exchange_rate: if b[49] == 1 {
                    Some(spec_u64_from_le_bytes(b.subrange(50, 58)))
                } else {
                    None
                },
                timestamp: spec_u64_from_le_bytes(b.subrange(58, 66)),
            },
        )
    }
}

/// Decoding inverts encoding: every state comes back from its own bytes with
/// all fields preserved.
pub proof fn lemma_state_codec_round_trip(s: TokenState)
    ensures
        spec_dec_state(spec_enc_state(s)) == Some(s),
{
    lemma_auto_spec_u64_to_from_le_bytes();
    let b = spec_enc_state(s);
    match s.id {
        Some(t) => {
            assert(b.subrange(1, 9) =~= spec_u64_to_le_bytes(t.w0));
            assert(b.subrange(9, 17) =~= spec_u64_to_le_bytes(t.w1));
            assert(b.subrange(17, 25) =~= spec_u64_to_le_bytes(t.w2));
            assert(b.subrange(25, 33) =~= spec_u64_to_le_bytes(t.w3));
        },
        None => {},
    }
    assert(b.subrange(33, 41) =~= spec_u64_to_le_bytes(s.nonce));
    assert(b.subrange(41, 49) =~= spec_u64_to_le_bytes(s.btc_balance));
    match s.exchange_rate {
        Some(r) => {
            assert(b[49] == 1);
            assert(b.subrange(50, 58) =~= spec_u64_to_le_bytes(r));
        },
        None => {
            assert(b[49] == 0);
        },
    }
    assert(b.subrange(58, 66) =~= spec_u64_to_le_bytes(s.timestamp));
}

/// Appends the little-endian bytes of `x`.
fn push_u64(out: &mut Vec<u8>, x: u64)
    ensures
        final(out)@ == old(out)@ + spec_u64_to_le_bytes(x),
{
    let mut b = u64_to_le_bytes(x);
    out.append(&mut b);
}

/// Reads the eight bytes at `pos` as a little-endian word.
fn read_u64(bytes: &Vec<u8>, pos: usize) -> (x: u64)
    requires
        pos + 8 <= bytes@.len(),
    ensures
        x == spec_u64_from_le_bytes(bytes@.subrange(pos as int, pos as int + 8)),
{
    let n = bytes.len();
    let mut tmp: Vec<u8> = Vec::new();
    let mut k: usize = 0;
    while k < 8
        invariant
            k <= 8,
            n == bytes@.len(),
            pos + 8 <= n,
            tmp@ =~= bytes@.subrange(pos as int, pos as int + k as int),
        decreases 8 - k,
    {
        tmp.push(bytes[pos + k]);
        proof {
            assert(tmp@ =~= bytes@.subrange(pos as int, pos as int + (k + 1) as int));
        }
        k += 1;
    }
    u64_from_le_bytes(tmp.as_slice())
}

/// Encodes a state into its 66 bytes.
pub fn encode_token_state(s: &TokenState) -> (r: Vec<u8>)
    ensures
        r@ == spec_enc_state(*s),
{
    let mut out: Vec<u8> = Vec::new();
    match s.id {
        Some(t) => {
            out.push(1u8);
            push_u64(&mut out, t.w0);
            push_u64(&mut out, t.w1);
            push_u64(&mut out, t.w2);
            push_u64(&mut out, t.w3);
        },
        None => {
            out.push(0u8);
            push_u64(&mut out, 0);
            push_u64(&mut out, 0);
            push_u64(&mut out, 0);
            push_u64(&mut out, 0);
        },
    }
    push_u64(&mut out, s.nonce);
    push_u64(&mut out, s.btc_balance);
    match s.exchange_rate {
        Some(r) => {
            out.push(1u8);
            push_u64(&mut out, r);
        },
        None => {
            out.push(0u8);
            push_u64(&mut out, 0);
        },
    }
    push_u64(&mut out, s.timestamp);
    proof {
        assert(out@ =~= spec_enc_state(*s));
    }
    out
}

/// Decodes the 66-byte encoding of a state; fails on any other length or on
/// an out-of-range presence tag.
pub fn decode_token_state(bytes: &Vec<u8>) -> (r: Option<TokenState>)
    ensures
        r == spec_dec_state(bytes@),
{
    if bytes.len() != 66 {
        return None;
    }
    let id_tag = bytes[0];
    if id_tag > 1 {
        return None;
    }
    let rate_tag = bytes[49];
    if rate_tag > 1 {
        return None;
    }
    let id = if id_tag == 1 {
        Some(
            Txid {
                w0: read_u64(bytes, 1),
                w1: read_u64(bytes, 9),
                w2: read_u64(bytes, 17),
                w3: read_u64(bytes, 25),
            },
        )
    } else {
        None
    };
    let exchange_rate = if rate_tag == 1 {
        Some(read_u64(bytes, 50))
    } else {
        None
    };
    Some(
        TokenState {
            id,
            nonce: read_u64(bytes, 33),
            btc_balance: read_u64(bytes, 41),
            exchange_rate,
            timestamp: read_u64(bytes, 58),
        },
    )
}

/// The 17-byte encoding of a coin id: a tag and two word slots.
pub open spec fn spec_enc_coin_id(id: CoinId) -> Seq<u8> {
    match id {
        CoinId::Btc => seq![0u8] + spec_u64_to_le_bytes(0) + spec_u64_to_le_bytes(0),
        CoinId::Rune { block, tx } => seq![1u8] + spec_u64_to_le_bytes(block)
            + spec_u64_to_le_bytes(tx as u64),
    }
}

/// A length-prefixed byte run.
pub open spec fn spec_enc_bytes(b: Seq<u8>) -> Seq<u8> {
    spec_u64_to_le_bytes(b.len() as u64) + b
}

/// A length-prefixed UTF-8 run.
pub open spec fn spec_enc_str(s: Seq<char>) -> Seq<u8> {
    spec_enc_bytes(vstd::utf8::encode_utf8(s))
}

/// The concatenated encodings of a state chain, oldest first.
pub open spec fn spec_enc_states(ss: Seq<TokenState>) -> Seq<u8>
    decreases ss.len(),
{
    if ss.len() == 0 {
        Seq::empty()
    } else {
        spec_enc_state(ss[0]) + spec_enc_states(ss.drop_first())
    }
}

/// Appending a state to the chain appends its encoding to the run.
pub proof fn lemma_enc_states_snoc(ss: Seq<TokenState>, s: TokenState)
    ensures
        spec_enc_states(ss.push(s)) == spec_enc_states(ss) + spec_enc_state(s),
    decreases ss.len(),
{
    if ss.len() == 0 {
        assert(ss.push(s)[0] == s);
        assert(ss.push(s).drop_first() =~= Seq::<TokenState>::empty());
        assert(spec_enc_states(Seq::<TokenState>::empty()) == Seq::<u8>::empty());
        assert(spec_enc_states(ss.push(s)) == spec_enc_state(s) + spec_enc_states(
            Seq::<TokenState>::empty(),
        ));
        assert(spec_enc_states(ss.push(s)) =~= spec_enc_states(ss) + spec_enc_state(s));
    } else {
        assert(ss.push(s).drop_first() =~= ss.drop_first().push(s));
        lemma_enc_states_snoc(ss.drop_first(), s);
        assert(ss.push(s)[0] == ss[0]);
        assert(spec_enc_states(ss.push(s)) == spec_enc_state(ss[0]) + spec_enc_states(
            ss.drop_first().push(s),
        ));
        assert(spec_enc_state(ss[0]) + (spec_enc_states(ss.drop_first()) + spec_enc_state(s)) =~= (
        spec_enc_state(ss[0]) + spec_enc_states(ss.drop_first())) + spec_enc_state(s));
        assert(spec_enc_states(ss.push(s)) =~= spec_enc_states(ss) + spec_enc_state(s));
    }
}

/// A state's encoding is 66 bytes long.
pub proof fn lemma_enc_state_len(s: TokenState)
    ensures
        spec_enc_state(s).len() == 66,
{
    lemma_auto_spec_u64_to_from_le_bytes();
}

/// A chain's encoding is 66 bytes per state, and the bytes of the state at
/// `k` stand at offset `66 * k`.
pub proof fn lemma_enc_states_props(ss: Seq<TokenState>)
    ensures
        spec_enc_states(ss).len() == 66 * ss.len(),
        forall|k: int|
            0 <= k < ss.len() ==> #[trigger] spec_enc_states(ss).subrange(66 * k, 66 * (k + 1))
                == spec_enc_state(ss[k]),
    decreases ss.len(),
{
    lemma_auto_spec_u64_to_from_le_bytes();
    if ss.len() == 0 {
    } else {
        lemma_enc_state_len(ss[0]);
        lemma_enc_states_props(ss.drop_first());
        let e = spec_enc_states(ss);
        assert(e == spec_enc_state(ss[0]) + spec_enc_states(ss.drop_first()));
        assert forall|k: int|
            0 <= k < ss.len() implies #[trigger] e.subrange(66 * k, 66 * (k + 1))
            == spec_enc_state(ss[k]) by {
            if k == 0 {
                assert(e.subrange(0, 66) =~= spec_enc_state(ss[0]));
            } else {
                let tail = spec_enc_states(ss.drop_first());
                assert(tail.subrange(66 * (k - 1), 66 * k) == spec_enc_state(
                    ss.drop_first()[k - 1],
                ));
                assert(e.subrange(66 * k, 66 * (k + 1)) =~= tail.subrange(66 * (k - 1), 66 * k));
                assert(ss.drop_first()[k - 1] == ss[k]);
            }
        }
    }
}

/// The full encoding of a pool: its coin id, symbol, rate and minimum
/// amount, its two keys, its address, and its state chain with a count
/// prefix.
pub open spec fn spec_enc_pool(p: CanvasToken) -> Seq<u8> {
    spec_enc_coin_id(p.meta.id) + spec_enc_str(p.meta.symbol@) + spec_u64_to_le_bytes(
        p.meta.exchange_rate,
    ) + spec_u128_to_le_bytes(p.meta.min_amount) + spec_enc_bytes(p.pubkey@) + spec_enc_bytes(
        p.tweaked@,
    ) + spec_enc_str(p.addr@) + spec_u64_to_le_bytes(p.states@.len() as u64) + spec_enc_states(
        p.states@,
    )
}

/// The tag byte of a coin id's encoding.
pub open spec fn coin_id_tag(id: CoinId) -> u8 {
    match id {
        CoinId::Btc => 0u8,
        CoinId::Rune { .. } => 1u8,
    }
}

/// The block word of a coin id's encoding.
pub open spec fn coin_id_block(id: CoinId) -> u64 {
    match id {
        CoinId::Btc => 0u64,
        CoinId::Rune { block, .. } => block,
    }
}

/// The transaction word of a coin id's encoding.
pub open spec fn coin_id_tx(id: CoinId) -> u64 {
    match id {
        CoinId::Btc => 0u64,
        CoinId::Rune { tx, .. } => tx as u64,
    }
}

/// Where each component of a pool's encoding stands, and how long the whole
/// encoding is.
#[verifier::rlimit(60)]
pub proof fn lemma_enc_pool_layout(p: CanvasToken)
    ensures
        ({
            let e = spec_enc_pool(p);
            let sb = vstd::utf8::encode_utf8(p.meta.symbol@);
            let ab = vstd::utf8::encode_utf8(p.addr@);
            let o1 = 25 + sb.len() as int;
            let o2 = o1 + 24;
            let o3 = o2 + 8 + p.pubkey@.len() as int;
            let o4 = o3 + 8 + p.tweaked@.len() as int;
            let o5 = o4 + 8 + ab.len() as int;
            &&& e.len() == o5 + 8 + 66 * p.states@.len()
            &&& e[0] == coin_id_tag(p.meta.id)
            &&& e.subrange(1, 9) == spec_u64_to_le_bytes(coin_id_block(p.meta.id))
            &&& e.subrange(9, 17) == spec_u64_to_le_bytes(coin_id_tx(p.meta.id))
            &&& e.subrange(17, 25) == spec_u64_to_le_bytes(sb.len() as u64)
            &&& e.subrange(25, o1) == sb
            &&& e.subrange(o1, o1 + 8) == spec_u64_to_le_bytes(p.meta.exchange_rate)
            &&& e.subrange(o1 + 8, o2) == spec_u128_to_le_bytes(p.meta.min_amount)
            &&& e.subrange(o2, o2 + 8) == spec_u64_to_le_bytes(p.pubkey@.len() as u64)
            &&& e.subrange(o2 + 8, o3) == p.pubkey@
            &&& e.subrange(o3, o3 + 8) == spec_u64_to_le_bytes(p.tweaked@.len() as u64)
            &&& e.subrange(o3 + 8, o4) == p.tweaked@
            &&& e.subrange(o4, o4 + 8) == spec_u64_to_le_bytes(ab.len() as u64)
            &&& e.subrange(o4 + 8, o5) == ab
            &&& e.subrange(o5, o5 + 8) == spec_u64_to_le_bytes(p.states@.len() as u64)
            &&& e.subrange(o5 + 8, e.len() as int) == spec_enc_states(p.states@)
        }),
{
    lemma_auto_spec_u64_to_from_le_bytes();
    lemma_auto_spec_u128_to_from_le_bytes();
    lemma_enc_states_props(p.states@);
    let e = spec_enc_pool(p);
    let sb = vstd::utf8::encode_utf8(p.meta.symbol@);
    let ab = vstd::utf8::encode_utf8(p.addr@);
    let o1 = 25 + sb.len() as int;
    let o2 = o1 + 24;
    let o3 = o2 + 8 + p.pubkey@.len() as int;
    let o4 = o3 + 8 + p.tweaked@.len() as int;
    let o5 = o4 + 8 + ab.len() as int;
    assert(spec_enc_coin_id(p.meta.id) =~= seq![coin_id_tag(p.meta.id)] + spec_u64_to_le_bytes(
        coin_id_block(p.meta.id),
    ) + spec_u64_to_le_bytes(coin_id_tx(p.meta.id)));
    assert(e.len() == o5 + 8 + 66 * p.states@.len());
    assert(e[0] == coin_id_tag(p.meta.id));
    assert(e.subrange(1, 9) =~= spec_u64_to_le_bytes(coin_id_block(p.meta.id)));
    assert(e.subrange(9, 17) =~= spec_u64_to_le_bytes(coin_id_tx(p.meta.id)));
    assert(e.subrange(17, 25) =~= spec_u64_to_le_bytes(sb.len() as u64));
    assert(e.subrange(25, o1) =~= sb);
    assert(e.subrange(o1, o1 + 8) =~= spec_u64_to_le_bytes(p.meta.exchange_rate));
    assert(e.subrange(o1 + 8, o2) =~= spec_u128_to_le_bytes(p.meta.min_amount));
    assert(e.subrange(o2, o2 + 8) =~= spec_u64_to_le_bytes(p.pubkey@.len() as u64));
    assert(e.subrange(o2 + 8, o3) =~= p.pubkey@);
    assert(e.subrange(o3, o3 + 8) =~= spec_u64_to_le_bytes(p.tweaked@.len() as u64));
    assert(e.subrange(o3 + 8, o4) =~= p.tweaked@);
    assert(e.subrange(o4, o4 + 8) =~= spec_u64_to_le_bytes(ab.len() as u64));
    assert(e.subrange(o4 + 8, o5) =~= ab);
    assert(e.subrange(o5, o5 + 8) =~= spec_u64_to_le_bytes(p.states@.len() as u64));
    assert(e.subrange(o5 + 8, e.len() as int) =~= spec_enc_states(p.states@));
}

/// Appends the little-endian bytes of `x`.
fn push_u128(out: &mut Vec<u8>, x: u128)
    ensures
        final(out)@ == old(out)@ + spec_u128_to_le_bytes(x),
{
    let mut b = u128_to_le_bytes(x);
    out.append(&mut b);
}

/// Appends a length-prefixed byte run.
fn push_bytes(out: &mut Vec<u8>, b: &Vec<u8>)
    ensures
        final(out)@ == old(out)@ + spec_enc_bytes(b@),
{
    push_u64(out, b.len() as u64);
    let mut copy = clone_bytes(b);
    out.append(&mut copy);
}

/// Appends a length-prefixed UTF-8 run.
fn push_str(out: &mut Vec<u8>, s: &String)
    ensures
        final(out)@ == old(out)@ + spec_enc_str(s@),
{
    let b = s.as_str().as_bytes();
    push_u64(out, b.len() as u64);
    out.extend_from_slice(b);
}

/// Each byte copied, preserving the sequence.
fn clone_bytes(v: &Vec<u8>) -> (r: Vec<u8>)
    ensures
        r@ =~= v@,
{
    let n = v.len();
    let mut out: Vec<u8> = Vec::new();
    let mut i: usize = 0;
    while i < n
        invariant
            n == v@.len(),
            i <= n,
            out@ =~= v@.take(i as int),
        decreases n - i,
    {
        out.push(v[i]);
        proof {
            assert(out@ =~= v@.take((i + 1) as int));
        }
        i += 1;
    }
    out
}

/// Encodes a pool with every field, the state chain included.
pub fn encode_canvas_token(p: &CanvasToken) -> (r: Vec<u8>)
    ensures
        r@ == spec_enc_pool(*p),
{
    let mut out: Vec<u8> = Vec::new();
    match p.meta.id {
        CoinId::Btc => {
            out.push(0u8);
            push_u64(&mut out, 0);
            push_u64(&mut out, 0);
        },
        CoinId::Rune { block, tx } => {
            out.push(1u8);
            push_u64(&mut out, block);
            push_u64(&mut out, tx as u64);
        },
    }
    push_str(&mut out, &p.meta.symbol);
    push_u64(&mut out, p.meta.exchange_rate);
    push_u128(&mut out, p.meta.min_amount);
    push_bytes(&mut out, &p.pubkey);
    push_bytes(&mut out, &p.tweaked);
    push_str(&mut out, &p.addr);
    push_u64(&mut out, p.states.len() as u64);
    let ghost head = out@;
    let n = p.states.len();
    let mut i: usize = 0;
    while i < n
        invariant
            n == p.states@.len(),
            i <= n,
            out@ == head + spec_enc_states(p.states@.take(i as int)),
        decreases n - i,
    {
        let mut enc = encode_token_state(&p.states[i]);
        out.append(&mut enc);
        proof {
            lemma_enc_states_snoc(p.states@.take(i as int), p.states@[i as int]);
            assert(p.states@.take((i + 1) as int) =~= p.states@.take(i as int).push(
                p.states@[i as int],
            ));
            assert(out@ =~= head + spec_enc_states(p.states@.take((i + 1) as int)));
        }
        i += 1;
    }
    proof {
        assert(p.states@.take(n as int) =~= p.states@);
        assert(out@ =~= spec_enc_pool(*p));
    }
    out
}

/// Relies on String::from_utf8: it succeeds exactly on valid UTF-8 and
/// yields the characters that the bytes encode.
#[verifier::external_body]
fn string_from_utf8(bytes: Vec<u8>) -> (r: Option<String>)
    ensures
        r is Some <==> vstd::utf8::valid_utf8(bytes@),
        r matches Some(s) ==> s@ == vstd::utf8::decode_utf8(bytes@),
{
    String::from_utf8(bytes).ok()
}

/// Reads the length-prefixed byte run at `pos`, returning it and the
/// position after it.
fn read_len_bytes(bytes: &Vec<u8>, pos: usize) -> (r: Option<(Vec<u8>, usize)>)
    ensures
        r matches Some(v) ==> {
            &&& pos + 8 <= v.1 <= bytes@.len()
            &&& v.1 == pos + 8 + spec_u64_from_le_bytes(
                bytes@.subrange(pos as int, pos as int + 8),
            )
            &&& v.0@ == bytes@.subrange(pos + 8, v.1 as int)
            &&& bytes@.subrange(pos as int, v.1 as int) == spec_enc_bytes(v.0@)
        },
        r is None ==> pos + 8 > bytes@.len() || pos + 8 + spec_u64_from_le_bytes(
            bytes@.subrange(pos as int, pos as int + 8),
        ) > bytes@.len(),
{
    let n = bytes.len();
    if pos > n || n - pos < 8 {
        return None;
    }
    let len64 = read_u64(bytes, pos);
    if len64 > (n - (pos + 8)) as u64 {
        return None;
    }
    let len: usize = len64 as usize;
    let start = pos + 8;
    let mut out: Vec<u8> = Vec::new();
    let mut k: usize = 0;
    while k < len
        invariant
            k <= len,
            n == bytes@.len(),
            start + len <= n,
            out@ =~= bytes@.subrange(start as int, start as int + k as int),
        decreases len - k,
    {
        out.push(bytes[start + k]);
        proof {
            assert(out@ =~= bytes@.subrange(start as int, start as int + (k + 1) as int));
        }
        k += 1;
    }
    proof {
        lemma_auto_spec_u64_to_from_le_bytes();
        assert(bytes@.subrange(pos as int, (start + len) as int) =~= spec_u64_to_le_bytes(
            spec_u64_from_le_bytes(bytes@.subrange(pos as int, pos as int + 8)),
        ) + out@);
    }
    Some((out, start + len))
}

/// The decoded pool carries the same fields, at view level, as the pool the
/// bytes encode.
pub open spec fn decodes_to(r: Option<CanvasToken>, p: CanvasToken) -> bool {
    r matches Some(q) && {
        &&& q.meta.id == p.meta.id
        &&& q.meta.symbol@ == p.meta.symbol@
        &&& q.meta.exchange_rate == p.meta.exchange_rate
        &&& q.meta.min_amount == p.meta.min_amount
        &&& q.pubkey@ == p.pubkey@
        &&& q.tweaked@ == p.tweaked@
        &&& q.addr@ == p.addr@
        &&& q.states@ == p.states@
    }
}

/// Decodes what `encode_canvas_token` produced: on the encoding of any pool
/// it returns that pool, every field preserved; a malformed prefix yields
/// `None`.
#[verifier::rlimit(100)]
pub fn decode_canvas_token(bytes: &Vec<u8>) -> (r: Option<CanvasToken>)
    ensures
        forall|p: CanvasToken| bytes@ == spec_enc_pool(p) ==> decodes_to(r, p),
{
    let n = bytes.len();
    if n < 17 {
        proof {
            assert forall|p: CanvasToken| bytes@ != spec_enc_pool(p) by {
                if bytes@ == spec_enc_pool(p) {
                    lemma_enc_pool_layout(p);
                }
            }
        }
        return None;
    }
    let id_tag = bytes[0];
    if id_tag > 1 {
        proof {
            assert forall|p: CanvasToken| bytes@ != spec_enc_pool(p) by {
                if bytes@ == spec_enc_pool(p) {
                    lemma_enc_pool_layout(p);
                }
            }
        }
        return None;
    }
    let block = read_u64(bytes, 1);
    let tx64 = read_u64(bytes, 9);
    if tx64 > u32::MAX as u64 {
        proof {
            assert forall|p: CanvasToken| bytes@ != spec_enc_pool(p) by {
                if bytes@ == spec_enc_pool(p) {
                    lemma_enc_pool_layout(p);
                    lemma_auto_spec_u64_to_from_le_bytes();
                    assert(tx64 == coin_id_tx(p.meta.id));
                }
            }
        }
        return None;
    }
    let id = if id_tag == 1 {
        CoinId::rune(block, tx64 as u32)
    } else {
        CoinId::btc()
    };
    let (symbol_bytes, pos1) = match read_len_bytes(bytes, 17) {
        Some(v) => v,
        None => {
            proof {
                assert forall|p: CanvasToken| bytes@ != spec_enc_pool(p) by {
                    if bytes@ == spec_enc_pool(p) {
                        lemma_enc_pool_layout(p);
                        lemma_auto_spec_u64_to_from_le_bytes();
                    }
                }
            }
            return None;
        },
    };
    let ghost symbol_view = symbol_bytes@;
    let symbol = match string_from_utf8(symbol_bytes) {
        Some(s) => s,
        None => {
            proof {
                assert forall|p: CanvasToken| bytes@ != spec_enc_pool(p) by {
                    if bytes@ == spec_enc_pool(p) {
                        lemma_enc_pool_layout(p);
                        lemma_auto_spec_u64_to_from_le_bytes();
                        vstd::utf8::encode_utf8_valid_utf8(p.meta.symbol@);
                        assert(symbol_view == vstd::utf8::encode_utf8(p.meta.symbol@));
                    }
                }
            }
            return None;
        },
    };
    if pos1 > n || n - pos1 < 24 {
        proof {
            assert forall|p: CanvasToken| bytes@ != spec_enc_pool(p) by {
                if bytes@ == spec_enc_pool(p) {
                    lemma_enc_pool_layout(p);
                    lemma_auto_spec_u64_to_from_le_bytes();
                }
            }
        }
        return None;
    }
    let exchange_rate = read_u64(bytes, pos1);
    let min_amount = read_u128(bytes, pos1 + 8);
    let (pubkey, pos2) = match read_len_bytes(bytes, pos1 + 24) {
        Some(v) => v,
        None => {
            proof {
                assert forall|p: CanvasToken| bytes@ != spec_enc_pool(p) by {
                    if bytes@ == spec_enc_pool(p) {
                        lemma_enc_pool_layout(p);
                        lemma_auto_spec_u64_to_from_le_bytes();
                    }
                }
            }
            return None;
        },
    };
    let (tweaked, pos3) = match read_len_bytes(bytes, pos2) {
        Some(v) => v,
        None => {
            proof {
                assert forall|p: CanvasToken| bytes@ != spec_enc_pool(p) by {
                    if bytes@ == spec_enc_pool(p) {
                        lemma_enc_pool_layout(p);
                        lemma_auto_spec_u64_to_from_le_bytes();
                    }
                }
            }
            return None;
        },
    };
    let (addr_bytes, pos4) = match read_len_bytes(bytes, pos3) {
        Some(v) => v,
        None => {
            proof {
                assert forall|p: CanvasToken| bytes@ != spec_enc_pool(p) by {
                    if bytes@ == spec_enc_pool(p) {
                        lemma_enc_pool_layout(p);
                        lemma_auto_spec_u64_to_from_le_bytes();
                    }
                }
            }
            return None;
        },
    };
    let ghost addr_view = addr_bytes@;
    let addr = match string_from_utf8(addr_bytes) {
        Some(s) => s,
        None => {
            proof {
                assert forall|p: CanvasToken| bytes@ != spec_enc_pool(p) by {
                    if bytes@ == spec_enc_pool(p) {
                        lemma_enc_pool_layout(p);
                        lemma_auto_spec_u64_to_from_le_bytes();
                        vstd::utf8::encode_utf8_valid_utf8(p.addr@);
                        assert(addr_view == vstd::utf8::encode_utf8(p.addr@));
                    }
                }
            }
            return None;
        },
    };
    if pos4 > n || n - pos4 < 8 {
        proof {
            assert forall|p: CanvasToken| bytes@ != spec_enc_pool(p) by {
                if bytes@ == spec_enc_pool(p) {
                    lemma_enc_pool_layout(p);
                    lemma_auto_spec_u64_to_from_le_bytes();
                }
            }
        }
        return None;
    }
    let count64 = read_u64(bytes, pos4);
    let start = pos4 + 8;
    let mut pos: usize = start;
    if count64 > ((n - pos) / 66) as u64 {
        proof {
            assert forall|p: CanvasToken| bytes@ != spec_enc_pool(p) by {
                if bytes@ == spec_enc_pool(p) {
                    lemma_enc_pool_layout(p);
                    lemma_auto_spec_u64_to_from_le_bytes();
                    let ln = p.states@.len() as int;
                    assert(count64 == p.states@.len() as u64);
                    assert(n - start == 66 * ln);
                    assert((66 * ln) / 66 == ln) by (nonlinear_arith);
                }
            }
        }
        return None;
    }
    let count: usize = count64 as usize;
    let mut states: Vec<TokenState> = Vec::new();
    let mut k: usize = 0;
    while k < count
        invariant
            k <= count,
            n == bytes@.len(),
            start == pos4 + 8,
            pos == start + 66 * k,
            start + 66 * count <= n,
            states@.len() == k,
            forall|t2: int|
                0 <= t2 < k ==> Some(#[trigger] states@[t2]) == spec_dec_state(
                    bytes@.subrange(start + 66 * t2, start + 66 * (t2 + 1)),
                ),
        decreases count - k,
    {
        proof {
            assert(pos + 66 <= n) by (nonlinear_arith)
                requires
                    pos == start + 66 * k,
                    start + 66 * count <= n,
                    k < count,
            ;
        }
        let mut chunk: Vec<u8> = Vec::new();
        let mut t: usize = 0;
        while t < 66
            invariant
                t <= 66,
                n == bytes@.len(),
                pos + 66 <= n,
                chunk@ =~= bytes@.subrange(pos as int, pos as int + t as int),
            decreases 66 - t,
        {
            chunk.push(bytes[pos + t]);
            proof {
                assert(chunk@ =~= bytes@.subrange(pos as int, pos as int + (t + 1) as int));
            }
            t += 1;
        }
        let ghost chunk_view = chunk@;
        let ghost kk = k as int;
        let state = match decode_token_state(&chunk) {
            Some(s) => s,
            None => {
                proof {
                    assert forall|p: CanvasToken| bytes@ != spec_enc_pool(p) by {
                        if bytes@ == spec_enc_pool(p) {
                            lemma_enc_pool_layout(p);
                            lemma_auto_spec_u64_to_from_le_bytes();
                            lemma_enc_states_props(p.states@);
                            assert(count64 == p.states@.len() as u64);
                            assert(kk < p.states@.len());
                            assert(chunk_view =~= spec_enc_states(p.states@).subrange(
                                66 * kk,
                                66 * (kk + 1),
                            ));
                            lemma_state_codec_round_trip(p.states@[kk]);
                        }
                    }
                }
                return None;
            },
        };
        states.push(state);
        pos += 66;
        k += 1;
    }
    if pos != n {
        proof {
            assert forall|p: CanvasToken| bytes@ != spec_enc_pool(p) by {
                if bytes@ == spec_enc_pool(p) {
                    lemma_enc_pool_layout(p);
                    lemma_auto_spec_u64_to_from_le_bytes();
                    assert(count64 == p.states@.len() as u64);
                }
            }
        }
        return None;
    }
    let r = Some(
        CanvasToken {
            states,
            meta: TokenMeta { id, symbol, exchange_rate, min_amount },
            pubkey,
            tweaked,
            addr,
        },
    );
    proof {
        assert forall|p: CanvasToken| bytes@ == spec_enc_pool(p) implies decodes_to(r, p) by {
            lemma_enc_pool_layout(p);
            lemma_auto_spec_u64_to_from_le_bytes();
            lemma_auto_spec_u128_to_from_le_bytes();
            lemma_enc_states_props(p.states@);
            vstd::utf8::encode_utf8_decode_utf8(p.meta.symbol@);
            vstd::utf8::encode_utf8_decode_utf8(p.addr@);
            assert(id == p.meta.id);
            assert(symbol@ == p.meta.symbol@);
            assert(addr@ == p.addr@);
            assert(exchange_rate == p.meta.exchange_rate);
            assert(min_amount == p.meta.min_amount);
            assert(pubkey@ == p.pubkey@);
            assert(tweaked@ == p.tweaked@);
            assert(count64 == p.states@.len() as u64);
            assert(states@.len() == p.states@.len());
            assert forall|t2: int| 0 <= t2 < p.states@.len() implies #[trigger] states@[t2]
                == p.states@[t2] by {
                assert(bytes@.subrange(
                    pos4 + 8 + 66 * t2,
                    pos4 + 8 + 66 * (t2 + 1),
                ) =~= spec_enc_states(p.states@).subrange(66 * t2, 66 * (t2 + 1)));
                lemma_state_codec_round_trip(p.states@[t2]);
            }
            assert(states@ =~= p.states@);
        }
    }
    r
}

/// Reads the sixteen bytes at `pos` as a little-endian word.
fn read_u128(bytes: &Vec<u8>, pos: usize) -> (x: u128)
    requires
        pos + 16 <= bytes@.len(),
    ensures
        x == spec_u128_from_le_bytes(bytes@.subrange(pos as int, pos as int + 16)),
{
    let n = bytes.len();
    let mut tmp: Vec<u8> = Vec::new();
    let mut k: usize = 0;
    while k < 16
        invariant
            k <= 16,
            n == bytes@.len(),
            pos + 16 <= n,
            tmp@ =~= bytes@.subrange(pos as int, pos as int + k as int),
        decreases 16 - k,
    {
        tmp.push(bytes[pos + k]);
        proof {
            assert(tmp@ =~= bytes@.subrange(pos as int, pos as int + (k + 1) as int));
        }
        k += 1;
    }
    u128_from_le_bytes(tmp.as_slice())
}

} // verus!
