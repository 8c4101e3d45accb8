use vstd::prelude::*;

verus! {

/// `c` is an ASCII hex digit.
pub open spec fn is_hex_digit(c: char) -> bool {
    let u = c as u32;
    (48 <= u && u <= 57)  // '0'..='9'
     || (97 <= u && u <= 102)  // 'a'..='f'
     || (65 <= u && u <= 70)  // 'A'..='F'

}

/// The value of the ASCII hex digit `c`.
pub open spec fn hex_digit_val(c: char) -> u32 {
    let u = c as u32;
    if 48 <= u && u <= 57 {
        (u - 48) as u32
    } else if 97 <= u && u <= 102 {
        (u - 87) as u32
    } else if 65 <= u && u <= 70 {
        (u - 55) as u32
    } else {
        0
    }
}

/// `s` is a well-formed hex string: even length, hex digits throughout.
pub open spec fn valid_hex(s: Seq<char>) -> bool {
    s.len() % 2 == 0 && (forall|i: int| 0 <= i < s.len() ==> is_hex_digit(#[trigger] s[i]))
}

/// The bytes a well-formed hex string denotes, two digits per byte.
pub open spec fn bytes_of_hex(s: Seq<char>) -> Seq<u8> {
    Seq::new(s.len() / 2, |i: int| (hex_digit_val(s[2 * i]) * 16 + hex_digit_val(s[2 * i + 1])) as u8)
}

/// The bytes form a well-formed partially-signed Bitcoin transaction, as
/// `bitcoin::Psbt::deserialize` accepts it.
pub uninterp spec fn psbt_wf(bytes: Seq<u8>) -> bool;

/// Relies on hex::decode: it succeeds exactly on even-length all-hex-digit
/// input and turns each digit pair into one byte.
#[verifier::external_body]
pub fn hex_decode(s: &String) -> (r: Option<Vec<u8>>)
    ensures
        r is Some <==> valid_hex(s@),
        r matches Some(v) ==> v@ == bytes_of_hex(s@),
{
    hex::decode(s.as_str()).ok()
}

/// Relies on bitcoin::Psbt::deserialize: it succeeds exactly on the
/// well-formed PSBT encodings, a property of the bytes alone.
#[verifier::external_body]
pub fn psbt_deserialize(bytes: &Vec<u8>) -> (r: Option<ree_types::bitcoin::Psbt>)
    ensures
        r is Some <==> psbt_wf(bytes@),
{
    ree_types::bitcoin::Psbt::deserialize(bytes.as_slice()).ok()
}

/// Relies on bitcoin::Psbt::serialize_hex: it renders the PSBT's
/// serialization as lowercase hex, two digits per byte.
#[verifier::external_body]
pub fn psbt_serialize_hex(psbt: &ree_types::bitcoin::Psbt) -> (r: String)
    ensures
        valid_hex(r@),
{
    psbt.serialize_hex()
}

#[verifier::external_type_specification]
#[verifier::external_body]
pub struct ExPsbt(ree_types::bitcoin::Psbt);

} // verus!
