//! Bytes shown as hexadecimal text, two lowercase digits per byte.

use vstd::prelude::*;
use crate::number::hex_digit_char;

verus! {

/// The hexadecimal text of `b`: for each byte, in order, its high and its low
/// half as a lowercase digit.
pub open spec fn hex_bytes_text(b: Seq<u8>) -> Seq<char>
    decreases b.len(),
{
    if b.len() == 0 {
        seq![]
    } else {
        hex_bytes_text(b.drop_last()) + seq![
            hex_digit_char((b.last() / 16) as nat, false),
            hex_digit_char((b.last() % 16) as nat, false),
        ]
    }
}

/// `hex::encode`: the source (`lib.rs`, `BytesToHexChars` over
/// `HEX_CHARS_LOWER`) writes each byte as the lowercase digit of its high
/// half, then that of its low half.
#[verifier::external_body]
fn hex_encode(bytes: &[u8]) -> (r: String)
    ensures
        r@ == hex_bytes_text(bytes@),
{
    hex::encode(bytes)
}

/// The bytes as hexadecimal text, as the views show salts, nonces and MACs.
pub fn hex_string(bytes: &[u8]) -> (r: String)
    ensures
        r@ == hex_bytes_text(bytes@),
{
    hex_encode(bytes)
}

} // verus!
