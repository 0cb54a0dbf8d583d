//! Identifiers: the 128-bit value of a UUID, its hyphenated text, and
//! reading one back from text.

use vstd::prelude::*;

verus! {

/// The lowercase hexadecimal digit for `d < 16`.
pub open spec fn hex_char(d: nat) -> char {
    if d < 10 {
        (('0' as int) + d) as char
    } else {
        (('a' as int) + d - 10) as char
    }
}

/// Hexadecimal digit `k` of `u`, counted from the most significant (0 to 31).
pub open spec fn uuid_nibble(u: u128, k: int) -> nat {
    (((u as int) / vstd::arithmetic::power::pow(16, (31 - k) as nat)) % 16) as nat
}

/// Which hexadecimal digit character `i` of the hyphenated text shows.
pub open spec fn uuid_digit(i: int) -> int {
    if i < 8 {
        i
    } else if i < 13 {
        i - 1
    } else if i < 18 {
        i - 2
    } else if i < 23 {
        i - 3
    } else {
        i - 4
    }
}

pub open spec fn uuid_hyphen(i: int) -> bool {
    i == 8 || i == 13 || i == 18 || i == 23
}

/// The hyphenated lowercase text of an identifier: 32 hexadecimal digits,
/// most significant first, in groups of 8, 4, 4, 4 and 12.
pub open spec fn uuid_text(u: u128) -> Seq<char> {
    Seq::new(
        36,
        |i: int|
            if uuid_hyphen(i) {
                '-'
            } else {
                hex_char(uuid_nibble(u, uuid_digit(i)))
            },
    )
}

/// The text of an identifier is 36 characters long and holds no `:`.
pub proof fn lemma_uuid_text(u: u128)
    ensures
        uuid_text(u).len() == 36,
        forall|j: int| 0 <= j < 36 ==> uuid_text(u)[j] != ':',
{
    assert forall|j: int| 0 <= j < 36 implies uuid_text(u)[j] != ':' by {
        if !uuid_hyphen(j) {
            let d = uuid_nibble(u, uuid_digit(j));
            assert(d < 16);
        }
    }
}

/// What `uuid::Uuid::parse_str` reads from a text, as a 128-bit value.
pub uninterp spec fn uuid_parse(s: Seq<char>) -> Option<u128>;

/// `uuid::Uuid::parse_str`, the identifier taken as its big-endian 128-bit
/// value (`as_u128`). The result is named; the one fact stated of it is what
/// the parser's source shows for the hyphenated lowercase text of a value (36
/// characters, hyphens at 8, 13, 18 and 23, hexadecimal digits elsewhere): it
/// reads back as that value. Which other texts parse is left unsaid.
#[verifier::external_body]
pub(crate) fn parse_uuid(s: &str) -> (r: Option<u128>)
    ensures
        r == uuid_parse(s@),
        forall|u: u128| s@ == uuid_text(u) ==> r == Some(u),
{
    match uuid::Uuid::parse_str(s) {
        Ok(id) => Some(id.as_u128()),
        Err(_) => None,
    }
}

/// Reads an identifier from its text, as `uuid::Uuid::parse_str` reads it;
/// the hyphenated lowercase text of a value reads back as that value.
pub fn read_uuid(text: &str) -> (r: Option<u128>)
    ensures
        r == uuid_parse(text@),
        forall|u: u128| text@ == uuid_text(u) ==> r == Some(u),
{
    parse_uuid(text)
}

/// `uuid::Uuid::from_u128(u).to_string()`: the display form of a UUID is its
/// hyphenated lowercase text, the bytes of `u` in big-endian order.
#[verifier::external_body]
pub(crate) fn uuid_string(u: u128) -> (r: String)
    ensures
        r@ == uuid_text(u),
{
    uuid::Uuid::from_u128(u).to_string()
}

// ---------------------------------------------------------------------------
// Random identifiers

#[verifier::external_type_specification]
#[verifier::external_body]
pub struct ExRandomError(getrandom::Error);

/// `getrandom::fill`: fills the buffer with random bytes from the operating
/// system, or fails. The bytes are random, so nothing is stated of them; the
/// buffer keeps its length.
#[verifier::external_body]
pub(crate) fn fill_random(buf: &mut Vec<u8>) -> (r: Result<(), getrandom::Error>)
    ensures
        final(buf)@.len() == old(buf)@.len(),
{
    getrandom::fill(buf.as_mut_slice())
}

/// The value of bytes read most significant first.
pub open spec fn be_value(b: Seq<u8>) -> nat
    decreases b.len(),
{
    if b.len() == 0 {
        0
    } else {
        be_value(b.drop_last()) * 256 + b.last() as nat
    }
}

/// The bytes of a random (version 4, RFC 4122 variant) identifier made of
/// `b`: the high half of byte 6 set to 4, the top two bits of byte 8 to `10`.
pub open spec fn v4_bytes(b: Seq<u8>) -> Seq<u8> {
    b.update(6, (b[6] & 0x0f) | 0x40).update(8, (b[8] & 0x3f) | 0x80)
}

/// The value of the random identifier made of 16 random bytes.
pub open spec fn uuid_v4_value(b: Seq<u8>) -> nat {
    be_value(v4_bytes(b))
}

/// `uuid::Builder::from_random_bytes(b).into_uuid().as_u128()`: the source
/// (`builder.rs`) keeps the 16 bytes, sets the variant in byte 8
/// (`(byte & 0x3f) | 0x80`) and the version in byte 6 (`(byte & 0x0f) | 4 << 4`);
/// `as_u128` reads the bytes most significant first.
#[verifier::external_body]
fn uuid_from_random_bytes(bytes: &Vec<u8>) -> (r: u128)
    requires
        bytes@.len() == 16,
    ensures
        r as nat == uuid_v4_value(bytes@),
{
    let mut b = [0u8; 16];
    b.copy_from_slice(bytes.as_slice());
    uuid::Builder::from_random_bytes(b).into_uuid().as_u128()
}

/// What is said when the operating system gives no random bytes.
pub open spec fn rng_unavailable_msg() -> Seq<char> {
    "OS RNG indisponível"@
}

/// A fresh random identifier, made as `uuid::Uuid::new_v4` makes one: 16
/// random bytes with the version and variant set. When the operating system
/// gives no random bytes it says so instead of panicking.
pub(crate) fn random_uuid() -> (r: Result<u128, String>)
    ensures
        r matches Ok(u) ==> exists|b: Seq<u8>| b.len() == 16 && u as nat == uuid_v4_value(b),
        r matches Err(e) ==> e@ == rng_unavailable_msg(),
{
    let mut b: Vec<u8> = Vec::new();
    let mut i: usize = 0;
    while i < 16
        invariant
            i <= 16,
            b@.len() == i,
        decreases 16 - i,
    {
        b.push(0);
        i = i + 1;
    }
    match fill_random(&mut b) {
        Ok(()) => Ok(uuid_from_random_bytes(&b)),
        Err(_) => Err(String::from_str("OS RNG indisponível")),
    }
}

} // verus!
