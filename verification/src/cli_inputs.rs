//! The values that the technical commands read from their arguments:
//! hexadecimal keys, seeds and nonces, the inputs of password generation and
//! of static-password encryption, and the list of masks and literals.

use vstd::prelude::*;
use crate::text::{
    views, chars_of, str_eq, push_str, trim, trim_chars, split_on, split_chars, string_from_chars,
};
use crate::number::{dec, push_dec};
use crate::ids::{uuid_parse, uuid_text, uuid_string, random_uuid, fill_random, rng_unavailable_msg, uuid_v4_value};
use crate::helpers::starts_with;
use crate::model::{MaskOrLiteral, PositionView, positions_view};
use crate::cli::{
    arg_value, arg_u32, missing_arg_msg, get_arg_str, get_arg_u32, get_arg_uuid, require_arg,
    get_mask_u32, u32_token, parse_u32_token, u32_result_view, opt_view,
};

verus! {


// ---------------------------------------------------------------------------
// Hexadecimal

/// Whether `c` is a hexadecimal digit (either case).
pub open spec fn is_hex_digit(c: char) -> bool {
    ('0' <= c && c <= '9') || ('a' <= c && c <= 'f') || ('A' <= c && c <= 'F')
}

/// The value of hexadecimal digit `c`.
pub open spec fn hex_value(c: char) -> int {
    if '0' <= c && c <= '9' {
        c as int - '0' as int
    } else if 'a' <= c && c <= 'f' {
        c as int - 'a' as int + 10
    } else {
        c as int - 'A' as int + 10
    }
}

/// Whether `s` is an even number of hexadecimal digits.
pub open spec fn hex_ok(s: Seq<char>) -> bool {
    s.len() % 2 == 0 && forall|i: int| 0 <= i < s.len() ==> is_hex_digit(#[trigger] s[i])
}

/// The bytes that the digits of `s` spell, two digits each, high half first.
pub open spec fn hex_bytes(s: Seq<char>) -> Seq<u8> {
    Seq::new(s.len() / 2, |i: int| (hex_value(s[2 * i]) * 16 + hex_value(s[2 * i + 1])) as u8)
}

/// The text of the `hex::FromHexError` that `hex::decode` gives for a text
/// that is not hexadecimal (the error names the first offending byte, or the
/// odd length); it depends on the text alone.
pub uninterp spec fn hex_error_text(s: Seq<char>) -> Seq<char>;

/// `hex::decode` on a text: an even number of hexadecimal digits (either
/// case) gives its bytes, two digits each with the first as the high half;
/// anything else is an error, handed on as the error's `Display` text. A
/// character outside ASCII is no digit, whatever the length of its
/// encoding, so such a text is always an error. What that text says is
/// named, not stated.
#[verifier::external_body]
pub(crate) fn hex_decode(s: &str) -> (r: Result<Vec<u8>, String>)
    ensures
        r is Ok <==> hex_ok(s@),
        r matches Ok(b) ==> b@ == hex_bytes(s@),
        r matches Err(m) ==> m@ == hex_error_text(s@),
{
    match hex::decode(s) {
        Ok(b) => Ok(b),
        Err(e) => Err(e.to_string()),
    }
}

/// The bytes of a hexadecimal text, if it is one.
pub fn decode_hex(s: &str) -> (r: Option<Vec<u8>>)
    ensures
        r is Some <==> hex_ok(s@),
        r matches Some(b) ==> b@ == hex_bytes(s@),
{
    match hex_decode(s) {
        Ok(b) => Some(b),
        Err(_) => None,
    }
}

pub open spec fn bytes_result_view(r: Result<Vec<u8>, String>) -> Result<Seq<u8>, Seq<char>> {
    match r {
        Ok(b) => Ok(b@),
        Err(e) => Err(e@),
    }
}

/// The bytes of option `name`, which must be given in hexadecimal.
pub open spec fn hex_arg(args: Seq<Seq<char>>, name: Seq<char>) -> Result<Seq<u8>, Seq<char>> {
    match arg_value(args, name) {
        None => Err(missing_arg_msg(name)),
        Some(v) => if hex_ok(v) {
            Ok(hex_bytes(v))
        } else {
            Err(name + " não é hex válido"@)
        },
    }
}

pub fn require_hex(args: &[String], name: &str) -> (r: Result<Vec<u8>, String>)
    ensures
        bytes_result_view(r) == hex_arg(views(args@), name@),
{
    let value = match require_arg(args, name) {
        Ok(v) => v,
        Err(e) => {
            return Err(e);
        },
    };
    match decode_hex(value.as_str()) {
        Some(b) => Ok(b),
        None => {
            let mut e = String::from_str(name);
            push_str(&mut e, " não é hex válido");
            Err(e)
        },
    }
}

/// The bytes of option `name`, which must be 32 bytes in hexadecimal.
pub open spec fn hex32_arg(args: Seq<Seq<char>>, name: Seq<char>) -> Result<Seq<u8>, Seq<char>> {
    match hex_arg(args, name) {
        Err(e) => Err(e),
        Ok(b) => if b.len() == 32 {
            Ok(b)
        } else {
            Err(name + " deve ter 32 bytes (64 hex chars), recebido: "@ + dec(b.len()))
        },
    }
}

/// The bytes of option `name`, which must be 24 bytes in hexadecimal.
pub open spec fn hex24_arg(args: Seq<Seq<char>>, name: Seq<char>) -> Result<Seq<u8>, Seq<char>> {
    match hex_arg(args, name) {
        Err(e) => Err(e),
        Ok(b) => if b.len() == 24 {
            Ok(b)
        } else {
            Err(name + " deve ter 24 bytes (48 hex chars), recebido: "@ + dec(b.len()))
        },
    }
}

pub fn require_hex_32(args: &[String], name: &str) -> (r: Result<Vec<u8>, String>)
    ensures
        bytes_result_view(r) == hex32_arg(views(args@), name@),
{
    let bytes = match require_hex(args, name) {
        Ok(b) => b,
        Err(e) => {
            return Err(e);
        },
    };
    if bytes.len() != 32 {
        let mut e = String::from_str(name);
        push_str(&mut e, " deve ter 32 bytes (64 hex chars), recebido: ");
        push_dec(&mut e, bytes.len() as u128);
        return Err(e);
    }
    Ok(bytes)
}

pub fn require_hex_24(args: &[String], name: &str) -> (r: Result<Vec<u8>, String>)
    ensures
        bytes_result_view(r) == hex24_arg(views(args@), name@),
{
    let bytes = match require_hex(args, name) {
        Ok(b) => b,
        Err(e) => {
            return Err(e);
        },
    };
    if bytes.len() != 24 {
        let mut e = String::from_str(name);
        push_str(&mut e, " deve ter 24 bytes (48 hex chars), recebido: ");
        push_dec(&mut e, bytes.len() as u128);
        return Err(e);
    }
    Ok(bytes)
}

/// The bytes of option `name` if it is given in hexadecimal.
pub open spec fn hex_opt(args: Seq<Seq<char>>, name: Seq<char>) -> Option<Seq<u8>> {
    match arg_value(args, name) {
        Some(v) => if hex_ok(v) {
            Some(hex_bytes(v))
        } else {
            None
        },
        None => None,
    }
}

pub open spec fn bytes_opt_view(r: Option<Vec<u8>>) -> Option<Seq<u8>> {
    match r {
        Some(b) => Some(b@),
        None => None,
    }
}

pub fn get_hex_optional(args: &[String], name: &str) -> (r: Option<Vec<u8>>)
    ensures
        bytes_opt_view(r) == hex_opt(views(args@), name@),
{
    match get_arg_str(args, name) {
        Some(v) => decode_hex(v.as_str()),
        None => None,
    }
}

/// The bytes of option `name` if it is 32 bytes given in hexadecimal.
pub fn get_hex_32_optional(args: &[String], name: &str) -> (r: Option<Vec<u8>>)
    ensures
        bytes_opt_view(r) == (match hex_opt(views(args@), name@) {
            Some(b) => if b.len() == 32 {
                Some(b)
            } else {
                None
            },
            None => None,
        }),
{
    match get_hex_optional(args, name) {
        Some(b) => if b.len() == 32 {
            Some(b)
        } else {
            None
        },
        None => None,
    }
}

// ---------------------------------------------------------------------------
// Nonces

/// The nonce of option `--nonce`, as given: 24 bytes in hexadecimal.
pub open spec fn given_nonce(h: Seq<char>) -> Result<Seq<u8>, Seq<char>> {
    if !hex_ok(h) {
        Err("Nonce hex inválido"@)
    } else if hex_bytes(h).len() != 24 {
        Err("Nonce deve ter 24 bytes, recebido: "@ + dec(hex_bytes(h).len()))
    } else {
        Ok(hex_bytes(h))
    }
}

/// The nonce: the one given with `--nonce`, else 24 random bytes. A failing
/// random source gives an error.
pub fn get_or_generate_nonce(args: &[String]) -> (r: Result<Vec<u8>, String>)
    ensures
        match arg_value(views(args@), "--nonce"@) {
            Some(h) => bytes_result_view(r) == given_nonce(h),
            None => match r {
                Ok(b) => b@.len() == 24,
                Err(e) => e@ == "OS RNG indisponível"@,
            },
        },
{
    match get_arg_str(args, "--nonce") {
        Some(hex_str) => {
            let bytes = match decode_hex(hex_str.as_str()) {
                Some(b) => b,
                None => {
                    return Err(String::from_str("Nonce hex inválido"));
                },
            };
            if bytes.len() != 24 {
                let mut e = String::from_str("Nonce deve ter 24 bytes, recebido: ");
                push_dec(&mut e, bytes.len() as u128);
                return Err(e);
            }
            Ok(bytes)
        },
        None => {
            let mut nonce: Vec<u8> = Vec::new();
            let mut i: usize = 0;
            while i < 24
                invariant
                    i <= 24,
                    nonce@.len() == i,
                decreases 24 - i,
            {
                nonce.push(0);
                i = i + 1;
            }
            match fill_random(&mut nonce) {
                Ok(()) => Ok(nonce),
                Err(_) => Err(String::from_str("OS RNG indisponível")),
            }
        },
    }
}

// ---------------------------------------------------------------------------
// Password generation

/// The device identifier that the commands use when none is given.
pub const DEFAULT_DEVICE_UUID: u128 = 1;

/// The restriction identifier that the commands use when none is given.
pub const DEFAULT_RESTRICTION_UUID: u128 = 2;

/// The mask that `--generate` uses when none is given.
pub const DEFAULT_MASK: u32 = 7;

pub open spec fn uuid_or(args: Seq<Seq<char>>, name: Seq<char>, default: u128) -> u128 {
    match arg_value(args, name) {
        Some(v) => match uuid_parse(v) {
            Some(u) => u,
            None => default,
        },
        None => default,
    }
}

pub open spec fn u32_or(args: Seq<Seq<char>>, name: Seq<char>, default: nat) -> nat {
    match arg_u32(args, name) {
        Some(n) => n,
        None => default,
    }
}

/// How the key-derivation context is had: given whole, or built from its
/// parts.
pub enum ContextSource {
    Explicit(String),
    Parts { domain: String, variation: u32, device: u128, restriction: u128 },
}

/// The context of `--kmac`: `--context` as given; else `--domain` (which is
/// then needed), `--variation` (0), `--device-uuid` and `--restriction-uuid`
/// (the defaults 1 and 2).
pub fn get_context_source(args: &[String]) -> (r: Result<ContextSource, String>)
    ensures
        ({
            let a = views(args@);
            match arg_value(a, "--context"@) {
                Some(c) => r matches Ok(ContextSource::Explicit(s)) && s@ == c,
                None => match arg_value(a, "--domain"@) {
                    None => r matches Err(e) && e@ == "É necessário --domain ou --context"@,
                    Some(d) => r matches Ok(ContextSource::Parts { domain, variation, device, restriction })
                        && domain@ == d && variation as nat == u32_or(a, "--variation"@, 0) && device == uuid_or(
                        a,
                        "--device-uuid"@,
                        DEFAULT_DEVICE_UUID,
                    ) && restriction == uuid_or(a, "--restriction-uuid"@, DEFAULT_RESTRICTION_UUID),
                },
            }
        }),
{
    if let Some(ctx) = get_arg_str(args, "--context") {
        return Ok(ContextSource::Explicit(ctx));
    }
    let domain = match get_arg_str(args, "--domain") {
        Some(d) => d,
        None => {
            return Err(String::from_str("É necessário --domain ou --context"));
        },
    };
    let variation = match get_arg_u32(args, "--variation") {
        Some(v) => v,
        None => 0,
    };
    let device = match get_arg_uuid(args, "--device-uuid") {
        Some(u) => u,
        None => DEFAULT_DEVICE_UUID,
    };
    let restriction = match get_arg_uuid(args, "--restriction-uuid") {
        Some(u) => u,
        None => DEFAULT_RESTRICTION_UUID,
    };
    Ok(ContextSource::Parts { domain, variation, device, restriction })
}

/// What `--generate` reads: the seed (32 bytes in hexadecimal, needed), the
/// domain (`example.com`), the variation (0), the device and restriction
/// identifiers (1 and 2) and the default mask (7).
pub struct GenerateInputs {
    pub seed: Vec<u8>,
    pub domain: String,
    pub variation: u32,
    pub device: u128,
    pub restriction: u128,
    pub mask: u32,
}

/// The default mask of `--generate`: `--mask` read by `parse_u32_token`, else 7.
pub open spec fn mask_arg(a: Seq<Seq<char>>) -> Result<nat, Seq<char>> {
    match arg_value(a, "--mask"@) {
        Some(v) => u32_token(v),
        None => Ok(DEFAULT_MASK as nat),
    }
}

pub fn generate_inputs(args: &[String]) -> (r: Result<GenerateInputs, String>)
    ensures
        ({
            let a = views(args@);
            match (hex32_arg(a, "--seed"@), mask_arg(a)) {
                (Err(e), _) => r matches Err(m) && m@ == e,
                (Ok(_), Err(e)) => r matches Err(m) && m@ == e,
                (Ok(seed), Ok(mask)) => r matches Ok(g) && g.seed@ == seed && g.domain@ == (match arg_value(
                    a,
                    "--domain"@,
                ) {
                    Some(d) => d,
                    None => "example.com"@,
                }) && g.variation as nat == u32_or(a, "--variation"@, 0) && g.device == uuid_or(
                    a,
                    "--device-uuid"@,
                    DEFAULT_DEVICE_UUID,
                ) && g.restriction == uuid_or(a, "--restriction-uuid"@, DEFAULT_RESTRICTION_UUID)
                    && g.mask as nat == mask,
            }
        }),
{
    let seed = match require_hex_32(args, "--seed") {
        Ok(s) => s,
        Err(e) => {
            return Err(e);
        },
    };
    let domain = match get_arg_str(args, "--domain") {
        Some(d) => d,
        None => String::from_str("example.com"),
    };
    let variation = match get_arg_u32(args, "--variation") {
        Some(v) => v,
        None => 0,
    };
    let device = match get_arg_uuid(args, "--device-uuid") {
        Some(u) => u,
        None => DEFAULT_DEVICE_UUID,
    };
    let restriction = match get_arg_uuid(args, "--restriction-uuid") {
        Some(u) => u,
        None => DEFAULT_RESTRICTION_UUID,
    };
    let mask = match get_mask_u32(args, "--mask") {
        Ok(Some(m)) => m,
        Ok(None) => DEFAULT_MASK,
        Err(e) => {
            return Err(e);
        },
    };
    Ok(GenerateInputs { seed, domain, variation, device, restriction, mask })
}

/// One entry of `--masks`: a literal written between slashes, or a mask.
pub enum MaskToken {
    Literal(String),
    Mask(u32),
}

pub ghost enum MaskTokenView {
    Literal(Seq<char>),
    Mask(nat),
}

impl MaskToken {
    pub open spec fn view(&self) -> MaskTokenView {
        match self {
            MaskToken::Literal(s) => MaskTokenView::Literal(s@),
            MaskToken::Mask(m) => MaskTokenView::Mask(*m as nat),
        }
    }
}

/// Whether a trimmed entry is a literal: it starts and ends with `/`.
pub open spec fn is_slashed(t: Seq<char>) -> bool {
    t.len() > 0 && t[0] == '/' && t[t.len() - 1] == '/'
}

/// What one entry of `--masks` reads as.
pub open spec fn mask_token(part: Seq<char>) -> Result<MaskTokenView, Seq<char>> {
    let t = trim(part);
    if is_slashed(t) {
        Ok(MaskTokenView::Literal(t))
    } else {
        match u32_token(t) {
            Ok(n) => Ok(MaskTokenView::Mask(n)),
            Err(e) => Err(e),
        }
    }
}

/// The first error among the entries, else their tokens.
pub open spec fn mask_tokens(parts: Seq<Seq<char>>) -> Result<Seq<MaskTokenView>, Seq<char>>
    decreases parts.len(),
{
    if parts.len() == 0 {
        Ok(seq![])
    } else {
        match mask_token(parts[0]) {
            Err(e) => Err(e),
            Ok(t) => match mask_tokens(parts.drop_first()) {
                Err(e) => Err(e),
                Ok(ts) => Ok(seq![t] + ts),
            },
        }
    }
}

pub open spec fn tokens_view(s: Seq<MaskToken>) -> Seq<MaskTokenView> {
    s.map_values(|t: MaskToken| t.view())
}

proof fn lemma_mask_tokens_split(parts: Seq<Seq<char>>, i: int)
    requires
        0 <= i <= parts.len(),
        mask_tokens(parts.take(i)) is Ok,
    ensures
        mask_tokens(parts) == (match mask_tokens(parts.skip(i)) {
            Err(e) => Err(e),
            Ok(ts) => Ok(mask_tokens(parts.take(i))->Ok_0 + ts),
        }),
    decreases i,
{
    if i > 0 {
        assert(parts.take(i)[0] == parts[0]);
        assert(parts.take(i).drop_first() =~= parts.drop_first().take(i - 1));
        assert(parts.skip(i) =~= parts.drop_first().skip(i - 1));
        lemma_mask_tokens_split(parts.drop_first(), i - 1);
        match mask_tokens(parts.skip(i)) {
            Err(e) => {},
            Ok(ts) => {
                assert(seq![mask_token(parts[0])->Ok_0] + (mask_tokens(parts.drop_first().take(i - 1))->Ok_0
                    + ts) =~= (seq![mask_token(parts[0])->Ok_0] + mask_tokens(parts.drop_first().take(i
                    - 1))->Ok_0) + ts);
            },
        }
    } else {
        assert(parts.skip(0) =~= parts);
        assert(mask_tokens(parts.take(0))->Ok_0 =~= Seq::<MaskTokenView>::empty());
        match mask_tokens(parts) {
            Err(e) => {},
            Ok(ts) => {
                assert(Seq::<MaskTokenView>::empty() + ts =~= ts);
            },
        }
    }
}

/// Reads the comma-separated list of `--masks`.
pub fn parse_mask_list(list: &str) -> (r: Result<Vec<MaskToken>, String>)
    ensures
        match mask_tokens(split_on(list@, ',')) {
            Ok(ts) => r matches Ok(v) && tokens_view(v@) == ts,
            Err(e) => r matches Err(m) && m@ == e,
        },
{
    let chars = chars_of(list);
    let parts = split_chars(&chars, ',');
    let ghost ps = split_on(list@, ',');
    let mut out: Vec<MaskToken> = Vec::new();
    let mut i: usize = 0;
    assert(ps.take(0) =~= Seq::<Seq<char>>::empty());
    assert(tokens_view(out@) =~= Seq::<MaskTokenView>::empty());
    while i < parts.len()
        invariant
            i <= parts.len(),
            parts@.map_values(|f: Vec<char>| f@) == ps,
            ps == split_on(list@, ','),
            mask_tokens(ps.take(i as int)) == Ok::<Seq<MaskTokenView>, Seq<char>>(tokens_view(out@)),
        decreases parts.len() - i,
    {
        assert(ps[i as int] == parts@[i as int]@);
        let t = trim_chars(&parts[i]);
        let slashed = t.len() > 0 && t[0] == '/' && t[t.len() - 1] == '/';
        let ts = string_from_chars(&t);
        let tok = if slashed {
            MaskToken::Literal(ts)
        } else {
            match parse_u32_token(ts.as_str()) {
                Ok(n) => MaskToken::Mask(n),
                Err(e) => {
                    proof {
                        lemma_mask_tokens_split(ps, i as int);
                        assert(ps.skip(i as int)[0] == ps[i as int]);
                        assert(mask_token(ps[i as int]) == Err::<MaskTokenView, Seq<char>>(e@));
                        assert(mask_tokens(ps.skip(i as int)) == Err::<Seq<MaskTokenView>, Seq<char>>(e@));
                    }
                    return Err(e);
                },
            }
        };
        proof {
            let p1 = ps.take(i + 1);
            assert(p1.take(i as int) =~= ps.take(i as int));
            assert(p1.skip(i as int) =~= seq![ps[i as int]]);
            assert(seq![ps[i as int]].drop_first() =~= Seq::<Seq<char>>::empty());
            assert(mask_token(ps[i as int]) == Ok::<MaskTokenView, Seq<char>>(tok.view()));
            assert(mask_tokens(Seq::<Seq<char>>::empty()) == Ok::<Seq<MaskTokenView>, Seq<char>>(seq![]));
            assert(mask_tokens(seq![ps[i as int]]) == Ok::<Seq<MaskTokenView>, Seq<char>>(
                seq![tok.view()] + seq![],
            ));
            lemma_mask_tokens_split(p1, i as int);
        }
        let ghost before = tokens_view(out@);
        out.push(tok);
        assert(tokens_view(out@) =~= before + seq![tok.view()]);
        i = i + 1;
    }
    assert(ps.take(parts.len() as int) =~= ps);
    Ok(out)
}

/// Where the positions of `--generate` come from: the list of `--masks`,
/// else `--length` positions of the default mask, else as many positions
/// as the default mask needs (worked out by the generator).
pub enum MaskSource {
    List(Vec<MaskToken>),
    Repeat(u32),
    Max,
}

pub fn masks_source(args: &[String]) -> (r: Result<MaskSource, String>)
    ensures
        ({
            let a = views(args@);
            match arg_value(a, "--masks"@) {
                Some(l) => match mask_tokens(split_on(l, ',')) {
                    Ok(ts) => r matches Ok(MaskSource::List(v)) && tokens_view(v@) == ts,
                    Err(e) => r matches Err(m) && m@ == e,
                },
                None => match arg_u32(a, "--length"@) {
                    Some(n) => r matches Ok(MaskSource::Repeat(k)) && k as nat == n,
                    None => r matches Ok(MaskSource::Max),
                },
            }
        }),
{
    if let Some(list) = get_arg_str(args, "--masks") {
        match parse_mask_list(list.as_str()) {
            Ok(v) => Ok(MaskSource::List(v)),
            Err(e) => Err(e),
        }
    } else if let Some(n) = get_arg_u32(args, "--length") {
        Ok(MaskSource::Repeat(n))
    } else {
        Ok(MaskSource::Max)
    }
}

/// A position with the sentinel mask 0 replaced by the default mask.
pub open spec fn resolve_position(p: PositionView, default_mask: u32) -> PositionView {
    match p {
        PositionView::Mask(m) => if m == 0 {
            PositionView::Mask(default_mask)
        } else {
            p
        },
        PositionView::Literal(_) => p,
    }
}

/// Replaces the sentinel mask 0 by the default mask throughout.
pub fn resolve_default_mask_sentinels(masks: &[MaskOrLiteral], default_mask: u32) -> (r: Vec<MaskOrLiteral>)
    ensures
        r@.len() == masks@.len(),
        forall|i: int|
            0 <= i < masks@.len() ==> (#[trigger] r@[i]).view() == resolve_position(
                masks@[i].view(),
                default_mask,
            ),
{
    let mut r: Vec<MaskOrLiteral> = Vec::new();
    let mut i: usize = 0;
    while i < masks.len()
        invariant
            i <= masks.len(),
            r@.len() == i,
            forall|j: int|
                0 <= j < i ==> (#[trigger] r@[j]).view() == resolve_position(masks@[j].view(), default_mask),
        decreases masks.len() - i,
    {
        let item = match &masks[i] {
            MaskOrLiteral::Mask(m) => if *m == 0 {
                MaskOrLiteral::Mask(default_mask)
            } else {
                MaskOrLiteral::Mask(*m)
            },
            MaskOrLiteral::Literal(l) => MaskOrLiteral::Literal(l.clone()),
        };
        r.push(item);
        i = i + 1;
    }
    r
}

/// A position with the default mask written as the sentinel 0.
pub open spec fn mark_position(p: PositionView, default_mask: u32) -> PositionView {
    match p {
        PositionView::Mask(m) => if m == default_mask {
            PositionView::Mask(0)
        } else {
            p
        },
        PositionView::Literal(_) => p,
    }
}

/// Writes the default mask as the sentinel 0 throughout (the longest
/// sequence is built with the default mask spelled out).
pub fn mark_default_masks(masks: &[MaskOrLiteral], default_mask: u32) -> (r: Vec<MaskOrLiteral>)
    ensures
        r@.len() == masks@.len(),
        forall|i: int|
            0 <= i < masks@.len() ==> (#[trigger] r@[i]).view() == mark_position(masks@[i].view(), default_mask),
{
    let mut r: Vec<MaskOrLiteral> = Vec::new();
    let mut i: usize = 0;
    while i < masks.len()
        invariant
            i <= masks.len(),
            r@.len() == i,
            forall|j: int| 0 <= j < i ==> (#[trigger] r@[j]).view() == mark_position(masks@[j].view(), default_mask),
        decreases masks.len() - i,
    {
        let item = match &masks[i] {
            MaskOrLiteral::Mask(m) => if *m == default_mask {
                MaskOrLiteral::Mask(0)
            } else {
                MaskOrLiteral::Mask(*m)
            },
            MaskOrLiteral::Literal(l) => MaskOrLiteral::Literal(l.clone()),
        };
        r.push(item);
        i = i + 1;
    }
    r
}

/// The size of the alphabet that the dictionary holds for mask `m`, if it
/// holds one (the first entry for `m`).
pub open spec fn dict_lookup(dict: Seq<(u32, usize)>, m: u32) -> Option<usize>
    decreases dict.len(),
{
    if dict.len() == 0 {
        None
    } else if dict[0].0 == m {
        Some(dict[0].1)
    } else {
        dict_lookup(dict.drop_first(), m)
    }
}

/// The alphabet sizes of the masks of a sequence, in order: literals have
/// none, and a mask the dictionary does not hold is passed over.
pub open spec fn alphabet_sizes(masks: Seq<PositionView>, dict: Seq<(u32, usize)>) -> Seq<usize>
    decreases masks.len(),
{
    if masks.len() == 0 {
        seq![]
    } else {
        let prev = alphabet_sizes(masks.drop_last(), dict);
        match masks.last() {
            PositionView::Mask(m) => match dict_lookup(dict, m) {
                Some(n) => prev.push(n),
                None => prev,
            },
            PositionView::Literal(_) => prev,
        }
    }
}

fn lookup_alphabet(dict: &Vec<(u32, usize)>, m: u32) -> (r: Option<usize>)
    ensures
        r == dict_lookup(dict@, m),
{
    let mut i: usize = 0;
    assert(dict@.skip(0) =~= dict@);
    while i < dict.len()
        invariant
            i <= dict.len(),
            dict_lookup(dict@, m) == dict_lookup(dict@.skip(i as int), m),
        decreases dict.len() - i,
    {
        assert(dict@.skip(i as int).drop_first() =~= dict@.skip(i as int + 1));
        if dict[i].0 == m {
            return Some(dict[i].1);
        }
        i = i + 1;
    }
    None
}

/// The alphabet size of each mask of a resolved sequence, looked up in the
/// alphabet dictionary (mask, size).
pub fn compute_alphabet_sizes_for_masks(masks: &[MaskOrLiteral], dictionary: &Vec<(u32, usize)>) -> (r: Vec<usize>)
    ensures
        r@ == alphabet_sizes(positions_view(masks@), dictionary@),
{
    let mut r: Vec<usize> = Vec::new();
    let mut i: usize = 0;
    while i < masks.len()
        invariant
            i <= masks.len(),
            r@ == alphabet_sizes(positions_view(masks@).take(i as int), dictionary@),
        decreases masks.len() - i,
    {
        let ghost before = positions_view(masks@).take(i as int);
        assert(positions_view(masks@).take(i as int + 1).drop_last() =~= before);
        match &masks[i] {
            MaskOrLiteral::Mask(m) => {
                match lookup_alphabet(dictionary, *m) {
                    Some(n) => r.push(n),
                    None => {},
                }
            },
            MaskOrLiteral::Literal(_) => {},
        }
        i = i + 1;
    }
    assert(positions_view(masks@).take(masks@.len() as int) =~= positions_view(masks@));
    r
}

/// With a non-zero default mask no sentinel is left, and resolving again
/// changes nothing.
pub proof fn law_resolve_sentinels(p: PositionView, default_mask: u32)
    requires
        default_mask != 0,
    ensures
        resolve_position(p, default_mask) != PositionView::Mask(0),
        resolve_position(resolve_position(p, default_mask), default_mask) == resolve_position(
            p,
            default_mask,
        ),
{
}

/// Resolving undoes marking: a sequence whose default mask was written as
/// the sentinel reads back as it was, as long as it held no sentinel before.
pub proof fn law_resolve_undoes_mark(p: PositionView, default_mask: u32)
    requires
        p != PositionView::Mask(0),
    ensures
        resolve_position(mark_position(p, default_mask), default_mask) == p,
{
}

// ---------------------------------------------------------------------------
// Static passwords

/// The additional data that binds a static password to its entry and device.
pub open spec fn static_aad_text(entry: u128, device: u128) -> Seq<char> {
    "v1|STATIC|senha_estatica:"@ + uuid_text(entry) + "|device:"@ + uuid_text(device)
}

/// The key-derivation context of a static password.
pub open spec fn static_context_text(entry: u128) -> Seq<char> {
    "v1|STATIC|"@ + uuid_text(entry)
}

pub fn static_aad(entry: u128, device: u128) -> (r: String)
    ensures
        r@ == static_aad_text(entry, device),
{
    let mut s = String::from_str("v1|STATIC|senha_estatica:");
    push_str(&mut s, uuid_string(entry).as_str());
    push_str(&mut s, "|device:");
    push_str(&mut s, uuid_string(device).as_str());
    s
}

pub fn static_kmac_context(entry: u128) -> (r: String)
    ensures
        r@ == static_context_text(entry),
{
    let mut s = String::from_str("v1|STATIC|");
    push_str(&mut s, uuid_string(entry).as_str());
    s
}

/// What `--generate-static` reads before it derives the key: the mode
/// (needed), the seed (32 bytes in hexadecimal, needed), the entry identifier
/// (a fresh random one when not given) and the device identifier (1).
pub struct StaticInputs {
    pub mode: String,
    pub seed: Vec<u8>,
    pub entry: u128,
    pub device: u128,
}

/// The identifier given with `name`, when it reads as one.
pub open spec fn uuid_given(args: Seq<Seq<char>>, name: Seq<char>) -> Option<u128> {
    match arg_value(args, name) {
        Some(v) => uuid_parse(v),
        None => None,
    }
}

/// The inputs of `--generate-static`. Without a readable `--entry-uuid` the
/// entry gets a fresh random identifier; when the operating system gives no
/// random bytes that is the error.
pub fn static_inputs(args: &[String]) -> (r: Result<StaticInputs, String>)
    ensures
        ({
            let a = views(args@);
            match arg_value(a, "--mode"@) {
                None => r matches Err(e) && e@ == missing_arg_msg("--mode"@),
                Some(m) => match hex32_arg(a, "--seed"@) {
                    Err(e) => r matches Err(x) && x@ == e,
                    Ok(seed) => match uuid_given(a, "--entry-uuid"@) {
                        Some(u) => r matches Ok(s) && s.mode@ == m && s.seed@ == seed && s.entry == u
                            && s.device == uuid_or(a, "--device-uuid"@, DEFAULT_DEVICE_UUID),
                        None => match r {
                            Ok(s) => s.mode@ == m && s.seed@ == seed && s.device == uuid_or(
                                a,
                                "--device-uuid"@,
                                DEFAULT_DEVICE_UUID,
                            ) && exists|b: Seq<u8>| b.len() == 16 && s.entry as nat == uuid_v4_value(b),
                            Err(e) => e@ == rng_unavailable_msg(),
                        },
                    },
                },
            }
        }),
{
    let mode = match require_arg(args, "--mode") {
        Ok(m) => m,
        Err(e) => {
            return Err(e);
        },
    };
    let seed = match require_hex_32(args, "--seed") {
        Ok(s) => s,
        Err(e) => {
            return Err(e);
        },
    };
    let entry = match get_arg_uuid(args, "--entry-uuid") {
        Some(u) => u,
        None => match random_uuid() {
            Ok(u) => u,
            Err(e) => {
                return Err(e);
            },
        },
    };
    let device = match get_arg_uuid(args, "--device-uuid") {
        Some(u) => u,
        None => DEFAULT_DEVICE_UUID,
    };
    Ok(StaticInputs { mode, seed, entry, device })
}

/// Whether `--generate-static` encrypts or decrypts.
#[derive(PartialEq, Eq, Structural, Clone, Copy, Debug)]
pub enum StaticMode {
    Encrypt,
    Decrypt,
}

pub fn static_mode(mode: &str) -> (r: Result<StaticMode, String>)
    ensures
        mode@ == "enc"@ ==> r == Ok::<StaticMode, String>(StaticMode::Encrypt),
        mode@ != "enc"@ && mode@ == "dec"@ ==> r == Ok::<StaticMode, String>(StaticMode::Decrypt),
        mode@ != "enc"@ && mode@ != "dec"@ ==> (r matches Err(e) && e@ == "--mode deve ser 'enc' ou 'dec'"@),
{
    if str_eq(mode, "enc") {
        Ok(StaticMode::Encrypt)
    } else if str_eq(mode, "dec") {
        Ok(StaticMode::Decrypt)
    } else {
        Err(String::from_str("--mode deve ser 'enc' ou 'dec'"))
    }
}

} // verus!
