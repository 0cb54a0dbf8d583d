//! The session panel's forms: where a session is saved, the Argon2id
//! calibration (its target and the result waiting to be applied), manual
//! costs, key rotation, XOR key files and the hardware factor.

use vstd::prelude::*;
use crate::text::{
    trim, trim_chars, chars_of, str_eq, push_str, strip_leading, strip_leading_chars, split_on,
    split_chars, lemma_first_at, first_at,
};
use crate::number::{
    parse_uint, parse_uint_chars, u32_max, u128_max, dec, push_dec, lemma_parse_bounded,
    lemma_parse_dec, lemma_dec_digits,
};
use crate::helpers::{validate_match, parse_u32_with_min, bounded_parse, starts_with};
use crate::tutorial::Argon2Costs;

verus! {

/// The browser-storage key under which the web build keeps its session.
pub open spec fn browser_session_key() -> Seq<char> {
    "vaultseed-browser-session"@
}

/// Where a session is saved: the browser-storage key when the web build keeps
/// sessions there, else the path given.
pub fn session_save_path(browser_storage: bool, path: &str) -> (r: String)
    ensures
        r@ == (if browser_storage {
            browser_session_key()
        } else {
            path@
        }),
{
    if browser_storage {
        String::from_str("vaultseed-browser-session")
    } else {
        String::from_str(path)
    }
}

/// A session is saved only with a K1.
pub fn check_save_k1(k1: &str) -> (r: Result<(), String>)
    ensures
        r is Ok <==> k1@.len() > 0,
        r matches Err(e) ==> e@ == "K1 não pode estar vazio."@,
{
    if k1.unicode_len() == 0 {
        Err(String::from_str("K1 não pode estar vazio."))
    } else {
        Ok(())
    }
}

// ---------------------------------------------------------------------------
// Calibration

/// The calibration window for a target of `secs` seconds: from `secs` to one
/// second more, in milliseconds.
pub open spec fn target_window(secs: nat) -> (nat, nat) {
    (secs * 1000, secs * 1000 + 1000)
}

/// Reads the calibration target: a whole number of seconds, at least 1,
/// around optional white space.
pub fn parse_calibration_target(s: &str) -> (r: Result<(u128, u128), String>)
    requires
        parse_uint(trim(s@), 10, u128_max()) matches Ok(v) ==> v * 1000 + 1000 <= u128_max(),
    ensures
        match parse_uint(trim(s@), 10, u128_max()) {
            Ok(v) => if v > 0 {
                r matches Ok(w) && w.0 as nat == target_window(v).0 && w.1 as nat == target_window(v).1
            } else {
                r matches Err(e) && e@ == "Tempo alvo inválido (mínimo: 1 segundo)."@
            },
            Err(_) => r matches Err(e) && e@ == "Tempo alvo inválido (mínimo: 1 segundo)."@,
        },
{
    let t = trim_chars(&chars_of(s));
    proof {
        lemma_parse_bounded(t@, 10, u128_max());
    }
    match parse_uint_chars(&t, 10, u128::MAX) {
        Ok(v) => {
            if v > 0 {
                Ok((v * 1000, v * 1000 + 1000))
            } else {
                Err(String::from_str("Tempo alvo inválido (mínimo: 1 segundo)."))
            }
        },
        Err(_) => Err(String::from_str("Tempo alvo inválido (mínimo: 1 segundo).")),
    }
}

/// How a measured time compares with the target window.
#[derive(PartialEq, Eq, Structural, Clone, Copy, Debug)]
pub enum Comparison {
    Below,
    Within,
    Above,
}

pub fn compare_to_window(ms: i32, min: i32, max: i32) -> (r: Comparison)
    ensures
        r == (if ms < min {
            Comparison::Below
        } else if ms > max {
            Comparison::Above
        } else {
            Comparison::Within
        }),
{
    if ms < min {
        Comparison::Below
    } else if ms > max {
        Comparison::Above
    } else {
        Comparison::Within
    }
}

/// The record of costs waiting to be applied.
pub open spec fn calibration_text(m: nat, t: nat, p: nat) -> Seq<char> {
    "calibration-result:"@ + dec(m) + ":"@ + dec(t) + ":"@ + dec(p)
}

pub fn calibration_action(m: u32, t: u32, p: u32) -> (r: String)
    ensures
        r@ == calibration_text(m as nat, t as nat, p as nat),
{
    let mut s = String::from_str("calibration-result:");
    push_dec(&mut s, m as u128);
    push_str(&mut s, ":");
    push_dec(&mut s, t as u128);
    push_str(&mut s, ":");
    push_dec(&mut s, p as u128);
    s
}

pub open spec fn as_u32_opt(s: Seq<char>) -> Option<nat> {
    match parse_uint(s, 10, u32_max()) {
        Ok(n) => Some(n),
        Err(_) => None,
    }
}

/// What applying a waiting record gives: the record must be a calibration
/// result; its fields, separated by `:`, must be at least three, and the
/// first three must be numbers.
pub open spec fn calibration_spec(action: Option<Seq<char>>) -> Result<(nat, nat, nat), Seq<char>> {
    match action {
        Some(a) if starts_with(a, "calibration-result:"@) => {
            let parts = split_on(strip_leading(a, "calibration-result:"@), ':');
            if parts.len() < 3 {
                Err("Erro ao ler resultado de calibração."@)
            } else {
                match (as_u32_opt(parts[0]), as_u32_opt(parts[1]), as_u32_opt(parts[2])) {
                    (Some(m), Some(t), Some(p)) => Ok((m, t, p)),
                    _ => Err("Resultado de calibração inválido."@),
                }
            }
        },
        _ => Err("Nenhum resultado de calibração disponível."@),
    }
}

fn u32_of(v: &Vec<char>) -> (r: Option<u32>)
    ensures
        match r {
            Some(n) => as_u32_opt(v@) == Some(n as nat),
            None => as_u32_opt(v@) is None,
        },
{
    proof {
        lemma_parse_bounded(v@, 10, u32_max());
    }
    match parse_uint_chars(v, 10, 0xffff_ffff) {
        Ok(n) => Some(n as u32),
        Err(_) => None,
    }
}

/// Reads the record of costs waiting to be applied.
pub fn parse_calibration_action(action: Option<&str>) -> (r: Result<(u32, u32, u32), String>)
    ensures
        match calibration_spec(
            match action {
                Some(a) => Some(a@),
                None => None,
            },
        ) {
            Ok((m, t, p)) => r == Ok::<(u32, u32, u32), String>((m as u32, t as u32, p as u32)) && m
                <= u32_max() && t <= u32_max() && p <= u32_max(),
            Err(e) => r matches Err(x) && x@ == e,
        },
{
    let a = match action {
        Some(a) => a,
        None => {
            return Err(String::from_str("Nenhum resultado de calibração disponível."));
        },
    };
    let v = chars_of(a);
    let prefix = chars_of("calibration-result:");
    if !crate::text::chars_start_with(&v, &prefix) {
        return Err(String::from_str("Nenhum resultado de calibração disponível."));
    }
    let rest = strip_leading_chars(&v, &prefix);
    let parts = split_chars(&rest, ':');
    let ghost ps = split_on(strip_leading(a@, "calibration-result:"@), ':');
    assert(ps.len() == parts@.len());
    if parts.len() < 3 {
        return Err(String::from_str("Erro ao ler resultado de calibração."));
    }
    assert(ps[0] == parts@[0]@ && ps[1] == parts@[1]@ && ps[2] == parts@[2]@);
    match (u32_of(&parts[0]), u32_of(&parts[1]), u32_of(&parts[2])) {
        (Some(m), Some(t), Some(p)) => Ok((m, t, p)),
        _ => Err(String::from_str("Resultado de calibração inválido.")),
    }
}

proof fn lemma_split_digits(a: Seq<char>, b: Seq<char>)
    requires
        forall|j: int| 0 <= j < a.len() ==> '0' <= #[trigger] a[j] <= '9',
    ensures
        split_on(a + ":"@ + b, ':') == seq![a] + split_on(b, ':'),
{
    reveal_strlit(":");
    let s = a + ":"@ + b;
    assert forall|j: int| 0 <= j < a.len() implies s[j] != ':' by {
        assert(s[j] == a[j]);
    }
    assert(s[a.len() as int] == ':');
    lemma_first_at_exact(s, ':', a.len() as int);
    assert(s.take(a.len() as int) =~= a);
    assert(s.skip(a.len() as int + 1) =~= b);
}

proof fn lemma_first_at_exact(s: Seq<char>, c: char, k: int)
    requires
        0 <= k < s.len(),
        s[k] == c,
        forall|j: int| 0 <= j < k ==> s[j] != c,
    ensures
        first_at(s, c) == Some(k as nat),
    decreases k,
{
    if k > 0 {
        assert(s.drop_first()[k - 1] == c);
        assert forall|j: int| 0 <= j < k - 1 implies s.drop_first()[j] != c by {
            assert(s.drop_first()[j] == s[j + 1]);
        }
        lemma_first_at_exact(s.drop_first(), c, k - 1);
    }
}

/// A record of costs waiting to be applied reads back as those costs.
pub proof fn law_calibration_round_trip(m: u32, t: u32, p: u32)
    ensures
        calibration_spec(Some(calibration_text(m as nat, t as nat, p as nat))) == Ok::<
            (nat, nat, nat),
            Seq<char>,
        >((m as nat, t as nat, p as nat)),
{
    reveal_strlit("calibration-result:");
    let pre = "calibration-result:"@;
    let body = dec(m as nat) + ":"@ + dec(t as nat) + ":"@ + dec(p as nat);
    let s = calibration_text(m as nat, t as nat, p as nat);
    assert(s =~= pre + body);
    lemma_dec_digits(m as nat);
    lemma_dec_digits(t as nat);
    lemma_dec_digits(p as nat);
    assert(s.take(pre.len() as int) =~= pre);
    // The prefix is taken off once: what follows starts with a digit.
    assert(s.skip(pre.len() as int) =~= body);
    assert(body[0] == dec(m as nat)[0]);
    assert(!(pre.len() <= body.len() && body.take(pre.len() as int) == pre)) by {
        assert(pre[0] == 'c');
        assert('0' <= dec(m as nat)[0] <= '9');
        if body.len() >= pre.len() {
            assert(body.take(pre.len() as int)[0] == body[0]);
        }
    }
    assert(strip_leading(body, pre) == body);
    assert(strip_leading(s, pre) == strip_leading(s.skip(pre.len() as int), pre));
    let rest2 = dec(t as nat) + ":"@ + dec(p as nat);
    assert(body =~= dec(m as nat) + ":"@ + rest2);
    lemma_split_digits(dec(m as nat), rest2);
    lemma_split_digits(dec(t as nat), dec(p as nat));
    lemma_first_at(dec(p as nat), ':');
    assert(first_at(dec(p as nat), ':') is None);
    let parts = split_on(body, ':');
    assert(parts =~= seq![dec(m as nat), dec(t as nat), dec(p as nat)]);
    lemma_parse_dec(m as nat, u32_max());
    lemma_parse_dec(t as nat, u32_max());
    lemma_parse_dec(p as nat, u32_max());
}

// ---------------------------------------------------------------------------
// Other forms

/// Manual Argon2id costs: each a number of at least 65536 KiB, 3 and 4; the
/// first one that fails decides the error.
pub fn parse_manual_argon2(m: &str, t: &str, p: &str) -> (r: Result<Argon2Costs, String>)
    ensures
        match (bounded_parse(m@, 65536), bounded_parse(t@, 3), bounded_parse(p@, 4)) {
            (Err(e), _, _) => r matches Err(x) && x@ == e,
            (Ok(_), Err(e), _) => r matches Err(x) && x@ == e,
            (Ok(_), Ok(_), Err(e)) => r matches Err(x) && x@ == e,
            (Ok(a), Ok(b), Ok(c)) => r matches Ok(k) && k.m as nat == a && k.t as nat == b && k.p as nat
                == c,
        },
{
    let mm = match parse_u32_with_min(m, 65536) {
        Ok(v) => v,
        Err(e) => {
            return Err(e);
        },
    };
    let tt = match parse_u32_with_min(t, 3) {
        Ok(v) => v,
        Err(e) => {
            return Err(e);
        },
    };
    let pp = match parse_u32_with_min(p, 4) {
        Ok(v) => v,
        Err(e) => {
            return Err(e);
        },
    };
    Ok(Argon2Costs { m: mm, t: tt, p: pp })
}

/// New keys must be typed twice alike and differ from the current ones.
pub fn validate_rotate_keys(
    old_k1: &str,
    old_k2: &str,
    new_k1: &str,
    new_k2: &str,
    conf_k1: &str,
    conf_k2: &str,
) -> (r: Result<(), String>)
    ensures
        new_k1@ != conf_k1@ ==> (r matches Err(e) && e@ == "K1"@ + " não corresponde"@),
        new_k1@ == conf_k1@ && new_k2@ != conf_k2@ ==> (r matches Err(e) && e@ == "K2"@
            + " não corresponde"@),
        new_k1@ == conf_k1@ && new_k2@ == conf_k2@ && new_k1@ == old_k1@ && new_k2@ == old_k2@ ==> (
        r matches Err(e) && e@ == "As novas chaves são iguais às actuais."@),
        new_k1@ == conf_k1@ && new_k2@ == conf_k2@ && !(new_k1@ == old_k1@ && new_k2@ == old_k2@) ==> r
            is Ok,
{
    if let Err(e) = validate_match(new_k1, conf_k1, "K1") {
        return Err(e);
    }
    if let Err(e) = validate_match(new_k2, conf_k2, "K2") {
        return Err(e);
    }
    if str_eq(new_k1, old_k1) && str_eq(new_k2, old_k2) {
        return Err(String::from_str("As novas chaves são iguais às actuais."));
    }
    Ok(())
}

/// XOR key files need two different paths and at least one key.
pub fn validate_create_xor(path_a: &str, path_b: &str, k1: &str, k2: &str) -> (r: Result<(), String>)
    ensures
        path_a@ == path_b@ ==> (r matches Err(e) && e@ == "Os caminhos dos ficheiros têm de ser diferentes."@),
        path_a@ != path_b@ && k1@.len() == 0 && k2@.len() == 0 ==> (r matches Err(e) && e@
            == "Introduza pelo menos uma chave."@),
        path_a@ != path_b@ && (k1@.len() > 0 || k2@.len() > 0) ==> r is Ok,
{
    if str_eq(path_a, path_b) {
        return Err(String::from_str("Os caminhos dos ficheiros têm de ser diferentes."));
    }
    if k1.unicode_len() == 0 && k2.unicode_len() == 0 {
        return Err(String::from_str("Introduza pelo menos uma chave."));
    }
    Ok(())
}

/// Turning the hardware factor on or off needs both keys.
pub fn check_both_keys(k1: &str, k2: &str) -> (r: Result<(), String>)
    ensures
        r is Ok <==> k1@.len() > 0 && k2@.len() > 0,
        r matches Err(e) ==> e@ == "K1 e K2 são obrigatórios."@,
{
    if k1.unicode_len() == 0 || k2.unicode_len() == 0 {
        Err(String::from_str("K1 e K2 são obrigatórios."))
    } else {
        Ok(())
    }
}

/// Where the hardware factor comes from: read from a file or hex text, or a
/// new one written to a file.
#[derive(PartialEq, Eq, Structural, Clone, Copy, Debug)]
pub enum KextSource {
    Read,
    New,
}

pub fn parse_kext_source(s: &str) -> (r: Result<KextSource, String>)
    ensures
        s@ == "file"@ || s@ == "hex"@ ==> r == Ok::<KextSource, String>(KextSource::Read),
        !(s@ == "file"@ || s@ == "hex"@) && s@ == "new"@ ==> r == Ok::<KextSource, String>(KextSource::New),
        !(s@ == "file"@ || s@ == "hex"@ || s@ == "new"@) ==> (r matches Err(e) && e@ == "Fonte de K_ext inválida."@),
{
    if str_eq(s, "file") || str_eq(s, "hex") {
        Ok(KextSource::Read)
    } else if str_eq(s, "new") {
        Ok(KextSource::New)
    } else {
        Err(String::from_str("Fonte de K_ext inválida."))
    }
}

} // verus!
