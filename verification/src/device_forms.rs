//! The device panel's forms: adding a device, the texts that carry a device
//! change while the master keys are asked for (new Argon2id costs, a new seed
//! nonce, a new salt), and the checks before removing a device.

use vstd::prelude::*;
use crate::text::{trim, trim_chars, chars_of, str_eq, push_str, strip_leading, strip_leading_chars, string_from_chars};
use crate::number::{parse_uint, parse_uint_chars, u32_max, dec, push_dec, lemma_parse_bounded, lemma_parse_dec, lemma_dec_digits};
use crate::ids::{uuid_text, uuid_parse, parse_uuid, uuid_string, lemma_uuid_text};
use crate::confirm::{head, tail, split_at_colon, colon_at};
use crate::helpers::bounded_parse;
use crate::session_forms::parse_manual_argon2;
use crate::tutorial::Argon2Costs;
use crate::login::{read_32_bytes, bytes32_spec, file_view};

verus! {

/// The add-device form: a name that is not blank, then the Argon2id costs.
pub fn check_add_device(name: &str, m: &str, t: &str, p: &str) -> (r: Result<Argon2Costs, String>)
    ensures
        trim(name@).len() == 0 ==> (r matches Err(e) && e@ == "O nome não pode estar vazio."@),
        trim(name@).len() > 0 ==> match (bounded_parse(m@, 65536), bounded_parse(t@, 3), bounded_parse(p@, 4)) {
            (Err(e), _, _) => r matches Err(x) && x@ == e,
            (Ok(_), Err(e), _) => r matches Err(x) && x@ == e,
            (Ok(_), Ok(_), Err(e)) => r matches Err(x) && x@ == e,
            (Ok(a), Ok(b), Ok(c)) => r matches Ok(k) && k.m as nat == a && k.t as nat == b && k.p as nat
                == c,
        },
{
    if trim_chars(&chars_of(name)).len() == 0 {
        return Err(String::from_str("O nome não pode estar vazio."));
    }
    parse_manual_argon2(m, t, p)
}

/// A device can be removed only once it has no restrictions.
pub fn check_remove_device(restriction_count: usize) -> (r: Result<(), String>)
    ensures
        r is Ok <==> restriction_count == 0,
        r matches Err(e) ==> e@ == "Remova todas as restrições deste dispositivo antes de o apagar."@,
{
    if restriction_count > 0 {
        Err(String::from_str("Remova todas as restrições deste dispositivo antes de o apagar."))
    } else {
        Ok(())
    }
}

/// Whether a calibration's measured time fell in the target window.
pub fn within_window(duration_ms: i32, min_ms: i32, max_ms: i32) -> (r: bool)
    ensures
        r == (min_ms <= duration_ms && duration_ms <= max_ms),
{
    duration_ms >= min_ms && duration_ms <= max_ms
}

// ---------------------------------------------------------------------------
// New Argon2id costs

/// The text that carries new Argon2id costs for a device.
pub open spec fn edit_argon2_text(u: u128, m: nat, t: nat, p: nat) -> Seq<char> {
    "edit-argon2:"@ + uuid_text(u) + ":"@ + dec(m) + ":"@ + dec(t) + ":"@ + dec(p)
}

pub fn edit_argon2_action(u: u128, m: u32, t: u32, p: u32) -> (r: String)
    ensures
        r@ == edit_argon2_text(u, m as nat, t as nat, p as nat),
{
    let mut s = String::from_str("edit-argon2:");
    push_str(&mut s, uuid_string(u).as_str());
    push_str(&mut s, ":");
    push_dec(&mut s, m as u128);
    push_str(&mut s, ":");
    push_dec(&mut s, t as u128);
    push_str(&mut s, ":");
    push_dec(&mut s, p as u128);
    s
}

/// A number of the text, or its default when it is none.
pub open spec fn u32_or_default(s: Seq<char>, default: nat) -> nat {
    match parse_uint(s, 10, u32_max()) {
        Ok(n) => n,
        Err(_) => default,
    }
}

/// What the text of new costs reads as: the prefix taken off (as often as it
/// repeats), then four fields (the last holds the rest); the identifier must
/// read, each cost falls back to its floor.
pub open spec fn edit_argon2_spec(a: Seq<char>) -> Result<(u128, nat, nat, nat), Seq<char>> {
    let r = strip_leading(a, "edit-argon2:"@);
    match tail(r) {
        Some(r1) => match tail(r1) {
            Some(r2) => match tail(r2) {
                Some(r3) => match uuid_parse(head(r)) {
                    Some(u) => Ok(
                        (u, u32_or_default(head(r1), 65536), u32_or_default(head(r2), 3), u32_or_default(r3, 4)),
                    ),
                    None => Err("UUID inválido."@),
                },
                None => Err("Erro interno: parâmetros inválidos."@),
            },
            None => Err("Erro interno: parâmetros inválidos."@),
        },
        None => Err("Erro interno: parâmetros inválidos."@),
    }
}

fn u32_or(v: &Vec<char>, default: u32) -> (r: u32)
    ensures
        r as nat == u32_or_default(v@, default as nat),
{
    proof {
        lemma_parse_bounded(v@, 10, u32_max());
    }
    match parse_uint_chars(v, 10, 0xffff_ffff) {
        Ok(n) => n as u32,
        Err(_) => default,
    }
}

/// The text of `s` as a string slice's identifier, if it reads.
fn uuid_of(v: &Vec<char>) -> (r: Option<u128>)
    ensures
        r == uuid_parse(v@),
        forall|u: u128| v@ == uuid_text(u) ==> r == Some(u),
{
    let s = string_from_chars(v);
    parse_uuid(s.as_str())
}

/// Reads the text of new costs; the text of any costs reads back as them.
pub fn parse_edit_argon2(action: &str) -> (r: Result<(u128, u32, u32, u32), String>)
    ensures
        match edit_argon2_spec(action@) {
            Ok((u, m, t, p)) => r matches Ok(x) && x.0 == u && x.1 as nat == m && x.2 as nat == t && x.3 as nat
                == p,
            Err(e) => r matches Err(x) && x@ == e,
        },
        forall|u: u128, m: u32, t: u32, p: u32|
            action@ == edit_argon2_text(u, m as nat, t as nat, p as nat) ==> r == Ok::<
                (u128, u32, u32, u32),
                String,
            >((u, m, t, p)),
{
    let v = chars_of(action);
    let rest = strip_leading_chars(&v, &chars_of("edit-argon2:"));
    let (f0, r1) = split_at_colon(&rest);
    let id = uuid_of(&f0);
    let r = match r1 {
        None => Err(String::from_str("Erro interno: parâmetros inválidos.")),
        Some(r1) => {
            let (f1, r2) = split_at_colon(&r1);
            match r2 {
                None => Err(String::from_str("Erro interno: parâmetros inválidos.")),
                Some(r2) => {
                    let (f2, r3) = split_at_colon(&r2);
                    match r3 {
                        None => Err(String::from_str("Erro interno: parâmetros inválidos.")),
                        Some(r3) => match id {
                            None => Err(String::from_str("UUID inválido.")),
                            Some(u) => Ok((u, u32_or(&f1, 65536), u32_or(&f2, 3), u32_or(&r3, 4))),
                        },
                    }
                },
            }
        },
    };
    proof {
        assert forall|u: u128, m: u32, t: u32, p: u32|
            action@ == edit_argon2_text(u, m as nat, t as nat, p as nat) implies r == Ok::<
                (u128, u32, u32, u32),
                String,
            >((u, m, t, p)) by {
            lemma_edit_argon2_text(u, m as nat, t as nat, p as nat);
            lemma_parse_dec(m as nat, u32_max());
            lemma_parse_dec(t as nat, u32_max());
            lemma_parse_dec(p as nat, u32_max());
        }
    }
    r
}

/// Digits hold no colon, so the text of costs splits where it was joined.
proof fn lemma_digits_split(d: Seq<char>, r: Seq<char>)
    requires
        forall|j: int| 0 <= j < d.len() ==> '0' <= #[trigger] d[j] <= '9',
    ensures
        head(d + ":"@ + r) == d,
        tail(d + ":"@ + r) == Some(r),
        tail(d) is None,
{
    assert forall|j: int| 0 <= j < d.len() implies d[j] != ':' by {}
    crate::confirm::lemma_split_join(d, r);
}

proof fn lemma_edit_argon2_text(u: u128, m: nat, t: nat, p: nat)
    ensures
        ({
            let r = strip_leading(edit_argon2_text(u, m, t, p), "edit-argon2:"@);
            &&& r == uuid_text(u) + ":"@ + (dec(m) + ":"@ + (dec(t) + ":"@ + dec(p)))
            &&& head(r) == uuid_text(u)
            &&& tail(r) == Some(dec(m) + ":"@ + (dec(t) + ":"@ + dec(p)))
            &&& head(dec(m) + ":"@ + (dec(t) + ":"@ + dec(p))) == dec(m)
            &&& tail(dec(m) + ":"@ + (dec(t) + ":"@ + dec(p))) == Some(dec(t) + ":"@ + dec(p))
            &&& head(dec(t) + ":"@ + dec(p)) == dec(t)
            &&& tail(dec(t) + ":"@ + dec(p)) == Some(dec(p))
        }),
{
    reveal_strlit("edit-argon2:");
    let pre = "edit-argon2:"@;
    let body = uuid_text(u) + ":"@ + (dec(m) + ":"@ + (dec(t) + ":"@ + dec(p)));
    let s = edit_argon2_text(u, m, t, p);
    assert(s =~= pre + body);
    lemma_uuid_text(u);
    assert(s.take(pre.len() as int) =~= pre);
    assert(s.skip(pre.len() as int) =~= body);
    assert(!(pre.len() <= body.len() && body.take(pre.len() as int) == pre)) by {
        assert(pre[11] == ':');
        assert(body[11] != ':');
        if pre.len() <= body.len() {
            assert(body.take(pre.len() as int)[11] == body[11]);
        }
    }
    assert(strip_leading(body, pre) == body);
    crate::confirm::lemma_split_join(uuid_text(u), dec(m) + ":"@ + (dec(t) + ":"@ + dec(p)));
    lemma_dec_digits(m);
    lemma_dec_digits(t);
    lemma_dec_digits(p);
    lemma_digits_split(dec(m), dec(t) + ":"@ + dec(p));
    lemma_digits_split(dec(t), dec(p));
}

// ---------------------------------------------------------------------------
// New nonce and new salt

/// The text that carries a request for a new seed nonce.
pub open spec fn edit_nonce_text(u: u128, nonce: Seq<char>) -> Seq<char> {
    "edit-nonce:"@ + uuid_text(u) + ":"@ + nonce
}

pub fn edit_nonce_action(u: u128, nonce: &str) -> (r: String)
    ensures
        r@ == edit_nonce_text(u, nonce@),
{
    let mut s = String::from_str("edit-nonce:");
    push_str(&mut s, uuid_string(u).as_str());
    push_str(&mut s, ":");
    push_str(&mut s, nonce);
    s
}

/// What the text of a new nonce reads as: an identifier, then the rest.
pub open spec fn edit_nonce_spec(a: Seq<char>) -> Result<u128, Seq<char>> {
    let r = strip_leading(a, "edit-nonce:"@);
    match tail(r) {
        Some(_) => match uuid_parse(head(r)) {
            Some(u) => Ok(u),
            None => Err("UUID inválido."@),
        },
        None => Err("Erro interno: parâmetros inválidos."@),
    }
}

/// The prefix of a request is taken off once: an identifier's text cannot
/// start with it, since it holds no colon.
proof fn lemma_prefix_once(pre: Seq<char>, u: u128, rest: Seq<char>)
    requires
        pre.len() > 0,
        pre.len() <= 36,
        pre.last() == ':',
    ensures
        strip_leading(pre + uuid_text(u) + rest, pre) == uuid_text(u) + rest,
{
    lemma_uuid_text(u);
    let body = uuid_text(u) + rest;
    let s = pre + uuid_text(u) + rest;
    assert(s =~= pre + body);
    assert(s.take(pre.len() as int) =~= pre);
    assert(s.skip(pre.len() as int) =~= body);
    let k = pre.len() - 1;
    assert(pre[k] == ':');
    assert(!(pre.len() <= body.len() && body.take(pre.len() as int) == pre)) by {
        assert(body[k] == uuid_text(u)[k]);
        assert(uuid_text(u)[k] != ':');
        if pre.len() <= body.len() && body.take(pre.len() as int) == pre {
            assert(body.take(pre.len() as int)[k] == body[k]);
        }
    }
    assert(strip_leading(body, pre) == body);
    assert(strip_leading(s, pre) == strip_leading(s.skip(pre.len() as int), pre));
}

/// Reads the text of a new nonce; the text of any request reads back as its
/// identifier.
pub fn parse_edit_nonce(action: &str) -> (r: Result<u128, String>)
    ensures
        match edit_nonce_spec(action@) {
            Ok(u) => r == Ok::<u128, String>(u),
            Err(e) => r matches Err(x) && x@ == e,
        },
        forall|u: u128, nonce: Seq<char>| action@ == edit_nonce_text(u, nonce) ==> r == Ok::<u128, String>(u),
{
    let v = chars_of(action);
    let rest = strip_leading_chars(&v, &chars_of("edit-nonce:"));
    let (f0, r1) = split_at_colon(&rest);
    let r = match r1 {
        None => Err(String::from_str("Erro interno: parâmetros inválidos.")),
        Some(_) => match uuid_of(&f0) {
            Some(u) => Ok(u),
            None => Err(String::from_str("UUID inválido.")),
        },
    };
    proof {
        assert forall|u: u128, nonce: Seq<char>| action@ == edit_nonce_text(u, nonce) implies r == Ok::<
            u128,
            String,
        >(u) by {
            reveal_strlit("edit-nonce:");
            assert("edit-nonce:"@.len() == 11);
            assert(edit_nonce_text(u, nonce) =~= "edit-nonce:"@ + uuid_text(u) + (":"@ + nonce));
            lemma_prefix_once("edit-nonce:"@, u, ":"@ + nonce);
            assert(uuid_text(u) + (":"@ + nonce) =~= uuid_text(u) + ":"@ + nonce);
            lemma_uuid_text(u);
            crate::confirm::lemma_split_join(uuid_text(u), nonce);
        }
    }
    r
}

/// The text that carries a request for a new device salt.
pub open spec fn regenerate_salt_text(u: u128) -> Seq<char> {
    "regenerate-salt:"@ + uuid_text(u)
}

pub fn regenerate_salt_action(u: u128) -> (r: String)
    ensures
        r@ == regenerate_salt_text(u),
{
    let mut s = String::from_str("regenerate-salt:");
    push_str(&mut s, uuid_string(u).as_str());
    s
}

/// What the text of a new salt reads as: the identifier after the prefix.
pub open spec fn regenerate_salt_spec(a: Seq<char>) -> Option<u128> {
    uuid_parse(strip_leading(a, "regenerate-salt:"@))
}

/// Reads the text of a new salt; the text of any request reads back as its
/// identifier.
pub fn parse_regenerate_salt(action: &str) -> (r: Result<u128, String>)
    ensures
        match regenerate_salt_spec(action@) {
            Some(u) => r == Ok::<u128, String>(u),
            None => r matches Err(x) && x@ == "UUID inválido."@,
        },
        forall|u: u128| action@ == regenerate_salt_text(u) ==> r == Ok::<u128, String>(u),
{
    let v = chars_of(action);
    let rest = strip_leading_chars(&v, &chars_of("regenerate-salt:"));
    let r = match uuid_of(&rest) {
        Some(u) => Ok(u),
        None => Err(String::from_str("UUID inválido.")),
    };
    proof {
        assert forall|u: u128| action@ == regenerate_salt_text(u) implies r == Ok::<u128, String>(u) by {
            reveal_strlit("regenerate-salt:");
            assert("regenerate-salt:"@.len() == 16);
            assert(regenerate_salt_text(u) =~= "regenerate-salt:"@ + uuid_text(u) + seq![]);
            lemma_prefix_once("regenerate-salt:"@, u, seq![]);
            assert(uuid_text(u) + seq![] =~= uuid_text(u));
        }
    }
    r
}

// ---------------------------------------------------------------------------
// A new device's salt and seed

/// Where a new device's salt comes from.
pub enum SaltChoice {
    /// A fresh random salt.
    Generate,
    /// The 32 bytes given.
    Given(Vec<u8>),
}

pub ghost enum SaltChoiceView {
    Generate,
    Given(Seq<u8>),
}

pub open spec fn salt_choice_view(r: Result<SaltChoice, String>) -> Result<SaltChoiceView, Seq<char>> {
    match r {
        Ok(SaltChoice::Generate) => Ok(SaltChoiceView::Generate),
        Ok(SaltChoice::Given(b)) => Ok(SaltChoiceView::Given(b@)),
        Err(e) => Err(e@),
    }
}

/// The salt field: empty asks for a fresh salt; otherwise a 32-byte value
/// (a file or hexadecimal), else the reason it is refused.
pub open spec fn salt_choice_spec(input: Seq<char>, file: Option<Seq<u8>>) -> Result<SaltChoiceView, Seq<char>> {
    if input.len() == 0 {
        Ok(SaltChoiceView::Generate)
    } else {
        match bytes32_spec(input, file) {
            Ok(b) => Ok(SaltChoiceView::Given(b)),
            Err(e) => Err("Salt inválido: "@ + e),
        }
    }
}

/// Reads the salt field of the new-device form; `file` holds the contents
/// of the file it names, where one could be read.
pub fn salt_choice(input: &str, file: Option<Vec<u8>>) -> (r: Result<SaltChoice, String>)
    ensures
        salt_choice_view(r) == salt_choice_spec(input@, file_view(file)),
{
    if input.unicode_len() == 0 {
        return Ok(SaltChoice::Generate);
    }
    match read_32_bytes(input, file) {
        Ok(b) => Ok(SaltChoice::Given(b)),
        Err(e) => {
            let mut m = String::from_str("Salt inválido: ");
            push_str(&mut m, e.as_str());
            Err(m)
        },
    }
}

/// Where a new device's seed comes from.
pub enum SeedChoice {
    /// A fresh random seed.
    Random,
    /// The 32 bytes given in the clear.
    Given(Vec<u8>),
    /// An encrypted seed envelope, as text (or the path of a file holding
    /// it), to be checked with the keys.
    Envelope(String),
}

pub ghost enum SeedChoiceView {
    Random,
    Given(Seq<u8>),
    Envelope(Seq<char>),
}

pub open spec fn seed_choice_view(r: Result<SeedChoice, String>) -> Result<SeedChoiceView, Seq<char>> {
    match r {
        Ok(SeedChoice::Random) => Ok(SeedChoiceView::Random),
        Ok(SeedChoice::Given(b)) => Ok(SeedChoiceView::Given(b@)),
        Ok(SeedChoice::Envelope(t)) => Ok(SeedChoiceView::Envelope(t@)),
        Err(e) => Err(e@),
    }
}

/// The seed fields: the source (`random`, `plaintext` or `encrypted`) and
/// the value that goes with it.
pub open spec fn seed_choice_spec(source: Seq<char>, value: Seq<char>, file: Option<Seq<u8>>) -> Result<SeedChoiceView, Seq<char>> {
    if source == "random"@ {
        Ok(SeedChoiceView::Random)
    } else if source == "plaintext"@ {
        match bytes32_spec(value, file) {
            Ok(b) => Ok(SeedChoiceView::Given(b)),
            Err(e) => Err("Seed inválida: "@ + e),
        }
    } else if source == "encrypted"@ {
        Ok(SeedChoiceView::Envelope(value))
    } else {
        Err("Fonte de seed inválida."@)
    }
}

/// Reads the seed fields of the new-device form; `file` holds the contents
/// of the file that the value names, where one could be read.
pub fn seed_choice(source: &str, value: &str, file: Option<Vec<u8>>) -> (r: Result<SeedChoice, String>)
    ensures
        seed_choice_view(r) == seed_choice_spec(source@, value@, file_view(file)),
{
    if str_eq(source, "random") {
        Ok(SeedChoice::Random)
    } else if str_eq(source, "plaintext") {
        match read_32_bytes(value, file) {
            Ok(b) => Ok(SeedChoice::Given(b)),
            Err(e) => {
                let mut m = String::from_str("Seed inválida: ");
                push_str(&mut m, e.as_str());
                Err(m)
            },
        }
    } else if str_eq(source, "encrypted") {
        Ok(SeedChoice::Envelope(String::from_str(value)))
    } else {
        Err(String::from_str("Fonte de seed inválida."))
    }
}

// ---------------------------------------------------------------------------
// The device's figures

/// The sum of the counts.
pub open spec fn total(s: Seq<usize>) -> nat
    decreases s.len(),
{
    if s.len() == 0 {
        0
    } else {
        total(s.drop_last()) + s.last() as nat
    }
}

/// How many of the static passwords are not compromised.
pub open spec fn kept(s: Seq<bool>) -> nat
    decreases s.len(),
{
    if s.len() == 0 {
        0
    } else {
        kept(s.drop_last()) + if s.last() {
            0nat
        } else {
            1nat
        }
    }
}

proof fn lemma_total_prefix(s: Seq<usize>, i: int)
    requires
        0 <= i <= s.len(),
    ensures
        total(s.take(i)) <= total(s),
    decreases s.len() - i,
{
    if i < s.len() {
        lemma_total_prefix(s, i + 1);
        assert(s.take(i + 1).drop_last() =~= s.take(i));
    } else {
        assert(s.take(i) =~= s);
    }
}

proof fn lemma_kept_bound(s: Seq<bool>)
    ensures
        kept(s) <= s.len(),
    decreases s.len(),
{
    if s.len() > 0 {
        lemma_kept_bound(s.drop_last());
    }
}

/// What the device list shows of a device besides its own fields.
#[derive(PartialEq, Eq, Structural, Clone, Copy, Debug)]
pub struct DeviceCounts {
    pub restriction_count: usize,
    pub domain_count: usize,
    pub static_count: usize,
}

/// The device's figures from the number of domains of each of its
/// restrictions and whether each of its static passwords is compromised:
/// its restrictions, all their domains, and its static passwords that are
/// not compromised.
pub fn device_counts(domains_per_restriction: &Vec<usize>, compromised: &Vec<bool>) -> (r: DeviceCounts)
    requires
        total(domains_per_restriction@) <= usize::MAX,
    ensures
        r.restriction_count == domains_per_restriction.len(),
        r.domain_count == total(domains_per_restriction@),
        r.static_count == kept(compromised@),
{
    let mut domains: usize = 0;
    let mut i: usize = 0;
    while i < domains_per_restriction.len()
        invariant
            i <= domains_per_restriction.len(),
            domains == total(domains_per_restriction@.take(i as int)),
            total(domains_per_restriction@) <= usize::MAX,
        decreases domains_per_restriction.len() - i,
    {
        proof {
            assert(domains_per_restriction@.take(i + 1).drop_last() =~= domains_per_restriction@.take(i as int));
            lemma_total_prefix(domains_per_restriction@, i + 1);
        }
        domains = domains + domains_per_restriction[i];
        i = i + 1;
    }
    assert(domains_per_restriction@.take(i as int) =~= domains_per_restriction@);
    let mut statics: usize = 0;
    let mut j: usize = 0;
    while j < compromised.len()
        invariant
            j <= compromised.len(),
            statics == kept(compromised@.take(j as int)),
        decreases compromised.len() - j,
    {
        proof {
            assert(compromised@.take(j + 1).drop_last() =~= compromised@.take(j as int));
            lemma_kept_bound(compromised@.take(j as int));
        }
        if !compromised[j] {
            statics = statics + 1;
        }
        j = j + 1;
    }
    assert(compromised@.take(j as int) =~= compromised@);
    DeviceCounts { restriction_count: domains_per_restriction.len(), domain_count: domains, static_count: statics }
}

} // verus!
