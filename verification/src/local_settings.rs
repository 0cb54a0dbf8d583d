//! The local settings: the calibration target window, the Argon2id costs and
//! export sizes of the benchmark, and how the stored settings are shown.

use vstd::prelude::*;
use crate::text::{trim, trim_chars, chars_of};
use crate::number::{parse_uint, parse_uint_chars, u32_max, u128_max, usize_max, dec, dec_string, lemma_parse_bounded};
use crate::model::{MIN_M_COST_KIB, MIN_T_COST, MIN_P_COST};

verus! {

/// The calibration window typed by the user: two whole numbers of
/// milliseconds, the minimum below the maximum by at least 200.
pub open spec fn calibration_window_spec(min: Seq<char>, max: Seq<char>) -> Result<(nat, nat), Seq<char>> {
    match parse_uint(trim(min), 10, u128_max()) {
        Err(_) => Err("Mínimo inválido - introduza um número inteiro positivo."@),
        Ok(a) => match parse_uint(trim(max), 10, u128_max()) {
            Err(_) => Err("Máximo inválido - introduza um número inteiro positivo."@),
            Ok(b) => if a >= b {
                Err("O mínimo deve ser inferior ao máximo."@)
            } else if b - a < 200 {
                Err("A diferença entre mínimo e máximo deve ser de pelo menos 200 ms."@)
            } else {
                Ok((a, b))
            },
        },
    }
}

pub fn check_calibration_window(min: &str, max: &str) -> (r: Result<(u128, u128), String>)
    ensures
        match calibration_window_spec(min@, max@) {
            Ok((a, b)) => r matches Ok(w) && w.0 as nat == a && w.1 as nat == b,
            Err(e) => r matches Err(x) && x@ == e,
        },
{
    let a_chars = trim_chars(&chars_of(min));
    proof {
        lemma_parse_bounded(a_chars@, 10, u128_max());
    }
    let a = match parse_uint_chars(&a_chars, 10, u128::MAX) {
        Ok(v) => v,
        Err(_) => {
            return Err(String::from_str("Mínimo inválido - introduza um número inteiro positivo."));
        },
    };
    let b_chars = trim_chars(&chars_of(max));
    proof {
        lemma_parse_bounded(b_chars@, 10, u128_max());
    }
    let b = match parse_uint_chars(&b_chars, 10, u128::MAX) {
        Ok(v) => v,
        Err(_) => {
            return Err(String::from_str("Máximo inválido - introduza um número inteiro positivo."));
        },
    };
    if a >= b {
        return Err(String::from_str("O mínimo deve ser inferior ao máximo."));
    }
    if b - a < 200 {
        return Err(String::from_str("A diferença entre mínimo e máximo deve ser de pelo menos 200 ms."));
    }
    Ok((a, b))
}

/// An optional number: blank means none; a number that does not read is
/// none too.
pub open spec fn optional_number(s: Seq<char>, max: nat) -> Option<nat> {
    if trim(s).len() == 0 {
        None
    } else {
        match parse_uint(trim(s), 10, max) {
            Ok(n) => Some(n),
            Err(_) => None,
        }
    }
}

pub fn parse_optional_u32(s: &str) -> (r: Option<u32>)
    ensures
        match r {
            Some(n) => optional_number(s@, u32_max()) == Some(n as nat),
            None => optional_number(s@, u32_max()) is None,
        },
{
    let t = trim_chars(&chars_of(s));
    if t.len() == 0 {
        return None;
    }
    proof {
        lemma_parse_bounded(t@, 10, u32_max());
    }
    match parse_uint_chars(&t, 10, 0xffff_ffff) {
        Ok(n) => Some(n as u32),
        Err(_) => None,
    }
}

pub fn parse_optional_usize(s: &str) -> (r: Option<usize>)
    ensures
        match r {
            Some(n) => optional_number(s@, usize_max()) == Some(n as nat),
            None => optional_number(s@, usize_max()) is None,
        },
{
    let t = trim_chars(&chars_of(s));
    if t.len() == 0 {
        return None;
    }
    proof {
        lemma_parse_bounded(t@, 10, usize_max());
    }
    match parse_uint_chars(&t, 10, usize::MAX as u128) {
        Ok(n) => Some(n as usize),
        Err(_) => None,
    }
}

pub open spec fn at_least(v: Option<nat>, floor: nat) -> Option<nat> {
    match v {
        Some(n) => Some(if n < floor {
            floor
        } else {
            n
        }),
        None => None,
    }
}

pub open spec fn opt_u32_view(v: Option<u32>) -> Option<nat> {
    match v {
        Some(n) => Some(n as nat),
        None => None,
    }
}

pub open spec fn opt_usize_view(v: Option<usize>) -> Option<nat> {
    match v {
        Some(n) => Some(n as nat),
        None => None,
    }
}

fn u32_at_least(v: Option<u32>, floor: u32) -> (r: Option<u32>)
    ensures
        opt_u32_view(r) == at_least(opt_u32_view(v), floor as nat),
{
    match v {
        Some(n) => Some(if n < floor {
            floor
        } else {
            n
        }),
        None => None,
    }
}

fn usize_at_least(v: Option<usize>, floor: usize) -> (r: Option<usize>)
    ensures
        opt_usize_view(r) == at_least(opt_usize_view(v), floor as nat),
{
    match v {
        Some(n) => Some(if n < floor {
            floor
        } else {
            n
        }),
        None => None,
    }
}

/// The benchmark's Argon2id costs as typed: each optional, and raised to
/// its floor.
pub fn benchmark_argon2_inputs(m: &str, t: &str, p: &str) -> (r: (Option<u32>, Option<u32>, Option<u32>))
    ensures
        opt_u32_view(r.0) == at_least(optional_number(m@, u32_max()), MIN_M_COST_KIB as nat),
        opt_u32_view(r.1) == at_least(optional_number(t@, u32_max()), MIN_T_COST as nat),
        opt_u32_view(r.2) == at_least(optional_number(p@, u32_max()), MIN_P_COST as nat),
{
    (
        u32_at_least(parse_optional_u32(m), MIN_M_COST_KIB),
        u32_at_least(parse_optional_u32(t), MIN_T_COST),
        u32_at_least(parse_optional_u32(p), MIN_P_COST),
    )
}

/// The sizes of the benchmark's export as typed: each optional, at least 1.
pub fn benchmark_export_inputs(
    devices: &str,
    domains: &str,
    statics: &str,
    k1_len: &str,
    k2_len: &str,
) -> (r: (Option<usize>, Option<usize>, Option<usize>, Option<usize>, Option<usize>))
    ensures
        opt_usize_view(r.0) == at_least(optional_number(devices@, usize_max()), 1),
        opt_usize_view(r.1) == at_least(optional_number(domains@, usize_max()), 1),
        opt_usize_view(r.2) == at_least(optional_number(statics@, usize_max()), 1),
        opt_usize_view(r.3) == at_least(optional_number(k1_len@, usize_max()), 1),
        opt_usize_view(r.4) == at_least(optional_number(k2_len@, usize_max()), 1),
{
    (
        usize_at_least(parse_optional_usize(devices), 1),
        usize_at_least(parse_optional_usize(domains), 1),
        usize_at_least(parse_optional_usize(statics), 1),
        usize_at_least(parse_optional_usize(k1_len), 1),
        usize_at_least(parse_optional_usize(k2_len), 1),
    )
}

/// The stored local settings that the settings page shows.
pub struct LocalSettings {
    pub calibration_min_target_ms: Option<u128>,
    pub calibration_max_target_ms: Option<u128>,
    pub benchmark_m_cost_kib: Option<u32>,
    pub benchmark_t_cost: Option<u32>,
    pub benchmark_p_cost: Option<u32>,
    pub benchmark_device_count: Option<usize>,
    pub benchmark_domains_per_device: Option<usize>,
    pub benchmark_static_per_device: Option<usize>,
    pub benchmark_k1_len: Option<usize>,
    pub benchmark_k2_len: Option<usize>,
    pub wasm_browser_storage: bool,
}

/// The settings as the page shows them.
pub struct LocalStateItem {
    pub calibration_min_ms: String,
    pub calibration_max_ms: String,
    pub benchmark_m_cost: String,
    pub benchmark_t_cost: String,
    pub benchmark_p_cost: String,
    pub benchmark_device_count: String,
    pub benchmark_domains_per_device: String,
    pub benchmark_static_per_device: String,
    pub benchmark_k1_len: String,
    pub benchmark_k2_len: String,
    pub wasm_browser_storage: bool,
}

/// Benchmark export sizes used when none is stored.
pub const DEFAULT_DEVICE_COUNT: usize = 3;
pub const DEFAULT_DOMAINS_PER: usize = 10;
pub const DEFAULT_STATIC_PER: usize = 5;
pub const DEFAULT_K1_LEN: usize = 16;
pub const DEFAULT_K2_LEN: usize = 16;

/// A stored number, or blank.
pub open spec fn text_or_blank(v: Option<u128>) -> Seq<char> {
    match v {
        Some(n) => dec(n as nat),
        None => seq![],
    }
}

/// A stored number, or its default.
pub open spec fn text_or(v: Option<nat>, default: nat) -> Seq<char> {
    match v {
        Some(n) => dec(n),
        None => dec(default),
    }
}

fn blank_or_dec(v: Option<u128>) -> (r: String)
    ensures
        r@ == text_or_blank(v),
{
    match v {
        Some(n) => dec_string(n),
        None => String::new(),
    }
}

fn dec_or(v: Option<u128>, default: u128) -> (r: String)
    ensures
        r@ == text_or(
            match v {
                Some(n) => Some(n as nat),
                None => None,
            },
            default as nat,
        ),
{
    match v {
        Some(n) => dec_string(n),
        None => dec_string(default),
    }
}

fn widen_u32(v: Option<u32>) -> (r: Option<u128>)
    ensures
        match (r, v) {
            (Some(a), Some(b)) => a == b as u128,
            (None, None) => true,
            _ => false,
        },
{
    match v {
        Some(n) => Some(n as u128),
        None => None,
    }
}

fn widen_usize(v: Option<usize>) -> (r: Option<u128>)
    ensures
        match (r, v) {
            (Some(a), Some(b)) => a == b as u128,
            (None, None) => true,
            _ => false,
        },
{
    match v {
        Some(n) => Some(n as u128),
        None => None,
    }
}

/// The settings page: the calibration window (blank when the system's is
/// used), the benchmark costs (their floors when unset) and export sizes
/// (3 devices, 10 domains and 5 static passwords each, keys of 16).
pub fn build_local_state_item(ls: &LocalSettings) -> (r: LocalStateItem)
    ensures
        r.calibration_min_ms@ == text_or_blank(ls.calibration_min_target_ms),
        r.calibration_max_ms@ == text_or_blank(ls.calibration_max_target_ms),
        r.benchmark_m_cost@ == text_or(opt_u32_view(ls.benchmark_m_cost_kib), MIN_M_COST_KIB as nat),
        r.benchmark_t_cost@ == text_or(opt_u32_view(ls.benchmark_t_cost), MIN_T_COST as nat),
        r.benchmark_p_cost@ == text_or(opt_u32_view(ls.benchmark_p_cost), MIN_P_COST as nat),
        r.benchmark_device_count@ == text_or(opt_usize_view(ls.benchmark_device_count), 3),
        r.benchmark_domains_per_device@ == text_or(opt_usize_view(ls.benchmark_domains_per_device), 10),
        r.benchmark_static_per_device@ == text_or(opt_usize_view(ls.benchmark_static_per_device), 5),
        r.benchmark_k1_len@ == text_or(opt_usize_view(ls.benchmark_k1_len), 16),
        r.benchmark_k2_len@ == text_or(opt_usize_view(ls.benchmark_k2_len), 16),
        r.wasm_browser_storage == ls.wasm_browser_storage,
{
    LocalStateItem {
        calibration_min_ms: blank_or_dec(ls.calibration_min_target_ms),
        calibration_max_ms: blank_or_dec(ls.calibration_max_target_ms),
        benchmark_m_cost: dec_or(widen_u32(ls.benchmark_m_cost_kib), MIN_M_COST_KIB as u128),
        benchmark_t_cost: dec_or(widen_u32(ls.benchmark_t_cost), MIN_T_COST as u128),
        benchmark_p_cost: dec_or(widen_u32(ls.benchmark_p_cost), MIN_P_COST as u128),
        benchmark_device_count: dec_or(widen_usize(ls.benchmark_device_count), DEFAULT_DEVICE_COUNT as u128),
        benchmark_domains_per_device: dec_or(widen_usize(ls.benchmark_domains_per_device), DEFAULT_DOMAINS_PER as u128),
        benchmark_static_per_device: dec_or(widen_usize(ls.benchmark_static_per_device), DEFAULT_STATIC_PER as u128),
        benchmark_k1_len: dec_or(widen_usize(ls.benchmark_k1_len), DEFAULT_K1_LEN as u128),
        benchmark_k2_len: dec_or(widen_usize(ls.benchmark_k2_len), DEFAULT_K2_LEN as u128),
        wasm_browser_storage: ls.wasm_browser_storage,
    }
}

} // verus!
