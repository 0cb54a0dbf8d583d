//! The benchmark page: the costs typed to time one Argon2id run, how the
//! stored benchmark settings are shown, and how a calibration run compares
//! with its target window.

use vstd::prelude::*;
use crate::text::{chars_of, push_str};
use crate::number::{parse_uint, parse_uint_chars, u32_max, dec, push_dec, dec_string, lemma_parse_bounded};
use crate::model::{MIN_M_COST_KIB, MIN_T_COST, MIN_P_COST};
use crate::tutorial::Argon2Costs;
use crate::session_forms::{Comparison, compare_to_window};
use crate::local_settings::{LocalSettings, opt_u32_view, opt_usize_view};

verus! {

/// A cost typed for a timing run, read as it stands (no trimming): the
/// number when it reads, else the floor, and never below the floor.
pub open spec fn cost_or_floor(s: Seq<char>, floor: nat) -> nat {
    match parse_uint(s, 10, u32_max()) {
        Ok(n) => if n < floor {
            floor
        } else {
            n
        },
        Err(_) => floor,
    }
}

fn cost_at_least(s: &str, floor: u32) -> (r: u32)
    ensures
        r as nat == cost_or_floor(s@, floor as nat),
{
    let v = chars_of(s);
    proof {
        lemma_parse_bounded(v@, 10, u32_max());
    }
    match parse_uint_chars(&v, 10, 0xffff_ffff) {
        Ok(n) => if n < floor as u128 {
            floor
        } else {
            n as u32
        },
        Err(_) => floor,
    }
}

/// The costs of a single timing run, from the three fields of the
/// calibration modal.
pub fn verify_costs(m: &str, t: &str, p: &str) -> (r: Argon2Costs)
    ensures
        r.m as nat == cost_or_floor(m@, MIN_M_COST_KIB as nat),
        r.t as nat == cost_or_floor(t@, MIN_T_COST as nat),
        r.p as nat == cost_or_floor(p@, MIN_P_COST as nat),
{
    Argon2Costs {
        m: cost_at_least(m, MIN_M_COST_KIB),
        t: cost_at_least(t, MIN_T_COST),
        p: cost_at_least(p, MIN_P_COST),
    }
}

/// A stored setting as the benchmark page shows it: the number with its
/// unit, or the text that says what is used in its place.
pub open spec fn shown_or(v: Option<nat>, unit: Seq<char>, fallback: Seq<char>) -> Seq<char> {
    match v {
        Some(n) => dec(n) + unit,
        None => fallback,
    }
}

/// The benchmark page's summary of the settings.
pub struct BenchmarkConfigView {
    pub min_ms: String,
    pub max_ms: String,
    pub argon2_m: String,
    pub argon2_t: String,
    pub argon2_p: String,
    pub devices: String,
    pub domains: String,
    pub static_passwords: String,
    pub k1_len: String,
    pub k2_len: String,
}

fn shown_number(v: Option<u128>, unit: &str, fallback: String) -> (r: String)
    ensures
        r@ == shown_or(
            match v {
                Some(n) => Some(n as nat),
                None => None,
            },
            unit@,
            fallback@,
        ),
{
    match v {
        Some(n) => {
            let mut s = dec_string(n);
            push_str(&mut s, unit);
            s
        },
        None => fallback,
    }
}

fn floor_text(floor: u32, unit: &str) -> (r: String)
    ensures
        r@ == dec(floor as nat) + unit@,
{
    let mut s = dec_string(floor as u128);
    push_str(&mut s, unit);
    s
}

fn widen32(v: Option<u32>) -> (r: Option<u128>)
    ensures
        match v {
            Some(n) => r == Some(n as u128),
            None => r is None,
        },
{
    match v {
        Some(n) => Some(n as u128),
        None => None,
    }
}

fn widen_size(v: Option<usize>) -> (r: Option<u128>)
    ensures
        match v {
            Some(n) => r == Some(n as u128),
            None => r is None,
        },
{
    match v {
        Some(n) => Some(n as u128),
        None => None,
    }
}

/// The summary shown on the benchmark page: the calibration window (the
/// system's window where none is stored), the Argon2id costs (their floors,
/// marked as such, where unset) and the export sizes (2 devices, 100 domains
/// and 100 static passwords each, keys of 12, marked as defaults, where
/// unset).
pub fn benchmark_config_view(ls: &LocalSettings, system_min_ms: u128, system_max_ms: u128) -> (r: BenchmarkConfigView)
    ensures
        r.min_ms@ == dec(
            match ls.calibration_min_target_ms {
                Some(v) => v as nat,
                None => system_min_ms as nat,
            },
        ),
        r.max_ms@ == dec(
            match ls.calibration_max_target_ms {
                Some(v) => v as nat,
                None => system_max_ms as nat,
            },
        ),
        r.argon2_m@ == shown_or(
            opt_u32_view(ls.benchmark_m_cost_kib),
            " KiB"@,
            dec(MIN_M_COST_KIB as nat) + " KiB (mínimo)"@,
        ),
        r.argon2_t@ == shown_or(opt_u32_view(ls.benchmark_t_cost), seq![], dec(MIN_T_COST as nat) + " (mínimo)"@),
        r.argon2_p@ == shown_or(opt_u32_view(ls.benchmark_p_cost), seq![], dec(MIN_P_COST as nat) + " (mínimo)"@),
        r.devices@ == shown_or(opt_usize_view(ls.benchmark_device_count), seq![], "2 (padrão)"@),
        r.domains@ == shown_or(opt_usize_view(ls.benchmark_domains_per_device), seq![], "100 (padrão)"@),
        r.static_passwords@ == shown_or(opt_usize_view(ls.benchmark_static_per_device), seq![], "100 (padrão)"@),
        r.k1_len@ == shown_or(opt_usize_view(ls.benchmark_k1_len), seq![], "12 (padrão)"@),
        r.k2_len@ == shown_or(opt_usize_view(ls.benchmark_k2_len), seq![], "12 (padrão)"@),
{
    let min_ms = match ls.calibration_min_target_ms {
        Some(v) => dec_string(v),
        None => dec_string(system_min_ms),
    };
    let max_ms = match ls.calibration_max_target_ms {
        Some(v) => dec_string(v),
        None => dec_string(system_max_ms),
    };
    proof {
        assert(""@ =~= seq![]) by {
            reveal_strlit("");
        }
    }
    BenchmarkConfigView {
        min_ms,
        max_ms,
        argon2_m: shown_number(widen32(ls.benchmark_m_cost_kib), " KiB", floor_text(MIN_M_COST_KIB, " KiB (mínimo)")),
        argon2_t: shown_number(widen32(ls.benchmark_t_cost), "", floor_text(MIN_T_COST, " (mínimo)")),
        argon2_p: shown_number(widen32(ls.benchmark_p_cost), "", floor_text(MIN_P_COST, " (mínimo)")),
        devices: shown_number(widen_size(ls.benchmark_device_count), "", String::from_str("2 (padrão)")),
        domains: shown_number(widen_size(ls.benchmark_domains_per_device), "", String::from_str("100 (padrão)")),
        static_passwords: shown_number(
            widen_size(ls.benchmark_static_per_device),
            "",
            String::from_str("100 (padrão)"),
        ),
        k1_len: shown_number(widen_size(ls.benchmark_k1_len), "", String::from_str("12 (padrão)")),
        k2_len: shown_number(widen_size(ls.benchmark_k2_len), "", String::from_str("12 (padrão)")),
    }
}

/// How far a measured time lies outside the target window; 0 inside it.
pub open spec fn distance_to_window(ms: int, min: int, max: int) -> int {
    if ms < min {
        min - ms
    } else if ms > max {
        ms - max
    } else {
        0
    }
}

/// What the benchmark page shows of a calibration run: how the Argon2id
/// time compares with the window, and by how many milliseconds it misses it.
#[derive(PartialEq, Eq, Structural, Clone, Copy, Debug)]
pub struct CalibrationOutcome {
    pub comparison: Comparison,
    pub diff_ms: i32,
}

/// Compares a run's time with the target window, taken in whole
/// milliseconds as the page shows them.
pub fn calibration_outcome(argon2_ms: i32, min_ms: i32, max_ms: i32) -> (r: CalibrationOutcome)
    requires
        i32::MIN <= distance_to_window(argon2_ms as int, min_ms as int, max_ms as int) <= i32::MAX,
    ensures
        r.comparison == (if argon2_ms < min_ms {
            Comparison::Below
        } else if argon2_ms > max_ms {
            Comparison::Above
        } else {
            Comparison::Within
        }),
        r.diff_ms as int == distance_to_window(argon2_ms as int, min_ms as int, max_ms as int),
{
    let comparison = compare_to_window(argon2_ms, min_ms, max_ms);
    let diff_ms = if argon2_ms < min_ms {
        min_ms - argon2_ms
    } else if argon2_ms > max_ms {
        argon2_ms - max_ms
    } else {
        0
    };
    CalibrationOutcome { comparison, diff_ms }
}

/// The notice after a calibration run.
pub open spec fn calibration_done_text(m: nat, t: nat, p: nat, ms: nat) -> Seq<char> {
    "Calibração concluída: m="@ + dec(m) + " KiB t="@ + dec(t) + " p="@ + dec(p) + " ("@ + dec(ms) + "ms)"@
}

pub fn calibration_done_message(costs: Argon2Costs, ms: u32) -> (r: String)
    ensures
        r@ == calibration_done_text(costs.m as nat, costs.t as nat, costs.p as nat, ms as nat),
{
    let mut s = String::from_str("Calibração concluída: m=");
    push_dec(&mut s, costs.m as u128);
    push_str(&mut s, " KiB t=");
    push_dec(&mut s, costs.t as u128);
    push_str(&mut s, " p=");
    push_dec(&mut s, costs.p as u128);
    push_str(&mut s, " (");
    push_dec(&mut s, ms as u128);
    push_str(&mut s, "ms)");
    s
}

} // verus!
