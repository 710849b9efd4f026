//! The token-budget policy of the planner context: how much room tool memory
//! and the planning memory store get, how hard the context is compressed, and
//! the JSON limits used for each kind of tool output.
//!
//! Every formula works on bounded integers with saturating arithmetic; the
//! specifications below state each one over mathematical integers, with the
//! saturation written out.
use vstd::prelude::*;
use crate::agent::budget::JsonBudgetOptions;
use crate::agent::context::packing::{ContextCompressLevel, ContextPackBlockId};
use crate::json::{JsonValue, JsonView, field_u64};
use crate::text::str_eq;

verus! {

pub const PLANNER_CONTEXT_DEFAULT_TOKEN_BUDGET: usize = 6000;
pub const ADAPTIVE_RELAXED_MAX_MULTIPLIER: usize = 3;
pub const ADAPTIVE_MEDIUM_NUMERATOR: usize = 17;
pub const ADAPTIVE_MEDIUM_DENOMINATOR: usize = 20;
pub const ADAPTIVE_CRITICAL_NUMERATOR: usize = 3;
pub const ADAPTIVE_CRITICAL_DENOMINATOR: usize = 5;
pub const CONTEXT_USAGE_LIGHT_THRESHOLD_BPS: u64 = 7000;
pub const CONTEXT_USAGE_MEDIUM_THRESHOLD_BPS: u64 = 8500;
pub const CONTEXT_USAGE_CRITICAL_THRESHOLD_BPS: u64 = 9200;
pub const CONTEXT_PRESSURE_TIGHT_REMAINING_TOKENS: u64 = 8000;
pub const CONTEXT_PRESSURE_CRITICAL_REMAINING_TOKENS: u64 = 3000;
pub const TOOL_MEMORY_PROJECTION_MIN_TOKENS: usize = 1200;
pub const TOOL_MEMORY_PROJECTION_DEFAULT_TOKENS: usize = 2400;
pub const TOOL_MEMORY_PROJECTION_MAX_TOKENS: usize = 6000;
pub const TOOL_MEMORY_PROJECTION_ABS_MIN_TOKENS: usize = 1200;
pub const TOOL_MEMORY_PROJECTION_ABS_MAX_TOKENS: usize = 64000;
pub const TOOL_MEMORY_PROJECTION_SOFT_LIMIT_MIN_RATIO_BPS: u64 = 2000;
pub const TOOL_MEMORY_PROJECTION_SOFT_LIMIT_MAX_RATIO_BPS: u64 = 4000;
pub const TOOL_MEMORY_PROJECTION_TIGHT_THRESHOLD_BPS: u64 = 2000;
pub const TOOL_MEMORY_PROJECTION_RELAXED_THRESHOLD_BPS: u64 = 6000;
pub const TOOL_MEMORY_REMAINING_ABS_MIN: u64 = 4000;
pub const TOOL_MEMORY_REMAINING_ABS_MAX: u64 = 24000;
pub const TOOL_MEMORY_MAX_LIST_INVENTORY_ENTRIES: usize = 2;
pub const TOOL_MEMORY_MAX_CATALOG_ENTRIES: usize = 6;
pub const TOOL_MEMORY_MAX_DETAIL_ENTRIES: usize = 6;
pub const TOOL_MEMORY_MAX_GUIDE_ENTRIES: usize = 4;
pub const PLANNING_MEMORY_STORE_DEFAULT_MAX_ENTRIES: usize = 48;
pub const PLANNING_MEMORY_STORE_DEFAULT_MAX_ENTRY_CHARS: usize = 8000;
pub const PLANNING_MEMORY_STORE_DEFAULT_MAX_TOTAL_CHARS: usize = 120000;

/// The namespace of the budget policy.
#[derive(Clone, Copy)]
pub struct ToolMemoryBudgetPolicy;

/// Limits of the planning memory store.
#[derive(Clone, Copy, PartialEq, Eq, Structural)]
pub struct PlanningMemoryStoreBudget {
    pub max_entries: usize,
    pub max_entry_chars: usize,
    pub max_total_chars: usize,
}

/// How many entries of each kind the tool memory projection keeps.
#[derive(Clone, Copy, PartialEq, Eq, Structural)]
pub struct ToolMemoryProjectionCaps {
    pub max_list_inventory_entries: usize,
    pub max_catalog_entries: usize,
    pub max_detail_entries: usize,
    pub max_guide_entries: usize,
}

#[derive(Clone, Copy, PartialEq, Eq, Structural)]
pub enum ToolDispatchCompactProfile {
    Tight,
    Balanced,
    Relaxed,
}

#[derive(Clone, Copy, PartialEq, Eq, Structural)]
pub enum ToolDispatchKind {
    CandidateDetail,
    MissingFacts,
    GuideSchemaFull,
    GuideSchemaDigest,
    GuideTopic,
    CheckSegment,
}

#[derive(Clone, Copy)]
pub struct ContextCompactionPolicy {
    pub final_compact_options: JsonBudgetOptions,
}

#[derive(Clone, Copy)]
pub struct ContextPackBlockRecipe {
    pub summary_compact_options: Option<JsonBudgetOptions>,
    pub preferred_level: ContextCompressLevel,
}

/// How close the context is to its limit.
#[derive(Clone, Copy, PartialEq, Eq, Structural)]
pub enum ContextPressureMode {
    Normal,
    Light,
    Medium,
    Critical,
}

// ---------------------------------------------------------------------------
// Saturating arithmetic
// ---------------------------------------------------------------------------

pub open spec fn sat_mul(a: int, b: int, max: int) -> int {
    if a * b > max {
        max
    } else {
        a * b
    }
}

pub open spec fn sat_sub(a: int, b: int) -> int {
    if a >= b {
        a - b
    } else {
        0
    }
}

pub open spec fn min_int(a: int, b: int) -> int {
    if a <= b {
        a
    } else {
        b
    }
}

pub open spec fn max_int(a: int, b: int) -> int {
    if a >= b {
        a
    } else {
        b
    }
}

/// `x.clamp(lo, hi)` for `lo <= hi`.
pub open spec fn clamp_int(x: int, lo: int, hi: int) -> int {
    max_int(lo, min_int(x, hi))
}

/// `u64::saturating_mul`.
pub fn sat_mul_u64(a: u64, b: u64) -> (r: u64)
    ensures
        r == sat_mul(a as int, b as int, u64::MAX as int),
{
    match a.checked_mul(b) {
        Some(x) => x,
        None => u64::MAX,
    }
}

/// `usize::saturating_mul`.
pub fn sat_mul_usize(a: usize, b: usize) -> (r: usize)
    ensures
        r == sat_mul(a as int, b as int, usize::MAX as int),
{
    match a.checked_mul(b) {
        Some(x) => x,
        None => usize::MAX,
    }
}

proof fn lemma_sat_mul_div_bound(a: int, b: int, max: int, d: int)
    requires
        a >= 0,
        0 <= b <= d,
        d > 0,
        max >= 0,
    ensures
        0 <= sat_mul(a, b, max) / d <= a,
{
    assert(a * b <= a * d) by (nonlinear_arith)
        requires
            a >= 0,
            0 <= b <= d,
    ;
    assert(0 <= a * b) by (nonlinear_arith)
        requires
            a >= 0,
            b >= 0,
    ;
    let m = sat_mul(a, b, max);
    assert(0 <= m <= a * d);
    assert(m / d <= (a * d) / d) by (nonlinear_arith)
        requires
            0 <= m <= a * d,
            d > 0,
    ;
    assert((a * d) / d == a) by (nonlinear_arith)
        requires
            d > 0,
    ;
    assert(0 <= m / d) by (nonlinear_arith)
        requires
            0 <= m,
            d > 0,
    ;
}

// ---------------------------------------------------------------------------
// Formulas
// ---------------------------------------------------------------------------

/// `min + (max - min) * progress / 10000`, with progress capped at 10000 and
/// the product saturating; `min` itself when `min >= max`.
pub open spec fn interpolate_spec(min_value: int, max_value: int, progress_bps: int) -> int {
    if min_value >= max_value {
        min_value
    } else {
        min_value + sat_mul(max_value - min_value, min_int(progress_bps, 10000), u64::MAX as int)
            / 10000
    }
}

pub fn interpolate_usize(min_value: usize, max_value: usize, progress_bps: u64) -> (r: usize)
    ensures
        r == interpolate_spec(min_value as int, max_value as int, progress_bps as int),
        min_value <= max_value ==> min_value <= r <= max_value,
{
    if min_value >= max_value {
        return min_value;
    }
    let span = max_value - min_value;
    let p = if progress_bps < 10000 {
        progress_bps
    } else {
        10000
    };
    let prod = sat_mul_u64(span as u64, p);
    let offset = prod / 10000;
    proof {
        lemma_sat_mul_div_bound(span as int, p as int, u64::MAX as int, 10000);
    }
    min_value + offset as usize
}

pub open spec fn budget_from_ratio_spec(ratio_bps: int, min_budget: int, max_budget: int) -> int {
    if ratio_bps <= TOOL_MEMORY_PROJECTION_TIGHT_THRESHOLD_BPS {
        min_budget
    } else if ratio_bps >= TOOL_MEMORY_PROJECTION_RELAXED_THRESHOLD_BPS {
        max_budget
    } else {
        min_budget + sat_mul(ratio_bps - 2000, sat_sub(max_budget, min_budget), u64::MAX as int)
            / 4000
    }
}

/// Moves from `min_budget` to `max_budget` as the remaining-to-soft-limit
/// ratio goes from the tight to the relaxed threshold.
pub fn budget_from_ratio_bps(ratio_bps: u64, min_budget: usize, max_budget: usize) -> (r: usize)
    ensures
        r == budget_from_ratio_spec(ratio_bps as int, min_budget as int, max_budget as int),
{
    if ratio_bps <= TOOL_MEMORY_PROJECTION_TIGHT_THRESHOLD_BPS {
        return min_budget;
    }
    if ratio_bps >= TOOL_MEMORY_PROJECTION_RELAXED_THRESHOLD_BPS {
        return max_budget;
    }
    let span_bps: u64 = TOOL_MEMORY_PROJECTION_RELAXED_THRESHOLD_BPS
        - TOOL_MEMORY_PROJECTION_TIGHT_THRESHOLD_BPS;
    let progress_bps = ratio_bps - TOOL_MEMORY_PROJECTION_TIGHT_THRESHOLD_BPS;
    let span_tokens = max_budget.saturating_sub(min_budget);
    let prod = sat_mul_u64(progress_bps, span_tokens as u64);
    let offset = prod / span_bps;
    proof {
        lemma_sat_mul_div_bound(span_tokens as int, progress_bps as int, u64::MAX as int, 4000);
        assert(sat_mul(progress_bps as int, span_tokens as int, u64::MAX as int) == sat_mul(
            span_tokens as int,
            progress_bps as int,
            u64::MAX as int,
        )) by (nonlinear_arith);
    }
    min_budget + offset as usize
}

pub open spec fn budget_from_remaining_spec(remaining: int) -> int {
    if remaining <= TOOL_MEMORY_REMAINING_ABS_MIN {
        TOOL_MEMORY_PROJECTION_MIN_TOKENS as int
    } else if remaining >= TOOL_MEMORY_REMAINING_ABS_MAX {
        TOOL_MEMORY_PROJECTION_MAX_TOKENS as int
    } else {
        1200 + (remaining - 4000) * 4800 / 20000
    }
}

/// Moves from the minimum to the maximum projection budget as the remaining
/// tokens go from 4000 to 24000.
pub fn budget_from_remaining_tokens(remaining_tokens: u64) -> (r: usize)
    ensures
        r == budget_from_remaining_spec(remaining_tokens as int),
{
    if remaining_tokens <= TOOL_MEMORY_REMAINING_ABS_MIN {
        return TOOL_MEMORY_PROJECTION_MIN_TOKENS;
    }
    if remaining_tokens >= TOOL_MEMORY_REMAINING_ABS_MAX {
        return TOOL_MEMORY_PROJECTION_MAX_TOKENS;
    }
    let progress = remaining_tokens - TOOL_MEMORY_REMAINING_ABS_MIN;
    assert(progress * 4800 <= 20000 * 4800) by (nonlinear_arith)
        requires
            progress <= 20000,
    ;
    let offset = progress * 4800 / 20000;
    assert(offset <= 4800) by (nonlinear_arith)
        requires
            offset == progress * 4800 / 20000,
            progress <= 20000,
    ;
    TOOL_MEMORY_PROJECTION_MIN_TOKENS + offset as usize
}

pub open spec fn bounds_from_soft_limit_spec(soft_limit: int) -> (int, int) {
    let lo = clamp_int(sat_mul(soft_limit, 2000, u64::MAX as int) / 10000, 1200, 64000);
    let hi = clamp_int(sat_mul(soft_limit, 4000, u64::MAX as int) / 10000, lo, 64000);
    (lo, hi)
}

fn u64_to_usize_or_max(x: u64) -> (r: usize)
    ensures
        x <= usize::MAX ==> r == x,
        x > usize::MAX ==> r == usize::MAX,
{
    if x <= usize::MAX as u64 {
        x as usize
    } else {
        usize::MAX
    }
}

/// The range of the tool-memory projection budget for a soft limit: 20% and
/// 40% of it, within the absolute bounds.
pub fn budget_bounds_from_soft_limit(soft_limit_tokens: u64) -> (r: (usize, usize))
    ensures
        r.0 == bounds_from_soft_limit_spec(soft_limit_tokens as int).0,
        r.1 == bounds_from_soft_limit_spec(soft_limit_tokens as int).1,
        TOOL_MEMORY_PROJECTION_ABS_MIN_TOKENS <= r.0 <= r.1 <= TOOL_MEMORY_PROJECTION_ABS_MAX_TOKENS,
{
    let lo_raw = u64_to_usize_or_max(
        sat_mul_u64(soft_limit_tokens, TOOL_MEMORY_PROJECTION_SOFT_LIMIT_MIN_RATIO_BPS) / 10000,
    );
    let lo = if lo_raw < TOOL_MEMORY_PROJECTION_ABS_MIN_TOKENS {
        TOOL_MEMORY_PROJECTION_ABS_MIN_TOKENS
    } else if lo_raw > TOOL_MEMORY_PROJECTION_ABS_MAX_TOKENS {
        TOOL_MEMORY_PROJECTION_ABS_MAX_TOKENS
    } else {
        lo_raw
    };
    let hi_raw = u64_to_usize_or_max(
        sat_mul_u64(soft_limit_tokens, TOOL_MEMORY_PROJECTION_SOFT_LIMIT_MAX_RATIO_BPS) / 10000,
    );
    let hi = if hi_raw < lo {
        lo
    } else if hi_raw > TOOL_MEMORY_PROJECTION_ABS_MAX_TOKENS {
        TOOL_MEMORY_PROJECTION_ABS_MAX_TOKENS
    } else {
        hi_raw
    };
    (lo, hi)
}

/// The `u64` stored under `key` in a usage record, if there is one.
pub open spec fn usage_field_spec(usage: Option<JsonView>, key: Seq<char>) -> Option<u64> {
    match usage {
        Some(v) => field_u64(v, key),
        None => None,
    }
}

pub open spec fn or_else_spec(a: Option<u64>, b: Option<u64>) -> Option<u64> {
    match a {
        Some(x) => Some(x),
        None => b,
    }
}

pub open spec fn opt_view(u: Option<&JsonValue>) -> Option<JsonView> {
    match u {
        Some(v) => Some(v@),
        None => None,
    }
}

pub open spec fn remaining_key() -> Seq<char> {
    "context_remaining_tokens"@
}

pub open spec fn soft_limit_key() -> Seq<char> {
    "context_soft_limit_tokens"@
}

pub fn usage_field_u64(usage: Option<&JsonValue>, key: &str) -> (r: Option<u64>)
    ensures
        r == usage_field_spec(opt_view(usage), key@),
{
    match usage {
        Some(v) => v.get_u64(key),
        None => None,
    }
}

/// The remaining tokens and soft limit, from the planner's usage record or
/// else the runtime's.
pub open spec fn usage_remaining_spec(planner: Option<JsonView>, runtime: Option<JsonView>) -> Option<
    u64,
> {
    or_else_spec(
        usage_field_spec(planner, remaining_key()),
        usage_field_spec(runtime, remaining_key()),
    )
}

pub open spec fn usage_soft_limit_spec(planner: Option<JsonView>, runtime: Option<JsonView>) -> Option<
    u64,
> {
    or_else_spec(
        usage_field_spec(planner, soft_limit_key()),
        usage_field_spec(runtime, soft_limit_key()),
    )
}

/// The share of the soft limit in use, in basis points, from the remaining
/// tokens.
pub open spec fn usage_ratio_spec(remaining: Option<u64>, soft_limit: Option<u64>) -> Option<u64> {
    match (remaining, soft_limit) {
        (Some(r), Some(s)) => if s > 0 {
            Some(sat_sub(10000, sat_mul(r as int, 10000, u64::MAX as int) / s as int) as u64)
        } else {
            None
        },
        _ => None,
    }
}

pub fn usage_inputs(planner_usage: Option<&JsonValue>, runtime_usage: Option<&JsonValue>) -> (r: (
    Option<u64>,
    Option<u64>,
    Option<u64>,
))
    ensures
        r.0 == usage_remaining_spec(opt_view(planner_usage), opt_view(runtime_usage)),
        r.1 == usage_soft_limit_spec(opt_view(planner_usage), opt_view(runtime_usage)),
        r.2 == usage_ratio_spec(r.0, r.1),
{
    let remaining = match usage_field_u64(planner_usage, "context_remaining_tokens") {
        Some(x) => Some(x),
        None => usage_field_u64(runtime_usage, "context_remaining_tokens"),
    };
    let soft_limit = match usage_field_u64(planner_usage, "context_soft_limit_tokens") {
        Some(x) => Some(x),
        None => usage_field_u64(runtime_usage, "context_soft_limit_tokens"),
    };
    let ratio = match (remaining, soft_limit) {
        (Some(r), Some(s)) => {
            if s > 0 {
                Some(10000u64.saturating_sub(sat_mul_u64(r, 10000) / s))
            } else {
                None
            }
        },
        _ => None,
    };
    (remaining, soft_limit, ratio)
}

pub open spec fn projection_budget_spec(planner: Option<JsonView>, runtime: Option<JsonView>) -> int {
    let remaining = usage_remaining_spec(planner, runtime);
    let soft = usage_soft_limit_spec(planner, runtime);
    if remaining is Some && soft is Some && soft->0 > 0 {
        let ratio = sat_mul(remaining->0 as int, 10000, u64::MAX as int) / soft->0 as int;
        let b = bounds_from_soft_limit_spec(soft->0 as int);
        budget_from_ratio_spec(ratio, b.0, b.1)
    } else if remaining is Some {
        budget_from_remaining_spec(remaining->0 as int)
    } else {
        TOOL_MEMORY_PROJECTION_DEFAULT_TOKENS as int
    }
}

pub open spec fn pressure_mode_spec(usage_ratio_bps: Option<u64>, remaining: Option<u64>) -> ContextPressureMode {
    let ratio_at_least = |t: u64| usage_ratio_bps is Some && usage_ratio_bps->0 >= t;
    let remaining_at_most = |t: u64| remaining is Some && remaining->0 <= t;
    if ratio_at_least(CONTEXT_USAGE_CRITICAL_THRESHOLD_BPS) || remaining_at_most(
        CONTEXT_PRESSURE_CRITICAL_REMAINING_TOKENS,
    ) {
        ContextPressureMode::Critical
    } else if ratio_at_least(CONTEXT_USAGE_MEDIUM_THRESHOLD_BPS) || remaining_at_most(
        CONTEXT_PRESSURE_TIGHT_REMAINING_TOKENS,
    ) {
        ContextPressureMode::Medium
    } else if ratio_at_least(CONTEXT_USAGE_LIGHT_THRESHOLD_BPS) {
        ContextPressureMode::Light
    } else {
        ContextPressureMode::Normal
    }
}

/// The pressure levels: critical when the usage ratio reaches 9200 bps or
/// at most 3000 tokens remain; else medium when the ratio reaches 8500 bps
/// or at most 8000 tokens remain; else light when the ratio reaches 7000
/// bps; else normal.
pub proof fn lemma_pressure_mode_levels(usage_ratio_bps: Option<u64>, remaining: Option<u64>)
    ensures
        ({
            let ratio_at = |t: u64| usage_ratio_bps matches Some(x) && x >= t;
            let left_at_most = |t: u64| remaining matches Some(y) && y <= t;
            let m = pressure_mode_spec(usage_ratio_bps, remaining);
            &&& (m == ContextPressureMode::Critical) <==> (ratio_at(9200) || left_at_most(3000))
            &&& (m == ContextPressureMode::Medium) <==> (!(ratio_at(9200) || left_at_most(3000)) && (ratio_at(
                8500,
            ) || left_at_most(8000)))
            &&& (m == ContextPressureMode::Light) <==> (!(ratio_at(8500) || left_at_most(8000)) && ratio_at(
                7000,
            ))
            &&& (m == ContextPressureMode::Normal) <==> (!ratio_at(7000) && !left_at_most(8000))
        }),
{
}

/// Fewer remaining tokens never ease the pressure: with the same usage
/// ratio, the mode at fewer remaining tokens is at least as severe.
pub proof fn lemma_pressure_mode_monotone_in_remaining(usage_ratio_bps: Option<u64>, fewer: u64, more: u64)
    requires
        fewer <= more,
    ensures
        ({
            let sev = |m: ContextPressureMode| match m {
                ContextPressureMode::Normal => 0int,
                ContextPressureMode::Light => 1int,
                ContextPressureMode::Medium => 2int,
                ContextPressureMode::Critical => 3int,
            };
            sev(pressure_mode_spec(usage_ratio_bps, Some(fewer))) >= sev(pressure_mode_spec(usage_ratio_bps, Some(more)))
        }),
{
}

/// The planning memory store limits at a given pressure, before the floors
/// of one.
pub open spec fn store_budget_spec(planner: Option<JsonView>, runtime: Option<JsonView>) -> PlanningMemoryStoreBudget {
    let remaining = usage_remaining_spec(planner, runtime);
    let soft = usage_soft_limit_spec(planner, runtime);
    let ratio = usage_ratio_spec(remaining, soft);
    if remaining is None && ratio is None {
        PlanningMemoryStoreBudget {
            max_entries: PLANNING_MEMORY_STORE_DEFAULT_MAX_ENTRIES,
            max_entry_chars: PLANNING_MEMORY_STORE_DEFAULT_MAX_ENTRY_CHARS,
            max_total_chars: PLANNING_MEMORY_STORE_DEFAULT_MAX_TOTAL_CHARS,
        }
    } else {
        let budget = projection_budget_spec(planner, runtime);
        let bounds = if soft is Some {
            bounds_from_soft_limit_spec(soft->0 as int)
        } else {
            (TOOL_MEMORY_PROJECTION_MIN_TOKENS as int, TOOL_MEMORY_PROJECTION_MAX_TOKENS as int)
        };
        let span = max_int(sat_sub(bounds.1, bounds.0), 1);
        let progress = min_int(sat_sub(budget, bounds.0), span);
        let progress_bps = sat_mul(progress, 10000, u64::MAX as int) / span;
        let e0 = interpolate_spec(16, 72, progress_bps);
        let c0 = interpolate_spec(3000, 10000, progress_bps);
        let t0 = interpolate_spec(40000, 180000, progress_bps);
        let (e, c, t) = match pressure_mode_spec(ratio, remaining) {
            ContextPressureMode::Critical => (min_int(e0, 16), min_int(c0, 3000), min_int(t0, 40000)),
            ContextPressureMode::Medium => (min_int(e0, 32), min_int(c0, 6000), min_int(t0, 80000)),
            ContextPressureMode::Light => (min_int(e0, 48), min_int(c0, 8000), min_int(t0, 120000)),
            ContextPressureMode::Normal => (e0, c0, t0),
        };
        PlanningMemoryStoreBudget {
            max_entries: max_int(e, 1) as usize,
            max_entry_chars: max_int(c, 1) as usize,
            max_total_chars: max_int(t, max_int(c, 1)) as usize,
        }
    }
}

pub open spec fn projection_caps_spec(projection_budget_tokens: int) -> ToolMemoryProjectionCaps {
    let normalized = clamp_int(projection_budget_tokens, 1200, 64000);
    let progress = (normalized - 1200) * 10000 / 62800;
    ToolMemoryProjectionCaps {
        max_list_inventory_entries: interpolate_spec(2, 8, progress) as usize,
        max_catalog_entries: interpolate_spec(6, 20, progress) as usize,
        max_detail_entries: interpolate_spec(6, 20, progress) as usize,
        max_guide_entries: interpolate_spec(4, 10, progress) as usize,
    }
}

pub open spec fn opts(d: usize, e: usize, a: usize, s: usize) -> JsonBudgetOptions {
    JsonBudgetOptions { max_depth: d, max_object_entries: e, max_array_items: a, max_string_chars: s }
}

/// The JSON limits applied to the output of a tool, by kind and profile.
pub open spec fn dispatch_options_spec(kind: ToolDispatchKind, profile: ToolDispatchCompactProfile) -> JsonBudgetOptions {
    match (kind, profile) {
        (ToolDispatchKind::CandidateDetail, ToolDispatchCompactProfile::Tight) => opts(6, 48, 24, 1200),
        (ToolDispatchKind::CandidateDetail, ToolDispatchCompactProfile::Balanced) => opts(8, 96, 48, 2400),
        (ToolDispatchKind::CandidateDetail, ToolDispatchCompactProfile::Relaxed) => opts(10, 192, 96, 4000),
        (ToolDispatchKind::MissingFacts, ToolDispatchCompactProfile::Tight) => opts(7, 96, 48, 1600),
        (ToolDispatchKind::MissingFacts, ToolDispatchCompactProfile::Balanced) => opts(8, 128, 64, 2400),
        (ToolDispatchKind::MissingFacts, ToolDispatchCompactProfile::Relaxed) => opts(10, 192, 96, 3600),
        (ToolDispatchKind::GuideSchemaFull, ToolDispatchCompactProfile::Tight) => opts(32, 2048, 512, 8000),
        (ToolDispatchKind::GuideSchemaFull, ToolDispatchCompactProfile::Balanced) => opts(64, 4096, 1024, 16000),
        (ToolDispatchKind::GuideSchemaFull, ToolDispatchCompactProfile::Relaxed) => opts(80, 8192, 2048, 24000),
        (ToolDispatchKind::GuideSchemaDigest, ToolDispatchCompactProfile::Tight) => opts(8, 96, 48, 1200),
        (ToolDispatchKind::GuideSchemaDigest, ToolDispatchCompactProfile::Balanced) => opts(10, 128, 64, 1600),
        (ToolDispatchKind::GuideSchemaDigest, ToolDispatchCompactProfile::Relaxed) => opts(12, 192, 96, 2400),
        (_, ToolDispatchCompactProfile::Tight) => opts(7, 48, 16, 1600),
        (_, ToolDispatchCompactProfile::Balanced) => opts(8, 64, 24, 2400),
        (_, ToolDispatchCompactProfile::Relaxed) => opts(10, 96, 48, 3600),
    }
}

pub open spec fn compaction_options_spec(mode: ContextPressureMode) -> JsonBudgetOptions {
    match mode {
        ContextPressureMode::Critical => opts(8, 96, 64, 1200),
        ContextPressureMode::Medium => opts(9, 112, 96, 2048),
        ContextPressureMode::Light => opts(10, 120, 120, 3072),
        ContextPressureMode::Normal => opts(10, 128, 128, 4096),
    }
}

/// The summary limits and preferred level of an optional context block at a
/// given pressure.
pub open spec fn recipe_summary_spec(block: ContextPackBlockId, mode: ContextPressureMode) -> Option<JsonBudgetOptions> {
    match (block, mode) {
        (ContextPackBlockId::ToolMemoryProjection, ContextPressureMode::Critical) => Some(opts(5, 24, 12, 480)),
        (ContextPackBlockId::ToolMemoryProjection, ContextPressureMode::Medium) => Some(opts(6, 36, 16, 800)),
        (ContextPackBlockId::ToolMemoryProjection, ContextPressureMode::Light) => Some(opts(8, 96, 48, 1800)),
        (ContextPackBlockId::InputStoreFacts, ContextPressureMode::Critical) => Some(opts(5, 16, 12, 480)),
        (ContextPackBlockId::InputStoreFacts, ContextPressureMode::Medium) => Some(opts(6, 24, 16, 720)),
        (ContextPackBlockId::InputStoreFacts, ContextPressureMode::Light) => Some(opts(8, 48, 24, 1200)),
        (ContextPackBlockId::PreviousErrorLastFailedFinalize, ContextPressureMode::Critical) => Some(opts(5, 32, 12, 560)),
        (ContextPackBlockId::PreviousErrorLastFailedFinalize, ContextPressureMode::Medium) => Some(opts(6, 48, 20, 900)),
        (ContextPackBlockId::PreviousErrorLastFailedFinalize, ContextPressureMode::Light) => Some(opts(8, 96, 48, 2000)),
        (ContextPackBlockId::PreviousError, ContextPressureMode::Critical) => Some(opts(5, 32, 12, 560)),
        (ContextPackBlockId::PreviousError, ContextPressureMode::Medium) => Some(opts(6, 48, 20, 900)),
        (ContextPackBlockId::PreviousError, ContextPressureMode::Light) => Some(opts(8, 96, 48, 2000)),
        _ => None,
    }
}

pub open spec fn recipe_level_spec(block: ContextPackBlockId, mode: ContextPressureMode) -> ContextCompressLevel {
    let critical = mode == ContextPressureMode::Critical;
    let critical_or_medium = critical || mode == ContextPressureMode::Medium;
    match block {
        ContextPackBlockId::ToolMemoryProjection => ContextCompressLevel::Full,
        ContextPackBlockId::InputStoreFacts => if critical_or_medium {
            ContextCompressLevel::Summary
        } else {
            ContextCompressLevel::Full
        },
        ContextPackBlockId::PreviousErrorLastFailedFinalize | ContextPackBlockId::CapabilityViewProtocols
            | ContextPackBlockId::PreviousError => if critical {
            ContextCompressLevel::Skeleton
        } else {
            ContextCompressLevel::Full
        },
        ContextPackBlockId::PreviousErrorAutofillHistory | ContextPackBlockId::RecoveryDiagnostics =>
            if critical_or_medium {
            ContextCompressLevel::Skeleton
        } else {
            ContextCompressLevel::Full
        },
    }
}

impl ContextPressureMode {
    pub open spec fn name_spec(self) -> Seq<char> {
        match self {
            ContextPressureMode::Normal => "normal"@,
            ContextPressureMode::Light => "light"@,
            ContextPressureMode::Medium => "medium"@,
            ContextPressureMode::Critical => "critical"@,
        }
    }

    pub open spec fn from_name_spec(s: Seq<char>) -> Option<ContextPressureMode> {
        if s == "critical"@ {
            Some(ContextPressureMode::Critical)
        } else if s == "medium"@ {
            Some(ContextPressureMode::Medium)
        } else if s == "light"@ {
            Some(ContextPressureMode::Light)
        } else if s == "normal"@ {
            Some(ContextPressureMode::Normal)
        } else {
            None
        }
    }

    pub fn as_str(self) -> (r: &'static str)
        ensures
            r@ == self.name_spec(),
    {
        match self {
            ContextPressureMode::Normal => "normal",
            ContextPressureMode::Light => "light",
            ContextPressureMode::Medium => "medium",
            ContextPressureMode::Critical => "critical",
        }
    }

    pub fn from_str(mode: &str) -> (r: Option<ContextPressureMode>)
        ensures
            r == Self::from_name_spec(mode@),
    {
        if str_eq(mode, "critical") {
            Some(ContextPressureMode::Critical)
        } else if str_eq(mode, "medium") {
            Some(ContextPressureMode::Medium)
        } else if str_eq(mode, "light") {
            Some(ContextPressureMode::Light)
        } else if str_eq(mode, "normal") {
            Some(ContextPressureMode::Normal)
        } else {
            None
        }
    }
}

/// A mode's name reads back as that mode.
pub proof fn lemma_pressure_mode_name_round_trip(mode: ContextPressureMode)
    ensures
        ContextPressureMode::from_name_spec(mode.name_spec()) == Some(mode),
{
    reveal_strlit("critical");
    reveal_strlit("medium");
    reveal_strlit("light");
    reveal_strlit("normal");
    assert("medium"@[0] != "critical"@[0]);
    assert("light"@.len() != "critical"@.len() && "light"@.len() != "medium"@.len());
    assert("normal"@[0] != "critical"@[0] && "normal"@[0] != "medium"@[0]);
    assert("normal"@.len() != "light"@.len());
}

impl ToolMemoryBudgetPolicy {
    pub fn tool_memory_projection_default_tokens() -> (r: usize)
        ensures
            r == TOOL_MEMORY_PROJECTION_DEFAULT_TOKENS,
    {
        TOOL_MEMORY_PROJECTION_DEFAULT_TOKENS
    }

    pub fn tool_memory_projection_abs_bounds() -> (r: (usize, usize))
        ensures
            r == (TOOL_MEMORY_PROJECTION_ABS_MIN_TOKENS, TOOL_MEMORY_PROJECTION_ABS_MAX_TOKENS),
    {
        (TOOL_MEMORY_PROJECTION_ABS_MIN_TOKENS, TOOL_MEMORY_PROJECTION_ABS_MAX_TOKENS)
    }

    /// The token budget of the tool memory projection: from the remaining
    /// share of the soft limit when both are known, else from the remaining
    /// tokens, else the default.
    pub fn derive_tool_memory_projection_token_budget(
        planner_usage: Option<&JsonValue>,
        runtime_usage: Option<&JsonValue>,
    ) -> (r: usize)
        ensures
            r == projection_budget_spec(opt_view(planner_usage), opt_view(runtime_usage)),
    {
        let (remaining, soft_limit, _) = usage_inputs(planner_usage, runtime_usage);
        if let (Some(rem), Some(soft)) = (remaining, soft_limit) {
            if soft > 0 {
                let ratio_bps = sat_mul_u64(rem, 10000) / soft;
                let (lo, hi) = budget_bounds_from_soft_limit(soft);
                return budget_from_ratio_bps(ratio_bps, lo, hi);
            }
        }
        if let Some(rem) = remaining {
            return budget_from_remaining_tokens(rem);
        }
        TOOL_MEMORY_PROJECTION_DEFAULT_TOKENS
    }

    pub fn derive_context_pressure_mode(usage_ratio_bps: Option<u64>, remaining_tokens: Option<u64>) -> (r:
        ContextPressureMode)
        ensures
            r == pressure_mode_spec(usage_ratio_bps, remaining_tokens),
            (r == ContextPressureMode::Critical) <==> ((usage_ratio_bps matches Some(x) && x
                >= CONTEXT_USAGE_CRITICAL_THRESHOLD_BPS) || (remaining_tokens matches Some(y) && y
                <= CONTEXT_PRESSURE_CRITICAL_REMAINING_TOKENS)),
    {
        let ratio_critical = match usage_ratio_bps {
            Some(x) => x >= CONTEXT_USAGE_CRITICAL_THRESHOLD_BPS,
            None => false,
        };
        let ratio_medium = match usage_ratio_bps {
            Some(x) => x >= CONTEXT_USAGE_MEDIUM_THRESHOLD_BPS,
            None => false,
        };
        let ratio_light = match usage_ratio_bps {
            Some(x) => x >= CONTEXT_USAGE_LIGHT_THRESHOLD_BPS,
            None => false,
        };
        let rem_critical = match remaining_tokens {
            Some(x) => x <= CONTEXT_PRESSURE_CRITICAL_REMAINING_TOKENS,
            None => false,
        };
        let rem_tight = match remaining_tokens {
            Some(x) => x <= CONTEXT_PRESSURE_TIGHT_REMAINING_TOKENS,
            None => false,
        };
        if ratio_critical || rem_critical {
            return ContextPressureMode::Critical;
        }
        if ratio_medium || rem_tight {
            return ContextPressureMode::Medium;
        }
        if ratio_light {
            return ContextPressureMode::Light;
        }
        ContextPressureMode::Normal
    }

    /// The limits of the planning memory store: the defaults without usage
    /// data, else interpolated from the projection budget and capped by the
    /// pressure mode.
    pub fn derive_planning_memory_store_budget(
        planner_usage: Option<&JsonValue>,
        runtime_usage: Option<&JsonValue>,
    ) -> (r: PlanningMemoryStoreBudget)
        ensures
            r == store_budget_spec(opt_view(planner_usage), opt_view(runtime_usage)),
    {
        let (remaining, soft_limit, ratio) = usage_inputs(planner_usage, runtime_usage);
        if remaining.is_none() && ratio.is_none() {
            return PlanningMemoryStoreBudget {
                max_entries: PLANNING_MEMORY_STORE_DEFAULT_MAX_ENTRIES,
                max_entry_chars: PLANNING_MEMORY_STORE_DEFAULT_MAX_ENTRY_CHARS,
                max_total_chars: PLANNING_MEMORY_STORE_DEFAULT_MAX_TOTAL_CHARS,
            };
        }
        let budget = Self::derive_tool_memory_projection_token_budget(planner_usage, runtime_usage);
        let (pmin, pmax) = match soft_limit {
            Some(s) => budget_bounds_from_soft_limit(s),
            None => (TOOL_MEMORY_PROJECTION_MIN_TOKENS, TOOL_MEMORY_PROJECTION_MAX_TOKENS),
        };
        let span0 = pmax.saturating_sub(pmin);
        let span = if span0 < 1 {
            1
        } else {
            span0
        };
        let p0 = budget.saturating_sub(pmin);
        let progress = if p0 < span {
            p0
        } else {
            span
        };
        let progress_bps = sat_mul_u64(progress as u64, 10000) / (span as u64);
        let mut max_entries = interpolate_usize(16, 72, progress_bps);
        let mut max_entry_chars = interpolate_usize(3000, 10000, progress_bps);
        let mut max_total_chars = interpolate_usize(40000, 180000, progress_bps);
        let mode = Self::derive_context_pressure_mode(ratio, remaining);
        match mode {
            ContextPressureMode::Critical => {
                if max_entries > 16 {
                    max_entries = 16;
                }
                if max_entry_chars > 3000 {
                    max_entry_chars = 3000;
                }
                if max_total_chars > 40000 {
                    max_total_chars = 40000;
                }
            },
            ContextPressureMode::Medium => {
                if max_entries > 32 {
                    max_entries = 32;
                }
                if max_entry_chars > 6000 {
                    max_entry_chars = 6000;
                }
                if max_total_chars > 80000 {
                    max_total_chars = 80000;
                }
            },
            ContextPressureMode::Light => {
                if max_entries > 48 {
                    max_entries = 48;
                }
                if max_entry_chars > 8000 {
                    max_entry_chars = 8000;
                }
                if max_total_chars > 120000 {
                    max_total_chars = 120000;
                }
            },
            ContextPressureMode::Normal => {},
        }
        let entries = if max_entries < 1 {
            1
        } else {
            max_entries
        };
        let chars = if max_entry_chars < 1 {
            1
        } else {
            max_entry_chars
        };
        let total = if max_total_chars < chars {
            chars
        } else {
            max_total_chars
        };
        PlanningMemoryStoreBudget { max_entries: entries, max_entry_chars: chars, max_total_chars: total }
    }

    /// How many entries of each kind the projection keeps for a budget.
    pub fn derive_tool_memory_projection_caps(projection_budget_tokens: usize) -> (r:
        ToolMemoryProjectionCaps)
        ensures
            r == projection_caps_spec(projection_budget_tokens as int),
    {
        let normalized = if projection_budget_tokens < TOOL_MEMORY_PROJECTION_ABS_MIN_TOKENS {
            TOOL_MEMORY_PROJECTION_ABS_MIN_TOKENS
        } else if projection_budget_tokens > TOOL_MEMORY_PROJECTION_ABS_MAX_TOKENS {
            TOOL_MEMORY_PROJECTION_ABS_MAX_TOKENS
        } else {
            projection_budget_tokens
        };
        let step = normalized - TOOL_MEMORY_PROJECTION_ABS_MIN_TOKENS;
        assert(step * 10000 <= 62800 * 10000) by (nonlinear_arith)
            requires
                step <= 62800,
        ;
        let progress = step * 10000 / 62800;
        ToolMemoryProjectionCaps {
            max_list_inventory_entries: interpolate_usize(
                TOOL_MEMORY_MAX_LIST_INVENTORY_ENTRIES,
                8,
                progress as u64,
            ),
            max_catalog_entries: interpolate_usize(TOOL_MEMORY_MAX_CATALOG_ENTRIES, 20, progress as u64),
            max_detail_entries: interpolate_usize(TOOL_MEMORY_MAX_DETAIL_ENTRIES, 20, progress as u64),
            max_guide_entries: interpolate_usize(TOOL_MEMORY_MAX_GUIDE_ENTRIES, 10, progress as u64),
        }
    }

    pub fn derive_tool_dispatch_compact_profile(projection_budget_tokens: usize) -> (r:
        ToolDispatchCompactProfile)
        ensures
            r == (if projection_budget_tokens >= 20000 {
                ToolDispatchCompactProfile::Relaxed
            } else if projection_budget_tokens >= 6000 {
                ToolDispatchCompactProfile::Balanced
            } else {
                ToolDispatchCompactProfile::Tight
            }),
    {
        if projection_budget_tokens >= 20000 {
            return ToolDispatchCompactProfile::Relaxed;
        }
        if projection_budget_tokens >= 6000 {
            return ToolDispatchCompactProfile::Balanced;
        }
        ToolDispatchCompactProfile::Tight
    }

    pub fn derive_global_compress_level(pressure_mode: ContextPressureMode) -> (r: ContextCompressLevel)
        ensures
            r == (match pressure_mode {
                ContextPressureMode::Critical => ContextCompressLevel::Skeleton,
                ContextPressureMode::Medium => ContextCompressLevel::Summary,
                _ => ContextCompressLevel::Full,
            }),
    {
        match pressure_mode {
            ContextPressureMode::Critical => ContextCompressLevel::Skeleton,
            ContextPressureMode::Medium => ContextCompressLevel::Summary,
            ContextPressureMode::Light | ContextPressureMode::Normal => ContextCompressLevel::Full,
        }
    }

    pub fn derive_tool_dispatch_compact_profile_from_compress_level(level: ContextCompressLevel) -> (r:
        ToolDispatchCompactProfile)
        ensures
            r == (match level {
                ContextCompressLevel::Full => ToolDispatchCompactProfile::Relaxed,
                ContextCompressLevel::Summary => ToolDispatchCompactProfile::Balanced,
                ContextCompressLevel::Skeleton => ToolDispatchCompactProfile::Tight,
            }),
    {
        match level {
            ContextCompressLevel::Full => ToolDispatchCompactProfile::Relaxed,
            ContextCompressLevel::Summary => ToolDispatchCompactProfile::Balanced,
            ContextCompressLevel::Skeleton => ToolDispatchCompactProfile::Tight,
        }
    }

    pub fn tool_dispatch_options(kind: ToolDispatchKind, profile: ToolDispatchCompactProfile) -> (r:
        JsonBudgetOptions)
        ensures
            r == dispatch_options_spec(kind, profile),
    {
        let (d, e, a, s): (usize, usize, usize, usize) = match (kind, profile) {
            (ToolDispatchKind::CandidateDetail, ToolDispatchCompactProfile::Tight) => (6, 48, 24, 1200),
            (ToolDispatchKind::CandidateDetail, ToolDispatchCompactProfile::Balanced) => (8, 96, 48, 2400),
            (ToolDispatchKind::CandidateDetail, ToolDispatchCompactProfile::Relaxed) => (10, 192, 96, 4000),
            (ToolDispatchKind::MissingFacts, ToolDispatchCompactProfile::Tight) => (7, 96, 48, 1600),
            (ToolDispatchKind::MissingFacts, ToolDispatchCompactProfile::Balanced) => (8, 128, 64, 2400),
            (ToolDispatchKind::MissingFacts, ToolDispatchCompactProfile::Relaxed) => (10, 192, 96, 3600),
            (ToolDispatchKind::GuideSchemaFull, ToolDispatchCompactProfile::Tight) => (32, 2048, 512, 8000),
            (ToolDispatchKind::GuideSchemaFull, ToolDispatchCompactProfile::Balanced) => (64, 4096, 1024, 16000),
            (ToolDispatchKind::GuideSchemaFull, ToolDispatchCompactProfile::Relaxed) => (80, 8192, 2048, 24000),
            (ToolDispatchKind::GuideSchemaDigest, ToolDispatchCompactProfile::Tight) => (8, 96, 48, 1200),
            (ToolDispatchKind::GuideSchemaDigest, ToolDispatchCompactProfile::Balanced) => (10, 128, 64, 1600),
            (ToolDispatchKind::GuideSchemaDigest, ToolDispatchCompactProfile::Relaxed) => (12, 192, 96, 2400),
            (_, ToolDispatchCompactProfile::Tight) => (7, 48, 16, 1600),
            (_, ToolDispatchCompactProfile::Balanced) => (8, 64, 24, 2400),
            (_, ToolDispatchCompactProfile::Relaxed) => (10, 96, 48, 3600),
        };
        JsonBudgetOptions { max_depth: d, max_object_entries: e, max_array_items: a, max_string_chars: s }
    }

    /// The token limit adapted to the share of the context in use, with the
    /// name of the adaptation.
    pub fn derive_adaptive_effective_token_limit(base_token_limit: usize, usage_ratio_bps: Option<u64>) -> (r: (
        usize,
        &'static str,
    ))
        ensures
            r.0 == adaptive_limit_spec(base_token_limit as int, usage_ratio_bps),
            r.1@ == adaptive_mode_name_spec(usage_ratio_bps),
    {
        let base1 = if base_token_limit < 1 {
            1
        } else {
            base_token_limit
        };
        match usage_ratio_bps {
            None => (base1, "default"),
            Some(bps) => {
                if bps < CONTEXT_USAGE_LIGHT_THRESHOLD_BPS {
                    let tripled = sat_mul_usize(base_token_limit, ADAPTIVE_RELAXED_MAX_MULTIPLIER);
                    let cap = if tripled < base_token_limit {
                        base_token_limit
                    } else {
                        tripled
                    };
                    let target0 = tripled / 2;
                    let target = if target0 < base_token_limit {
                        base_token_limit
                    } else {
                        target0
                    };
                    let capped = if target < cap {
                        target
                    } else {
                        cap
                    };
                    let effective = if capped < 1 {
                        1
                    } else {
                        capped
                    };
                    (effective, "relaxed")
                } else if bps < CONTEXT_USAGE_MEDIUM_THRESHOLD_BPS {
                    (base1, "balanced")
                } else if bps < CONTEXT_USAGE_CRITICAL_THRESHOLD_BPS {
                    let v = sat_mul_usize(base_token_limit, ADAPTIVE_MEDIUM_NUMERATOR)
                        / ADAPTIVE_MEDIUM_DENOMINATOR;
                    (if v < 1 {
                        1
                    } else {
                        v
                    }, "medium")
                } else {
                    let v = sat_mul_usize(base_token_limit, ADAPTIVE_CRITICAL_NUMERATOR)
                        / ADAPTIVE_CRITICAL_DENOMINATOR;
                    (if v < 1 {
                        1
                    } else {
                        v
                    }, "tight")
                }
            },
        }
    }

    pub fn context_compaction_policy(mode: ContextPressureMode) -> (r: ContextCompactionPolicy)
        ensures
            r.final_compact_options == compaction_options_spec(mode),
    {
        let (d, e, a, s): (usize, usize, usize, usize) = match mode {
            ContextPressureMode::Critical => (8, 96, 64, 1200),
            ContextPressureMode::Medium => (9, 112, 96, 2048),
            ContextPressureMode::Light => (10, 120, 120, 3072),
            ContextPressureMode::Normal => (10, 128, 128, 4096),
        };
        ContextCompactionPolicy {
            final_compact_options: JsonBudgetOptions {
                max_depth: d,
                max_object_entries: e,
                max_array_items: a,
                max_string_chars: s,
            },
        }
    }

    pub fn context_pack_block_recipe(block_id: ContextPackBlockId, mode: ContextPressureMode) -> (r:
        ContextPackBlockRecipe)
        ensures
            r.summary_compact_options == recipe_summary_spec(block_id, mode),
            r.preferred_level == recipe_level_spec(block_id, mode),
    {
        let critical = mode == ContextPressureMode::Critical;
        let critical_or_medium = critical || mode == ContextPressureMode::Medium;
        let summary: Option<(usize, usize, usize, usize)> = match (block_id, mode) {
            (ContextPackBlockId::ToolMemoryProjection, ContextPressureMode::Critical) => Some((5, 24, 12, 480)),
            (ContextPackBlockId::ToolMemoryProjection, ContextPressureMode::Medium) => Some((6, 36, 16, 800)),
            (ContextPackBlockId::ToolMemoryProjection, ContextPressureMode::Light) => Some((8, 96, 48, 1800)),
            (ContextPackBlockId::InputStoreFacts, ContextPressureMode::Critical) => Some((5, 16, 12, 480)),
            (ContextPackBlockId::InputStoreFacts, ContextPressureMode::Medium) => Some((6, 24, 16, 720)),
            (ContextPackBlockId::InputStoreFacts, ContextPressureMode::Light) => Some((8, 48, 24, 1200)),
            (ContextPackBlockId::PreviousErrorLastFailedFinalize, ContextPressureMode::Critical) => Some((5, 32, 12, 560)),
            (ContextPackBlockId::PreviousErrorLastFailedFinalize, ContextPressureMode::Medium) => Some((6, 48, 20, 900)),
            (ContextPackBlockId::PreviousErrorLastFailedFinalize, ContextPressureMode::Light) => Some((8, 96, 48, 2000)),
            (ContextPackBlockId::PreviousError, ContextPressureMode::Critical) => Some((5, 32, 12, 560)),
            (ContextPackBlockId::PreviousError, ContextPressureMode::Medium) => Some((6, 48, 20, 900)),
            (ContextPackBlockId::PreviousError, ContextPressureMode::Light) => Some((8, 96, 48, 2000)),
            _ => None,
        };
        let summary_compact_options = match summary {
            Some((d, e, a, s)) => Some(
                JsonBudgetOptions { max_depth: d, max_object_entries: e, max_array_items: a, max_string_chars: s },
            ),
            None => None,
        };
        let preferred_level = match block_id {
            ContextPackBlockId::ToolMemoryProjection => ContextCompressLevel::Full,
            ContextPackBlockId::InputStoreFacts => if critical_or_medium {
                ContextCompressLevel::Summary
            } else {
                ContextCompressLevel::Full
            },
            ContextPackBlockId::PreviousErrorLastFailedFinalize
            | ContextPackBlockId::CapabilityViewProtocols
            | ContextPackBlockId::PreviousError => if critical {
                ContextCompressLevel::Skeleton
            } else {
                ContextCompressLevel::Full
            },
            ContextPackBlockId::PreviousErrorAutofillHistory | ContextPackBlockId::RecoveryDiagnostics =>
            if critical_or_medium {
                ContextCompressLevel::Skeleton
            } else {
                ContextCompressLevel::Full
            },
        };
        ContextPackBlockRecipe { summary_compact_options, preferred_level }
    }
}

pub open spec fn adaptive_limit_spec(base: int, usage_ratio_bps: Option<u64>) -> int {
    match usage_ratio_bps {
        None => max_int(base, 1),
        Some(bps) => if bps < CONTEXT_USAGE_LIGHT_THRESHOLD_BPS {
            let tripled = sat_mul(base, 3, usize::MAX as int);
            let cap = max_int(tripled, base);
            let target = max_int(tripled / 2, base);
            max_int(min_int(target, cap), 1)
        } else if bps < CONTEXT_USAGE_MEDIUM_THRESHOLD_BPS {
            max_int(base, 1)
        } else if bps < CONTEXT_USAGE_CRITICAL_THRESHOLD_BPS {
            max_int(sat_mul(base, 17, usize::MAX as int) / 20, 1)
        } else {
            max_int(sat_mul(base, 3, usize::MAX as int) / 5, 1)
        },
    }
}

/// The adapted token limit is at least one, never grows as the usage ratio
/// rises, and never exceeds the base limit (or one) once the ratio reaches
/// the light threshold.  (For a base limit so large that seventeen times it
/// saturates, the saturated products break the ordering.)
pub proof fn lemma_adaptive_limit_monotone(base: usize, lower: u64, higher: u64)
    requires
        lower <= higher,
        base as int * 17 <= usize::MAX as int,
    ensures
        adaptive_limit_spec(base as int, Some(higher)) >= 1,
        adaptive_limit_spec(base as int, Some(lower)) >= adaptive_limit_spec(base as int, Some(higher)),
        higher >= CONTEXT_USAGE_LIGHT_THRESHOLD_BPS ==> adaptive_limit_spec(base as int, Some(higher)) <= max_int(
            base as int,
            1,
        ),
{
    let b = base as int;
    let m = usize::MAX as int;
    assert(sat_mul(b, 17, m) == b * 17);
    assert(sat_mul(b, 3, m) == b * 3);
    assert((b * 17) / 20 <= b) by (nonlinear_arith)
        requires
            b >= 0,
    ;
    assert((b * 3) / 5 <= (b * 17) / 20) by (nonlinear_arith)
        requires
            b >= 0,
    ;
    assert((b * 3) / 2 >= b) by (nonlinear_arith)
        requires
            b >= 0,
    ;
}

pub open spec fn adaptive_mode_name_spec(usage_ratio_bps: Option<u64>) -> Seq<char> {
    match usage_ratio_bps {
        None => "default"@,
        Some(bps) => if bps < CONTEXT_USAGE_LIGHT_THRESHOLD_BPS {
            "relaxed"@
        } else if bps < CONTEXT_USAGE_MEDIUM_THRESHOLD_BPS {
            "balanced"@
        } else if bps < CONTEXT_USAGE_CRITICAL_THRESHOLD_BPS {
            "medium"@
        } else {
            "tight"@
        },
    }
}

} // verus!
