//! Bookkeeping of the segmented planner: loop guards against repeated empty
//! searches and repeated plan-check failures, diagnostics counters, token
//! usage accounting, and the small text rules of its tools.
use vstd::prelude::*;
use crate::keyed::{keys_sorted, lookup, put, find_key};
use crate::text::{CharClass, chars_of, contains, decimal, ends_with, join, join_strings, lower,
    push_decimal, push_str, split_by, split_chars, starts_with, str_eq, str_starts_with,
    str_strip_prefix, str_strip_suffix, strip_prefix, strip_suffix, string_from_chars,
    string_from_range, to_ascii_lowercase, to_owned_string, trim, trim_by, trim_str, trim_str_by,
    is_ascii_alnum, lower_chars};
use crate::agent::context::budget_policy::sat_mul;
use crate::json::{JsonNumber, JsonValue, JsonView, NumberView, entries_view, insert_entry, lemma_object_view, obj_insert};

verus! {

pub const REPEATED_PLAN_CHECK_FAILURE_THRESHOLD: u64 = 3;
pub const CONTEXT_SOFT_LIMIT_NUMERATOR: u64 = 9;
pub const CONTEXT_SOFT_LIMIT_DENOMINATOR: u64 = 10;

pub open spec fn sat_add(a: int, b: int) -> int {
    if a + b > u64::MAX {
        u64::MAX as int
    } else {
        a + b
    }
}

/// The soft limit of a context: nine tenths of it.
pub fn context_soft_limit_tokens(context_limit_tokens: u64) -> (r: u64)
    ensures
        r == sat_mul(context_limit_tokens as int, 9, u64::MAX as int) / 10,
{
    let p = match context_limit_tokens.checked_mul(CONTEXT_SOFT_LIMIT_NUMERATOR) {
        Some(x) => x,
        None => u64::MAX,
    };
    p / CONTEXT_SOFT_LIMIT_DENOMINATOR
}

pub open spec fn same_signature(a: Option<String>, b: Option<String>) -> bool {
    a matches Some(x) && b matches Some(y) && x@ == y@
}

/// Tracks runs of empty catalog searches with the same signature.
pub struct CatalogSearchLoopGuard {
    pub current_streak: u64,
    pub max_streak: u64,
    pub previous_signature: Option<String>,
}

impl CatalogSearchLoopGuard {
    pub fn new() -> (r: CatalogSearchLoopGuard)
        ensures
            r.current_streak == 0,
            r.max_streak == 0,
            r.previous_signature is None,
    {
        CatalogSearchLoopGuard { current_streak: 0, max_streak: 0, previous_signature: None }
    }

    /// Records an empty search: the streak grows when the signature repeats
    /// and restarts at one otherwise.  Returns `true` exactly when the
    /// streak reaches two, so the loop hint is given once per streak.
    pub fn observe_empty(&mut self, signature: Option<String>) -> (hint: bool)
        ensures
            final(self).current_streak == if same_signature(old(self).previous_signature, signature) {
                if old(self).current_streak == u64::MAX {
                    u64::MAX
                } else {
                    (old(self).current_streak + 1) as u64
                }
            } else {
                1
            },
            final(self).previous_signature == signature,
            final(self).max_streak == if final(self).current_streak > old(self).max_streak {
                final(self).current_streak
            } else {
                old(self).max_streak
            },
            hint == (final(self).current_streak == 2),
    {
        let same = match (&self.previous_signature, &signature) {
            (Some(p), Some(c)) => str_eq(p.as_str(), c.as_str()),
            _ => false,
        };
        if same {
            self.current_streak = self.current_streak.saturating_add(1);
        } else {
            self.current_streak = 1;
        }
        self.previous_signature = signature;
        if self.current_streak > self.max_streak {
            self.max_streak = self.current_streak;
        }
        self.current_streak == 2
    }

    pub fn observe_non_empty(&mut self)
        ensures
            final(self).current_streak == 0,
            final(self).previous_signature is None,
            final(self).max_streak == old(self).max_streak,
    {
        self.current_streak = 0;
        self.previous_signature = None;
    }

    pub fn max_streak(&self) -> (r: u64)
        ensures
            r == self.max_streak,
    {
        self.max_streak
    }
}

/// Tracks repeats of the same plan-check failure.
pub struct PlanCheckFailureLoopGuard {
    pub current_streak: u64,
    pub previous_signature: Option<String>,
}

impl PlanCheckFailureLoopGuard {
    pub fn new() -> (r: PlanCheckFailureLoopGuard)
        ensures
            r.current_streak == 0,
            r.previous_signature is None,
    {
        PlanCheckFailureLoopGuard { current_streak: 0, previous_signature: None }
    }

    /// Records a plan check: no signature (a pass) resets the streak; the
    /// same failure again extends it.  Returns whether the streak has
    /// reached the threshold.
    pub fn observe(&mut self, signature: Option<String>) -> (repeated: bool)
        ensures
            signature is None ==> final(self).current_streak == 0 && final(self).previous_signature
                is None && !repeated,
            signature is Some ==> final(self).previous_signature == signature
                && final(self).current_streak == if same_signature(
                old(self).previous_signature,
                signature,
            ) {
                if old(self).current_streak == u64::MAX {
                    u64::MAX
                } else {
                    (old(self).current_streak + 1) as u64
                }
            } else {
                1
            } && repeated == (final(self).current_streak >= REPEATED_PLAN_CHECK_FAILURE_THRESHOLD),
    {
        let current = match signature {
            None => {
                self.current_streak = 0;
                self.previous_signature = None;
                return false;
            },
            Some(c) => c,
        };
        let same = match &self.previous_signature {
            Some(p) => str_eq(p.as_str(), current.as_str()),
            None => false,
        };
        if same {
            self.current_streak = self.current_streak.saturating_add(1);
        } else {
            self.current_streak = 1;
        }
        self.previous_signature = Some(current);
        self.current_streak >= REPEATED_PLAN_CHECK_FAILURE_THRESHOLD
    }

    pub fn streak(&self) -> (r: u64)
        ensures
            r == self.current_streak,
    {
        self.current_streak
    }
}

/// The count stored under `key` (zero when there is none).
pub open spec fn count_at(m: Seq<(String, u64)>, key: Seq<char>) -> int {
    match lookup(m, key) {
        Some(c) => c as int,
        None => 0,
    }
}

/// Adds `by` (saturating) to the count under `key`.
pub fn bump(m: &mut Vec<(String, u64)>, key: &str, by: u64)
    requires
        keys_sorted(old(m)@),
    ensures
        keys_sorted(final(m)@),
        count_at(final(m)@, key@) == sat_add(count_at(old(m)@, key@), by as int),
        lookup(final(m)@, key@) is Some,
        forall|k: Seq<char>| k != key@ ==> lookup(final(m)@, k) == lookup(old(m)@, k),
{
    let current = match find_key(m, key) {
        Ok(i) => m[i].1,
        Err(_) => 0,
    };
    put(m, to_owned_string(key), current.saturating_add(by));
}

/// Raises the value under `key` to at least `v` (creating it at `v`).
pub fn raise_to(m: &mut Vec<(String, u64)>, key: &str, v: u64)
    requires
        keys_sorted(old(m)@),
    ensures
        keys_sorted(final(m)@),
        count_at(final(m)@, key@) == if count_at(old(m)@, key@) >= v {
            count_at(old(m)@, key@)
        } else {
            v as int
        },
        forall|k: Seq<char>| k != key@ ==> lookup(final(m)@, k) == lookup(old(m)@, k),
{
    let current = match find_key(m, key) {
        Ok(i) => m[i].1,
        Err(_) => 0,
    };
    let next = if v > current {
        v
    } else {
        current
    };
    put(m, to_owned_string(key), next);
}

pub open spec fn inc(x: u64) -> u64 {
    if x == u64::MAX {
        u64::MAX
    } else {
        (x + 1) as u64
    }
}

/// Counters of one planning run.  Every `*_by_*` field is a list of
/// `(name, count)` in name order.
pub struct PlannerDiagnosticsTracker {
    pub total_tool_calls: u64,
    pub duplicate_tool_calls: u64,
    pub tool_call_count_by_tool: Vec<(String, u64)>,
    pub tool_result_count_by_tool: Vec<(String, u64)>,
    pub memory_hits_by_tool: Vec<(String, u64)>,
    pub phase_round_count: Vec<(String, u64)>,
    pub memory_projection_budget_tokens: u64,
    pub memory_projection_estimated_tokens: u64,
    pub finalize_schema_repair_attempts_total: u64,
    pub finalize_schema_repair_exhausted_total: u64,
    pub finalize_schema_repair_by_sub_reason: Vec<(String, u64)>,
    pub no_toolcall_retries_total: u64,
    pub no_toolcall_retries_exhausted_total: u64,
    pub empty_search_streak_max: u64,
    pub parallel_batches_total: u64,
    pub parallel_calls_total: u64,
    pub parallel_failures_total: u64,
    pub parallel_partial_success_total: u64,
    pub tool_exec_total: u64,
    pub tool_exec_success: u64,
    pub tool_exec_error: u64,
    pub tool_exec_cached_hit: u64,
    pub tool_exec_parallel: u64,
    pub tool_exec_sequential: u64,
    pub tool_exec_blocked_finalize: u64,
    pub tool_exec_repair_retry: u64,
    pub tool_exec_repair_exhausted: u64,
    pub tool_exec_count_by_tool: Vec<(String, u64)>,
    pub tool_exec_error_by_tool: Vec<(String, u64)>,
    pub tool_exec_latency_sum_ms_by_tool: Vec<(String, u64)>,
    pub tool_exec_latency_max_ms_by_tool: Vec<(String, u64)>,
    pub seen_tool_call_keys: Vec<(String, ())>,
}

impl PlannerDiagnosticsTracker {
    pub open spec fn wf(&self) -> bool {
        &&& keys_sorted(self.tool_call_count_by_tool@)
        &&& keys_sorted(self.tool_result_count_by_tool@)
        &&& keys_sorted(self.memory_hits_by_tool@)
        &&& keys_sorted(self.phase_round_count@)
        &&& keys_sorted(self.finalize_schema_repair_by_sub_reason@)
        &&& keys_sorted(self.tool_exec_count_by_tool@)
        &&& keys_sorted(self.tool_exec_error_by_tool@)
        &&& keys_sorted(self.tool_exec_latency_sum_ms_by_tool@)
        &&& keys_sorted(self.tool_exec_latency_max_ms_by_tool@)
        &&& keys_sorted(self.seen_tool_call_keys@)
    }

    pub fn new() -> (r: PlannerDiagnosticsTracker)
        ensures
            r.wf(),
            r.total_tool_calls == 0,
            r.duplicate_tool_calls == 0,
            r.tool_call_count_by_tool@.len() == 0,
            r.seen_tool_call_keys@.len() == 0,
    {
        PlannerDiagnosticsTracker {
            total_tool_calls: 0,
            duplicate_tool_calls: 0,
            tool_call_count_by_tool: Vec::new(),
            tool_result_count_by_tool: Vec::new(),
            memory_hits_by_tool: Vec::new(),
            phase_round_count: Vec::new(),
            memory_projection_budget_tokens: 0,
            memory_projection_estimated_tokens: 0,
            finalize_schema_repair_attempts_total: 0,
            finalize_schema_repair_exhausted_total: 0,
            finalize_schema_repair_by_sub_reason: Vec::new(),
            no_toolcall_retries_total: 0,
            no_toolcall_retries_exhausted_total: 0,
            empty_search_streak_max: 0,
            parallel_batches_total: 0,
            parallel_calls_total: 0,
            parallel_failures_total: 0,
            parallel_partial_success_total: 0,
            tool_exec_total: 0,
            tool_exec_success: 0,
            tool_exec_error: 0,
            tool_exec_cached_hit: 0,
            tool_exec_parallel: 0,
            tool_exec_sequential: 0,
            tool_exec_blocked_finalize: 0,
            tool_exec_repair_retry: 0,
            tool_exec_repair_exhausted: 0,
            tool_exec_count_by_tool: Vec::new(),
            tool_exec_error_by_tool: Vec::new(),
            tool_exec_latency_sum_ms_by_tool: Vec::new(),
            tool_exec_latency_max_ms_by_tool: Vec::new(),
            seen_tool_call_keys: Vec::new(),
        }
    }

    /// Counts one planning round of the phase named `phase`.
    pub fn observe_phase_round(&mut self, phase: &str)
        requires
            old(self).wf(),
        ensures
            final(self).wf(),
            count_at(final(self).phase_round_count@, phase@) == sat_add(
                count_at(old(self).phase_round_count@, phase@),
                1,
            ),
    {
        bump(&mut self.phase_round_count, phase, 1);
    }

    /// Counts a tool call; a call whose dedupe key was seen before is a
    /// duplicate, and the result says so.
    pub fn observe_tool_call(&mut self, tool_name: &str, dedupe_key: Option<String>) -> (duplicate: bool)
        requires
            old(self).wf(),
        ensures
            final(self).wf(),
            final(self).total_tool_calls == inc(old(self).total_tool_calls),
            count_at(final(self).tool_call_count_by_tool@, tool_name@) == sat_add(
                count_at(old(self).tool_call_count_by_tool@, tool_name@),
                1,
            ),
            duplicate == (dedupe_key matches Some(k) && lookup(old(self).seen_tool_call_keys@, k@)
                is Some),
            final(self).duplicate_tool_calls == if duplicate {
                inc(old(self).duplicate_tool_calls)
            } else {
                old(self).duplicate_tool_calls
            },
            dedupe_key matches Some(k) ==> lookup(final(self).seen_tool_call_keys@, k@) is Some,
    {
        self.total_tool_calls = self.total_tool_calls.saturating_add(1);
        bump(&mut self.tool_call_count_by_tool, tool_name, 1);
        let key = match dedupe_key {
            None => return false,
            Some(k) => k,
        };
        match find_key(&self.seen_tool_call_keys, key.as_str()) {
            Ok(_) => {
                self.duplicate_tool_calls = self.duplicate_tool_calls.saturating_add(1);
                true
            },
            Err(_) => {
                put(&mut self.seen_tool_call_keys, key, ());
                false
            },
        }
    }

    /// Counts a tool result, and a memory hit when it came from the cache.
    pub fn observe_tool_result(&mut self, tool_name: &str, cached: bool)
        requires
            old(self).wf(),
        ensures
            final(self).wf(),
            count_at(final(self).tool_result_count_by_tool@, tool_name@) == sat_add(
                count_at(old(self).tool_result_count_by_tool@, tool_name@),
                1,
            ),
            cached ==> count_at(final(self).memory_hits_by_tool@, tool_name@) == sat_add(
                count_at(old(self).memory_hits_by_tool@, tool_name@),
                1,
            ),
            !cached ==> final(self).memory_hits_by_tool@ == old(self).memory_hits_by_tool@,
    {
        bump(&mut self.tool_result_count_by_tool, tool_name, 1);
        if cached {
            bump(&mut self.memory_hits_by_tool, tool_name, 1);
        }
    }

    pub fn observe_empty_search_streak(&mut self, streak: u64)
        ensures
            final(self).empty_search_streak_max == if streak > old(self).empty_search_streak_max {
                streak
            } else {
                old(self).empty_search_streak_max
            },
    {
        if streak > self.empty_search_streak_max {
            self.empty_search_streak_max = streak;
        }
    }

    pub fn observe_finalize_schema_repair_attempt(&mut self, sub_reason_code: &str)
        requires
            old(self).wf(),
        ensures
            final(self).wf(),
            final(self).finalize_schema_repair_attempts_total == inc(
                old(self).finalize_schema_repair_attempts_total,
            ),
            count_at(final(self).finalize_schema_repair_by_sub_reason@, sub_reason_code@) == sat_add(
                count_at(old(self).finalize_schema_repair_by_sub_reason@, sub_reason_code@),
                1,
            ),
    {
        self.finalize_schema_repair_attempts_total = self.finalize_schema_repair_attempts_total.saturating_add(
            1,
        );
        bump(&mut self.finalize_schema_repair_by_sub_reason, sub_reason_code, 1);
    }

    pub fn observe_tool_memory_projection(&mut self, budget_tokens: usize, estimated_tokens: Option<u64>)
        ensures
            final(self).memory_projection_budget_tokens == budget_tokens,
            final(self).memory_projection_estimated_tokens == match estimated_tokens {
                Some(t) => t,
                None => 0,
            },
    {
        self.memory_projection_budget_tokens = budget_tokens as u64;
        self.memory_projection_estimated_tokens = match estimated_tokens {
            Some(t) => t,
            None => 0,
        };
    }

    pub fn observe_finalize_schema_repair_exhausted(&mut self)
        ensures
            final(self).finalize_schema_repair_exhausted_total == inc(
                old(self).finalize_schema_repair_exhausted_total,
            ),
    {
        self.finalize_schema_repair_exhausted_total = self.finalize_schema_repair_exhausted_total.saturating_add(
            1,
        );
    }

    pub fn observe_no_toolcall_retry(&mut self)
        ensures
            final(self).no_toolcall_retries_total == inc(old(self).no_toolcall_retries_total),
    {
        self.no_toolcall_retries_total = self.no_toolcall_retries_total.saturating_add(1);
    }

    pub fn observe_no_toolcall_retry_exhausted(&mut self)
        ensures
            final(self).no_toolcall_retries_exhausted_total == inc(
                old(self).no_toolcall_retries_exhausted_total,
            ),
    {
        self.no_toolcall_retries_exhausted_total = self.no_toolcall_retries_exhausted_total.saturating_add(
            1,
        );
    }

    pub fn observe_parallel_batch(&mut self, calls: u64)
        ensures
            final(self).parallel_batches_total == inc(old(self).parallel_batches_total),
            final(self).parallel_calls_total == sat_add(old(self).parallel_calls_total as int, calls as int),
    {
        self.parallel_batches_total = self.parallel_batches_total.saturating_add(1);
        self.parallel_calls_total = self.parallel_calls_total.saturating_add(calls);
    }

    pub fn observe_parallel_partial_success(&mut self)
        ensures
            final(self).parallel_partial_success_total == inc(old(self).parallel_partial_success_total),
    {
        self.parallel_partial_success_total = self.parallel_partial_success_total.saturating_add(1);
    }

    /// Counts a finished tool execution by mode and status; any status other
    /// than `success`, `cached_hit` and `blocked_finalize` is an error.
    pub fn observe_tool_exec_end(&mut self, tool_name: &str, mode: &str, status: &str, latency_ms: u64)
        requires
            old(self).wf(),
        ensures
            final(self).wf(),
            final(self).tool_exec_total == inc(old(self).tool_exec_total),
            count_at(final(self).tool_exec_count_by_tool@, tool_name@) == sat_add(
                count_at(old(self).tool_exec_count_by_tool@, tool_name@),
                1,
            ),
            mode@ == "parallel"@ ==> final(self).tool_exec_parallel == inc(
                old(self).tool_exec_parallel,
            ) && final(self).tool_exec_sequential == old(self).tool_exec_sequential,
            mode@ != "parallel"@ ==> final(self).tool_exec_sequential == inc(
                old(self).tool_exec_sequential,
            ) && final(self).tool_exec_parallel == old(self).tool_exec_parallel,
            final(self).tool_exec_success == if status@ == "success"@ {
                inc(old(self).tool_exec_success)
            } else {
                old(self).tool_exec_success
            },
            final(self).tool_exec_cached_hit == if status@ == "cached_hit"@ {
                inc(old(self).tool_exec_cached_hit)
            } else {
                old(self).tool_exec_cached_hit
            },
            final(self).tool_exec_blocked_finalize == if status@ == "blocked_finalize"@ {
                inc(old(self).tool_exec_blocked_finalize)
            } else {
                old(self).tool_exec_blocked_finalize
            },
            final(self).tool_exec_error == if is_error_status(status@) {
                inc(old(self).tool_exec_error)
            } else {
                old(self).tool_exec_error
            },
            final(self).parallel_failures_total == if is_error_status(status@) && mode@
                == "parallel"@ {
                inc(old(self).parallel_failures_total)
            } else {
                old(self).parallel_failures_total
            },
            is_error_status(status@) ==> count_at(final(self).tool_exec_error_by_tool@, tool_name@)
                == sat_add(count_at(old(self).tool_exec_error_by_tool@, tool_name@), 1),
            count_at(final(self).tool_exec_latency_sum_ms_by_tool@, tool_name@) == sat_add(
                count_at(old(self).tool_exec_latency_sum_ms_by_tool@, tool_name@),
                latency_ms as int,
            ),
            count_at(final(self).tool_exec_latency_max_ms_by_tool@, tool_name@) == if count_at(
                old(self).tool_exec_latency_max_ms_by_tool@,
                tool_name@,
            ) >= latency_ms {
                count_at(old(self).tool_exec_latency_max_ms_by_tool@, tool_name@)
            } else {
                latency_ms as int
            },
    {
        proof {
            reveal_strlit("success");
            reveal_strlit("cached_hit");
            reveal_strlit("blocked_finalize");
            assert("success"@.len() != "cached_hit"@.len());
            assert("success"@.len() != "blocked_finalize"@.len());
            assert("cached_hit"@.len() != "blocked_finalize"@.len());
        }
        self.tool_exec_total = self.tool_exec_total.saturating_add(1);
        bump(&mut self.tool_exec_count_by_tool, tool_name, 1);
        let parallel = str_eq(mode, "parallel");
        if parallel {
            self.tool_exec_parallel = self.tool_exec_parallel.saturating_add(1);
        } else {
            self.tool_exec_sequential = self.tool_exec_sequential.saturating_add(1);
        }
        if str_eq(status, "success") {
            self.tool_exec_success = self.tool_exec_success.saturating_add(1);
        } else if str_eq(status, "cached_hit") {
            self.tool_exec_cached_hit = self.tool_exec_cached_hit.saturating_add(1);
        } else if str_eq(status, "blocked_finalize") {
            self.tool_exec_blocked_finalize = self.tool_exec_blocked_finalize.saturating_add(1);
        } else {
            self.tool_exec_error = self.tool_exec_error.saturating_add(1);
            bump(&mut self.tool_exec_error_by_tool, tool_name, 1);
            if parallel {
                self.parallel_failures_total = self.parallel_failures_total.saturating_add(1);
            }
        }
        bump(&mut self.tool_exec_latency_sum_ms_by_tool, tool_name, latency_ms);
        raise_to(&mut self.tool_exec_latency_max_ms_by_tool, tool_name, latency_ms);
    }

    pub fn observe_tool_exec_retry(&mut self, exhausted: bool)
        ensures
            final(self).tool_exec_repair_exhausted == if exhausted {
                inc(old(self).tool_exec_repair_exhausted)
            } else {
                old(self).tool_exec_repair_exhausted
            },
            final(self).tool_exec_repair_retry == if !exhausted {
                inc(old(self).tool_exec_repair_retry)
            } else {
                old(self).tool_exec_repair_retry
            },
    {
        if exhausted {
            self.tool_exec_repair_exhausted = self.tool_exec_repair_exhausted.saturating_add(1);
        } else {
            self.tool_exec_repair_retry = self.tool_exec_repair_retry.saturating_add(1);
        }
    }

    /// Duplicate calls per ten thousand calls.
    pub fn duplicate_ratio_bps(&self) -> (r: u64)
        ensures
            r == if self.total_tool_calls == 0 {
                0
            } else {
                sat_mul(self.duplicate_tool_calls as int, 10000, u64::MAX as int)
                    / self.total_tool_calls as int
            },
    {
        if self.total_tool_calls == 0 {
            return 0;
        }
        let p = match self.duplicate_tool_calls.checked_mul(10000) {
            Some(x) => x,
            None => u64::MAX,
        };
        p / self.total_tool_calls
    }

    /// Discovery-tool calls per ten thousand calls.
    pub fn discovery_ratio_bps(&self) -> (r: u64)
        requires
            self.wf(),
        ensures
            r == if self.total_tool_calls == 0 {
                0
            } else {
                sat_mul(
                    discovery_calls(self.tool_call_count_by_tool@),
                    10000,
                    u64::MAX as int,
                ) / self.total_tool_calls as int
            },
    {
        if self.total_tool_calls == 0 {
            return 0;
        }
        let a = count_of_key(&self.tool_call_count_by_tool, "list_candidates");
        let b = count_of_key(&self.tool_call_count_by_tool, "catalog.search");
        let c = count_of_key(&self.tool_call_count_by_tool, "get_candidate_detail");
        let d = count_of_key(&self.tool_call_count_by_tool, "guide.get");
        let s = a.saturating_add(b).saturating_add(c).saturating_add(d);
        let p = match s.checked_mul(10000) {
            Some(x) => x,
            None => u64::MAX,
        };
        p / self.total_tool_calls
    }
}

/// The calls of the discovery tools, summed with saturation.
pub open spec fn discovery_calls(m: Seq<(String, u64)>) -> int {
    sat_add(
        sat_add(
            sat_add(count_at(m, "list_candidates"@), count_at(m, "catalog.search"@)),
            count_at(m, "get_candidate_detail"@),
        ),
        count_at(m, "guide.get"@),
    )
}

pub open spec fn is_error_status(status: Seq<char>) -> bool {
    status != "success"@ && status != "cached_hit"@ && status != "blocked_finalize"@
}

fn count_of_key(m: &Vec<(String, u64)>, key: &str) -> (r: u64)
    requires
        keys_sorted(m@),
    ensures
        r == count_at(m@, key@),
{
    match find_key(m, key) {
        Ok(i) => m[i].1,
        Err(_) => 0,
    }
}

/// Token usage of the planner's model calls.
pub struct PlannerLlmUsageTracker {
    pub calls: u64,
    pub input_tokens: u64,
    pub output_tokens: u64,
    pub total_tokens: u64,
    pub estimated_calls: u64,
    pub context_limit_tokens: Option<u64>,
    pub latest_input_tokens: u64,
    pub latest_total_tokens: u64,
}

/// The usage of one call.
pub struct PlannerLlmCallUsage {
    pub input_tokens: u64,
    pub output_tokens: u64,
    pub total_tokens: u64,
    pub cumulative_input_tokens: u64,
    pub cumulative_output_tokens: u64,
    pub cumulative_total_tokens: u64,
    pub context_limit_tokens: Option<u64>,
    pub context_soft_limit_tokens: Option<u64>,
    pub context_remaining_tokens: Option<u64>,
}

impl PlannerLlmUsageTracker {
    pub fn new() -> (r: PlannerLlmUsageTracker)
        ensures
            r.calls == 0 && r.input_tokens == 0 && r.output_tokens == 0 && r.total_tokens == 0,
            r.estimated_calls == 0 && r.latest_input_tokens == 0 && r.latest_total_tokens == 0,
            r.context_limit_tokens is None,
    {
        PlannerLlmUsageTracker {
            calls: 0,
            input_tokens: 0,
            output_tokens: 0,
            total_tokens: 0,
            estimated_calls: 0,
            context_limit_tokens: None,
            latest_input_tokens: 0,
            latest_total_tokens: 0,
        }
    }

    pub fn with_context_limit_tokens(self, context_limit_tokens: Option<u64>) -> (r: PlannerLlmUsageTracker)
        ensures
            r.context_limit_tokens == context_limit_tokens,
            r.calls == self.calls && r.input_tokens == self.input_tokens && r.output_tokens
                == self.output_tokens && r.total_tokens == self.total_tokens,
    {
        let mut s = self;
        s.context_limit_tokens = context_limit_tokens;
        s
    }

    /// Records one estimated call of `input_tokens` in and `output_tokens`
    /// out; the context headroom is that of this request under the soft
    /// limit.
    pub fn record(&mut self, input_tokens: u64, output_tokens: u64) -> (u: PlannerLlmCallUsage)
        ensures
            u.total_tokens == sat_add(input_tokens as int, output_tokens as int),
            final(self).calls == inc(old(self).calls),
            final(self).input_tokens == sat_add(old(self).input_tokens as int, input_tokens as int),
            final(self).output_tokens == sat_add(old(self).output_tokens as int, output_tokens as int),
            final(self).total_tokens == sat_add(old(self).total_tokens as int, u.total_tokens as int),
            final(self).latest_input_tokens == input_tokens,
            u.cumulative_total_tokens == final(self).total_tokens,
            u.context_soft_limit_tokens == match old(self).context_limit_tokens {
                Some(l) => Some((sat_mul(l as int, 9, u64::MAX as int) / 10) as u64),
                None => None,
            },
            u.context_remaining_tokens == match u.context_soft_limit_tokens {
                Some(s) => Some(if s >= input_tokens {
                    (s - input_tokens) as u64
                } else {
                    0
                }),
                None => None,
            },
    {
        let total = input_tokens.saturating_add(output_tokens);
        self.calls = self.calls.saturating_add(1);
        self.input_tokens = self.input_tokens.saturating_add(input_tokens);
        self.output_tokens = self.output_tokens.saturating_add(output_tokens);
        self.total_tokens = self.total_tokens.saturating_add(total);
        self.estimated_calls = self.estimated_calls.saturating_add(1);
        self.latest_input_tokens = input_tokens;
        self.latest_total_tokens = total;
        let soft = match self.context_limit_tokens {
            Some(l) => Some(context_soft_limit_tokens(l)),
            None => None,
        };
        let remaining = match soft {
            Some(s) => Some(s.saturating_sub(input_tokens)),
            None => None,
        };
        PlannerLlmCallUsage {
            input_tokens,
            output_tokens,
            total_tokens: total,
            cumulative_input_tokens: self.input_tokens,
            cumulative_output_tokens: self.output_tokens,
            cumulative_total_tokens: self.total_tokens,
            context_limit_tokens: self.context_limit_tokens,
            context_soft_limit_tokens: soft,
            context_remaining_tokens: remaining,
        }
    }
}

// ---------------------------------------------------------------------------
// Text rules of the planner tools
// ---------------------------------------------------------------------------

/// Read-only tools that may run in parallel.
pub fn is_parallel_readonly_tool(tool_name: &str) -> (r: bool)
    ensures
        r == (tool_name@ == "catalog.search"@ || tool_name@ == "get_candidate_detail"@ || tool_name@
            == "guide.get"@ || tool_name@ == "list_candidates"@),
{
    str_eq(tool_name, "catalog.search") || str_eq(tool_name, "get_candidate_detail") || str_eq(
        tool_name,
        "guide.get",
    ) || str_eq(tool_name, "list_candidates")
}

/// A text cut to `max_len` characters, with `...` when cut.
pub fn truncate_for_log(input: &str, max_len: usize) -> (r: String)
    ensures
        input@.len() <= max_len ==> r@ == input@,
        input@.len() > max_len ==> r@ == input@.take(max_len as int) + "..."@,
{
    let cs = chars_of(input);
    if cs.len() <= max_len {
        return to_owned_string(input);
    }
    let mut out = string_from_range(&cs, 0, max_len);
    push_str(&mut out, "...");
    assert(cs@.subrange(0, max_len as int) =~= input@.take(max_len as int));
    out
}

/// A chain filter matches a chain: blank filters and `*` on either side
/// match everything, equal chains match, and a trailing `*` on either side
/// matches by prefix; all ignoring surrounding blanks and ASCII case.
pub open spec fn chain_filter_spec(filter: Seq<char>, chain: Seq<char>) -> bool {
    let f = lower(trim(filter));
    let c = lower(trim(chain));
    if f.len() == 0 || f == "*"@ || c == "*"@ || f == c {
        true
    } else {
        match strip_suffix(f, "*"@) {
            Some(p) => starts_with(c, p),
            None => match strip_suffix(c, "*"@) {
                Some(p) => starts_with(f, p),
                None => false,
            },
        }
    }
}

pub fn list_chain_filter_matches(filter: &str, candidate_chain: &str) -> (r: bool)
    ensures
        r == chain_filter_spec(filter@, candidate_chain@),
{
    let ft = trim_str(filter);
    let f = to_ascii_lowercase(ft.as_str());
    let ct = trim_str(candidate_chain);
    let c = to_ascii_lowercase(ct.as_str());
    if f.as_str().is_empty() || str_eq(f.as_str(), "*") || str_eq(c.as_str(), "*") || str_eq(
        f.as_str(),
        c.as_str(),
    ) {
        return true;
    }
    match str_strip_suffix(f.as_str(), "*") {
        Some(p) => str_starts_with(c.as_str(), p.as_str()),
        None => match str_strip_suffix(c.as_str(), "*") {
            Some(p) => str_starts_with(f.as_str(), p.as_str()),
            None => false,
        },
    }
}

pub open spec fn texts(v: Seq<String>) -> Seq<Seq<char>> {
    v.map_values(|x: String| x@)
}

pub open spec fn numbered(lines: Seq<String>) -> Seq<Seq<char>> {
    Seq::new(lines.len(), |i: int| decimal((i + 1) as nat) + ". "@ + lines[i]@)
}

/// `1. first`, `2. second`, ... one per line.
pub fn numbered_lines(lines: &Vec<String>) -> (r: String)
    ensures
        r@ == join(numbered(lines@), "\n"@),
{
    let mut items: Vec<String> = Vec::new();
    let mut i: usize = 0;
    while i < lines.len()
        invariant
            i <= lines@.len(),
            items@.len() == i,
            forall|k: int| 0 <= k < i ==> #[trigger] items@[k]@ == numbered(lines@)[k],
        decreases lines.len() - i,
    {
        let mut s = String::new();
        push_decimal(&mut s, (i + 1) as u64);
        push_str(&mut s, ". ");
        push_str(&mut s, lines[i].as_str());
        assert(s@ =~= numbered(lines@)[i as int]);
        items.push(s);
        i = i + 1;
    }
    assert(texts(items@) =~= numbered(lines@));
    join_strings(&items, "\n")
}

/// The trimmed, non-blank lines, in order.
pub open spec fn clean_lines(ls: Seq<String>) -> Seq<Seq<char>>
    decreases ls.len(),
{
    if ls.len() == 0 {
        Seq::empty()
    } else {
        let rest = clean_lines(ls.drop_last());
        if trim(ls.last()@).len() == 0 {
            rest
        } else {
            rest.push(trim(ls.last()@))
        }
    }
}

/// The trimmed rule lines without blanks; `None` when none is left.
pub fn non_empty_rules(lines: Option<Vec<String>>) -> (r: Option<Vec<String>>)
    ensures
        match lines {
            None => r is None,
            Some(ls) => if clean_lines(ls@).len() == 0 {
                r is None
            } else {
                r matches Some(out) && texts(out@) == clean_lines(ls@)
            },
        },
{
    let ls = match lines {
        None => return None,
        Some(l) => l,
    };
    let mut out: Vec<String> = Vec::new();
    let mut i: usize = 0;
    while i < ls.len()
        invariant
            i <= ls@.len(),
            texts(out@) == clean_lines(ls@.subrange(0, i as int)),
        decreases ls.len() - i,
    {
        proof {
            let pre = ls@.subrange(0, i + 1);
            assert(pre.drop_last() =~= ls@.subrange(0, i as int));
            assert(pre.last() == ls@[i as int]);
        }
        let t = trim_str(ls[i].as_str());
        if !t.as_str().is_empty() {
            let ghost before = out@;
            out.push(t);
            assert(texts(out@) =~= texts(before).push(trim(ls@[i as int]@)));
        }
        i = i + 1;
    }
    assert(ls@.subrange(0, ls@.len() as int) =~= ls@);
    if out.len() == 0 {
        None
    } else {
        Some(out)
    }
}


// ---------------------------------------------------------------------------
// Reports
// ---------------------------------------------------------------------------

pub open spec fn num_view(n: u64) -> JsonView {
    JsonView::Number(NumberView::PosInt(n))
}

/// A counter map as a JSON object.
pub open spec fn counts_object(m: Seq<(String, u64)>) -> Seq<(Seq<char>, JsonView)>
    decreases m.len(),
{
    if m.len() == 0 {
        Seq::empty()
    } else {
        obj_insert(counts_object(m.drop_last()), m.last().0@, num_view(m.last().1))
    }
}

fn counts_value(m: &Vec<(String, u64)>) -> (r: JsonValue)
    ensures
        r@ == JsonView::Object(counts_object(m@)),
{
    let mut out: Vec<(String, JsonValue)> = Vec::new();
    let mut i: usize = 0;
    assert(m@.subrange(0, 0) =~= Seq::<(String, u64)>::empty());
    assert(entries_view(out@) =~= Seq::<(Seq<char>, JsonView)>::empty());
    while i < m.len()
        invariant
            i <= m@.len(),
            entries_view(out@) == counts_object(m@.subrange(0, i as int)),
        decreases m.len() - i,
    {
        let ghost cur = m@.subrange(0, i + 1);
        assert(cur.drop_last() =~= m@.subrange(0, i as int));
        assert(cur.last() == m@[i as int]);
        insert_entry(&mut out, to_owned_string(m[i].0.as_str()), JsonValue::Number(JsonNumber::PosInt(m[i].1)));
        i = i + 1;
    }
    assert(m@.subrange(0, m@.len() as int) =~= m@);
    proof {
        lemma_object_view(out);
    }
    JsonValue::Object(out)
}

/// Hits, total and hit rate (per ten thousand, saturating) of one tool.
pub open spec fn hit_rate_view(hits: u64, total: u64) -> JsonView {
    let rate = if total == 0 {
        0
    } else {
        (sat_mul(hits as int, 10000, u64::MAX as int) / total as int) as u64
    };
    JsonView::Object(
        obj_insert(
            obj_insert(obj_insert(Seq::empty(), "hits"@, num_view(hits)), "total"@, num_view(total)),
            "rate_bps"@,
            num_view(rate),
        ),
    )
}

/// The memory hit rate of each tool with results.
pub open spec fn hit_rates(results: Seq<(String, u64)>, hits: Seq<(String, u64)>) -> Seq<(Seq<char>, JsonView)>
    decreases results.len(),
{
    if results.len() == 0 {
        Seq::empty()
    } else {
        let k = results.last().0@;
        obj_insert(hit_rates(results.drop_last(), hits), k, hit_rate_view(count_at(hits, k) as u64, results.last().1))
    }
}

/// The planner's usage report.
pub open spec fn usage_value_spec(t: PlannerLlmUsageTracker) -> JsonView {
    let soft = match t.context_limit_tokens {
        Some(l) => Some((sat_mul(l as int, 9, u64::MAX as int) / 10) as u64),
        None => None,
    };
    let opt = |o: Option<u64>| match o {
        Some(n) => num_view(n),
        None => JsonView::Null,
    };
    let e0 = obj_insert(Seq::empty(), "schema"@, JsonView::Str("ais-agent-llm-usage/0.0.1"@));
    let e1 = obj_insert(e0, "calls"@, num_view(t.calls));
    let e2 = obj_insert(e1, "input_tokens"@, num_view(t.input_tokens));
    let e3 = obj_insert(e2, "output_tokens"@, num_view(t.output_tokens));
    let e4 = obj_insert(e3, "total_tokens"@, num_view(t.total_tokens));
    let e5 = obj_insert(e4, "estimated_calls"@, num_view(t.estimated_calls));
    let e6 = obj_insert(e5, "source"@, JsonView::Str("estimated(chars_div_4)"@));
    let e7 = obj_insert(e6, "context_limit_tokens"@, opt(t.context_limit_tokens));
    let e8 = obj_insert(e7, "context_soft_limit_tokens"@, opt(soft));
    let e9 = obj_insert(e8, "context_window_input_tokens"@, num_view(t.latest_input_tokens));
    let e10 = obj_insert(e9, "context_window_total_tokens"@, num_view(t.latest_total_tokens));
    JsonView::Object(
        obj_insert(
            e10,
            "context_remaining_tokens"@,
            opt(
                match soft {
                    Some(s) => Some(
                        if s >= t.latest_input_tokens {
                            (s - t.latest_input_tokens) as u64
                        } else {
                            0
                        },
                    ),
                    None => None,
                },
            ),
        ),
    )
}

fn opt_num(o: Option<u64>) -> (r: JsonValue)
    ensures
        r@ == match o {
            Some(n) => num_view(n),
            None => JsonView::Null,
        },
{
    match o {
        Some(n) => JsonValue::Number(JsonNumber::PosInt(n)),
        None => JsonValue::Null,
    }
}

impl PlannerLlmUsageTracker {
    pub fn to_value(&self) -> (r: JsonValue)
        ensures
            r@ == usage_value_spec(*self),
    {
        let soft = match self.context_limit_tokens {
            Some(l) => Some(context_soft_limit_tokens(l)),
            None => None,
        };
        let remaining = match soft {
            Some(s) => Some(s.saturating_sub(self.latest_input_tokens)),
            None => None,
        };
        let mut o = JsonValue::empty_object();
        o.insert(to_owned_string("schema"), JsonValue::String(to_owned_string("ais-agent-llm-usage/0.0.1")));
        o.insert(to_owned_string("calls"), JsonValue::Number(JsonNumber::PosInt(self.calls)));
        o.insert(to_owned_string("input_tokens"), JsonValue::Number(JsonNumber::PosInt(self.input_tokens)));
        o.insert(to_owned_string("output_tokens"), JsonValue::Number(JsonNumber::PosInt(self.output_tokens)));
        o.insert(to_owned_string("total_tokens"), JsonValue::Number(JsonNumber::PosInt(self.total_tokens)));
        o.insert(to_owned_string("estimated_calls"), JsonValue::Number(JsonNumber::PosInt(self.estimated_calls)));
        o.insert(to_owned_string("source"), JsonValue::String(to_owned_string("estimated(chars_div_4)")));
        o.insert(to_owned_string("context_limit_tokens"), opt_num(self.context_limit_tokens));
        o.insert(to_owned_string("context_soft_limit_tokens"), opt_num(soft));
        o.insert(
            to_owned_string("context_window_input_tokens"),
            JsonValue::Number(JsonNumber::PosInt(self.latest_input_tokens)),
        );
        o.insert(
            to_owned_string("context_window_total_tokens"),
            JsonValue::Number(JsonNumber::PosInt(self.latest_total_tokens)),
        );
        o.insert(to_owned_string("context_remaining_tokens"), opt_num(remaining));
        o
    }
}

/// The diagnostics report, but for its two ratios as fractions (floating
/// point, which the caller adds from the `_bps` fields).
pub open spec fn diagnostics_value_spec(t: PlannerDiagnosticsTracker, dup_bps: u64, disc_bps: u64) -> JsonView {
    let x0 = obj_insert(Seq::empty(), "total"@, num_view(t.tool_exec_total));
    let x1 = obj_insert(x0, "success"@, num_view(t.tool_exec_success));
    let x2 = obj_insert(x1, "error"@, num_view(t.tool_exec_error));
    let x3 = obj_insert(x2, "cached_hit"@, num_view(t.tool_exec_cached_hit));
    let x4 = obj_insert(x3, "parallel"@, num_view(t.tool_exec_parallel));
    let x5 = obj_insert(x4, "sequential"@, num_view(t.tool_exec_sequential));
    let x6 = obj_insert(x5, "blocked_finalize"@, num_view(t.tool_exec_blocked_finalize));
    let x7 = obj_insert(x6, "repair_retry"@, num_view(t.tool_exec_repair_retry));
    let x8 = obj_insert(x7, "repair_exhausted"@, num_view(t.tool_exec_repair_exhausted));
    let x9 = obj_insert(x8, "count_by_tool"@, JsonView::Object(counts_object(t.tool_exec_count_by_tool@)));
    let x10 = obj_insert(x9, "error_by_tool"@, JsonView::Object(counts_object(t.tool_exec_error_by_tool@)));
    let x11 = obj_insert(
        x10,
        "latency_sum_ms_by_tool"@,
        JsonView::Object(counts_object(t.tool_exec_latency_sum_ms_by_tool@)),
    );
    let x12 = obj_insert(
        x11,
        "latency_max_ms_by_tool"@,
        JsonView::Object(counts_object(t.tool_exec_latency_max_ms_by_tool@)),
    );
    let e0 = obj_insert(Seq::empty(), "tool_calls_total"@, num_view(t.total_tool_calls));
    let e1 = obj_insert(e0, "tool_calls_duplicate"@, num_view(t.duplicate_tool_calls));
    let e2 = obj_insert(e1, "duplicate_tool_call_ratio_bps"@, num_view(dup_bps));
    let e3 = obj_insert(e2, "discovery_tool_call_ratio_bps"@, num_view(disc_bps));
    let e4 = obj_insert(e3, "tool_call_count_by_tool"@, JsonView::Object(counts_object(t.tool_call_count_by_tool@)));
    let e5 = obj_insert(
        e4,
        "memory_hit_rate_by_tool"@,
        JsonView::Object(hit_rates(t.tool_result_count_by_tool@, t.memory_hits_by_tool@)),
    );
    let e6 = obj_insert(e5, "phase_round_count"@, JsonView::Object(counts_object(t.phase_round_count@)));
    let e7 = obj_insert(e6, "finalize_schema_repair_attempts_total"@, num_view(t.finalize_schema_repair_attempts_total));
    let e8 = obj_insert(e7, "finalize_schema_repair_exhausted_total"@, num_view(t.finalize_schema_repair_exhausted_total));
    let e9 = obj_insert(
        e8,
        "finalize_schema_repair_by_sub_reason"@,
        JsonView::Object(counts_object(t.finalize_schema_repair_by_sub_reason@)),
    );
    let e10 = obj_insert(e9, "no_toolcall_retries_total"@, num_view(t.no_toolcall_retries_total));
    let e11 = obj_insert(e10, "no_toolcall_retries_exhausted_total"@, num_view(t.no_toolcall_retries_exhausted_total));
    let e12 = obj_insert(e11, "memory_projection_budget_tokens"@, num_view(t.memory_projection_budget_tokens));
    let e13 = obj_insert(e12, "memory_projection_estimated_tokens"@, num_view(t.memory_projection_estimated_tokens));
    let e14 = obj_insert(e13, "empty_search_streak_max"@, num_view(t.empty_search_streak_max));
    let e15 = obj_insert(e14, "parallel_batches_total"@, num_view(t.parallel_batches_total));
    let e16 = obj_insert(e15, "parallel_calls_total"@, num_view(t.parallel_calls_total));
    let e17 = obj_insert(e16, "parallel_failures_total"@, num_view(t.parallel_failures_total));
    let e18 = obj_insert(e17, "parallel_partial_success_total"@, num_view(t.parallel_partial_success_total));
    JsonView::Object(obj_insert(e18, "tool_exec"@, JsonView::Object(x12)))
}

fn put_num(o: &mut JsonValue, key: &str, n: u64)
    requires
        old(o)@ is Object,
    ensures
        final(o)@ == JsonView::Object(obj_insert(old(o)@->Object_0, key@, num_view(n))),
{
    o.insert(to_owned_string(key), JsonValue::Number(JsonNumber::PosInt(n)));
}

impl PlannerDiagnosticsTracker {
    /// Each tool's memory hits against its results, with the hit rate.
    pub fn memory_hit_rate_by_tool_value(&self) -> (r: JsonValue)
        requires
            self.wf(),
        ensures
            r@ == JsonView::Object(hit_rates(self.tool_result_count_by_tool@, self.memory_hits_by_tool@)),
    {
        let m = &self.tool_result_count_by_tool;
        let mut out: Vec<(String, JsonValue)> = Vec::new();
        let mut i: usize = 0;
        assert(m@.subrange(0, 0) =~= Seq::<(String, u64)>::empty());
        assert(entries_view(out@) =~= Seq::<(Seq<char>, JsonView)>::empty());
        while i < m.len()
            invariant
                i <= m@.len(),
                self.wf(),
                m == &self.tool_result_count_by_tool,
                entries_view(out@) == hit_rates(m@.subrange(0, i as int), self.memory_hits_by_tool@),
            decreases m.len() - i,
        {
            let ghost cur = m@.subrange(0, i + 1);
            assert(cur.drop_last() =~= m@.subrange(0, i as int));
            assert(cur.last() == m@[i as int]);
            let hits = count_of_key(&self.memory_hits_by_tool, m[i].0.as_str());
            let total = m[i].1;
            let rate: u64 = if total == 0 {
                0
            } else {
                let p = match hits.checked_mul(10000) {
                    Some(x) => x,
                    None => u64::MAX,
                };
                p / total
            };
            let mut v = JsonValue::empty_object();
            put_num(&mut v, "hits", hits);
            put_num(&mut v, "total", total);
            put_num(&mut v, "rate_bps", rate);
            insert_entry(&mut out, to_owned_string(m[i].0.as_str()), v);
            i = i + 1;
        }
        assert(m@.subrange(0, m@.len() as int) =~= m@);
        proof {
            lemma_object_view(out);
        }
        JsonValue::Object(out)
    }

    /// The diagnostics report, with the two ratios per ten thousand calls.
    pub fn to_value(&self) -> (r: JsonValue)
        requires
            self.wf(),
        ensures
            r@ == diagnostics_value_spec(*self, self.duplicate_ratio_bps_spec(), self.discovery_ratio_bps_spec()),
    {
        let mut x = JsonValue::empty_object();
        put_num(&mut x, "total", self.tool_exec_total);
        put_num(&mut x, "success", self.tool_exec_success);
        put_num(&mut x, "error", self.tool_exec_error);
        put_num(&mut x, "cached_hit", self.tool_exec_cached_hit);
        put_num(&mut x, "parallel", self.tool_exec_parallel);
        put_num(&mut x, "sequential", self.tool_exec_sequential);
        put_num(&mut x, "blocked_finalize", self.tool_exec_blocked_finalize);
        put_num(&mut x, "repair_retry", self.tool_exec_repair_retry);
        put_num(&mut x, "repair_exhausted", self.tool_exec_repair_exhausted);
        x.insert(to_owned_string("count_by_tool"), counts_value(&self.tool_exec_count_by_tool));
        x.insert(to_owned_string("error_by_tool"), counts_value(&self.tool_exec_error_by_tool));
        x.insert(to_owned_string("latency_sum_ms_by_tool"), counts_value(&self.tool_exec_latency_sum_ms_by_tool));
        x.insert(to_owned_string("latency_max_ms_by_tool"), counts_value(&self.tool_exec_latency_max_ms_by_tool));
        let mut o = JsonValue::empty_object();
        put_num(&mut o, "tool_calls_total", self.total_tool_calls);
        put_num(&mut o, "tool_calls_duplicate", self.duplicate_tool_calls);
        put_num(&mut o, "duplicate_tool_call_ratio_bps", self.duplicate_ratio_bps());
        put_num(&mut o, "discovery_tool_call_ratio_bps", self.discovery_ratio_bps());
        o.insert(to_owned_string("tool_call_count_by_tool"), counts_value(&self.tool_call_count_by_tool));
        o.insert(to_owned_string("memory_hit_rate_by_tool"), self.memory_hit_rate_by_tool_value());
        o.insert(to_owned_string("phase_round_count"), counts_value(&self.phase_round_count));
        put_num(&mut o, "finalize_schema_repair_attempts_total", self.finalize_schema_repair_attempts_total);
        put_num(&mut o, "finalize_schema_repair_exhausted_total", self.finalize_schema_repair_exhausted_total);
        o.insert(
            to_owned_string("finalize_schema_repair_by_sub_reason"),
            counts_value(&self.finalize_schema_repair_by_sub_reason),
        );
        put_num(&mut o, "no_toolcall_retries_total", self.no_toolcall_retries_total);
        put_num(&mut o, "no_toolcall_retries_exhausted_total", self.no_toolcall_retries_exhausted_total);
        put_num(&mut o, "memory_projection_budget_tokens", self.memory_projection_budget_tokens);
        put_num(&mut o, "memory_projection_estimated_tokens", self.memory_projection_estimated_tokens);
        put_num(&mut o, "empty_search_streak_max", self.empty_search_streak_max);
        put_num(&mut o, "parallel_batches_total", self.parallel_batches_total);
        put_num(&mut o, "parallel_calls_total", self.parallel_calls_total);
        put_num(&mut o, "parallel_failures_total", self.parallel_failures_total);
        put_num(&mut o, "parallel_partial_success_total", self.parallel_partial_success_total);
        o.insert(to_owned_string("tool_exec"), x);
        o
    }

    pub open spec fn duplicate_ratio_bps_spec(&self) -> u64 {
        if self.total_tool_calls == 0 {
            0
        } else {
            (sat_mul(self.duplicate_tool_calls as int, 10000, u64::MAX as int) / self.total_tool_calls as int) as u64
        }
    }

    pub open spec fn discovery_ratio_bps_spec(&self) -> u64 {
        if self.total_tool_calls == 0 {
            0
        } else {
            (sat_mul(discovery_calls(self.tool_call_count_by_tool@), 10000, u64::MAX as int)
                / self.total_tool_calls as int) as u64
        }
    }
}

} // verus!
