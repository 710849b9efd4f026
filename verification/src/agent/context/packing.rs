//! The optional blocks of a planner context and the levels at which each can
//! be shown.
use vstd::prelude::*;
use crate::text::to_owned_string;

verus! {

/// How readily a block gives way when the context is over budget.
#[derive(Clone, Copy, PartialEq, Eq, Structural)]
pub enum ContextBlockPriority {
    Medium,
    Low,
    Stale,
}

#[derive(Clone, Copy, PartialEq, Eq, Structural)]
pub enum PackPhaseHint {
    Default,
}

/// The optional blocks of a planner context.
#[derive(Clone, Copy, PartialEq, Eq, Structural)]
pub enum ContextPackBlockId {
    PreviousError,
    PreviousErrorAutofillHistory,
    RecoveryDiagnostics,
    ToolMemoryProjection,
    InputStoreFacts,
    CapabilityViewProtocols,
    PreviousErrorLastFailedFinalize,
}

impl ContextPackBlockId {
    pub open spec fn name_spec(self) -> Seq<char> {
        match self {
            ContextPackBlockId::PreviousError => "previous_error"@,
            ContextPackBlockId::PreviousErrorAutofillHistory => "previous_error.autofill_history"@,
            ContextPackBlockId::RecoveryDiagnostics => "recovery_diagnostics"@,
            ContextPackBlockId::ToolMemoryProjection => "tool_memory_projection"@,
            ContextPackBlockId::InputStoreFacts => "input_store.facts"@,
            ContextPackBlockId::CapabilityViewProtocols => "capability_view.protocols"@,
            ContextPackBlockId::PreviousErrorLastFailedFinalize => "previous_error.last_failed_finalize"@,
        }
    }

    pub open spec fn path_spec(self) -> Seq<char> {
        match self {
            ContextPackBlockId::PreviousError => "/previous_error"@,
            ContextPackBlockId::PreviousErrorAutofillHistory => "/previous_error/autofill_history"@,
            ContextPackBlockId::RecoveryDiagnostics => "/recovery_diagnostics"@,
            ContextPackBlockId::ToolMemoryProjection => "/tool_memory_projection"@,
            ContextPackBlockId::InputStoreFacts => "/input_store/facts"@,
            ContextPackBlockId::CapabilityViewProtocols => "/capability_view/protocols"@,
            ContextPackBlockId::PreviousErrorLastFailedFinalize => "/previous_error/last_failed_finalize"@,
        }
    }

    pub open spec fn priority_spec(self) -> ContextBlockPriority {
        match self {
            ContextPackBlockId::PreviousError => ContextBlockPriority::Stale,
            ContextPackBlockId::PreviousErrorAutofillHistory => ContextBlockPriority::Stale,
            ContextPackBlockId::RecoveryDiagnostics => ContextBlockPriority::Low,
            ContextPackBlockId::ToolMemoryProjection => ContextBlockPriority::Low,
            ContextPackBlockId::InputStoreFacts => ContextBlockPriority::Medium,
            ContextPackBlockId::CapabilityViewProtocols => ContextBlockPriority::Low,
            ContextPackBlockId::PreviousErrorLastFailedFinalize => ContextBlockPriority::Stale,
        }
    }

    /// The block's name in traces.
    pub fn as_str(self) -> (r: &'static str)
        ensures
            r@ == self.name_spec(),
    {
        match self {
            ContextPackBlockId::PreviousError => "previous_error",
            ContextPackBlockId::PreviousErrorAutofillHistory => "previous_error.autofill_history",
            ContextPackBlockId::RecoveryDiagnostics => "recovery_diagnostics",
            ContextPackBlockId::ToolMemoryProjection => "tool_memory_projection",
            ContextPackBlockId::InputStoreFacts => "input_store.facts",
            ContextPackBlockId::CapabilityViewProtocols => "capability_view.protocols",
            ContextPackBlockId::PreviousErrorLastFailedFinalize => "previous_error.last_failed_finalize",
        }
    }

    /// The JSON pointer at which the block sits in the context summary.
    pub fn path(self) -> (r: &'static str)
        ensures
            r@ == self.path_spec(),
    {
        match self {
            ContextPackBlockId::PreviousError => "/previous_error",
            ContextPackBlockId::PreviousErrorAutofillHistory => "/previous_error/autofill_history",
            ContextPackBlockId::RecoveryDiagnostics => "/recovery_diagnostics",
            ContextPackBlockId::ToolMemoryProjection => "/tool_memory_projection",
            ContextPackBlockId::InputStoreFacts => "/input_store/facts",
            ContextPackBlockId::CapabilityViewProtocols => "/capability_view/protocols",
            ContextPackBlockId::PreviousErrorLastFailedFinalize => "/previous_error/last_failed_finalize",
        }
    }

    pub fn default_priority(self) -> (r: ContextBlockPriority)
        ensures
            r == self.priority_spec(),
    {
        match self {
            ContextPackBlockId::PreviousError => ContextBlockPriority::Stale,
            ContextPackBlockId::PreviousErrorAutofillHistory => ContextBlockPriority::Stale,
            ContextPackBlockId::RecoveryDiagnostics => ContextBlockPriority::Low,
            ContextPackBlockId::ToolMemoryProjection => ContextBlockPriority::Low,
            ContextPackBlockId::InputStoreFacts => ContextBlockPriority::Medium,
            ContextPackBlockId::CapabilityViewProtocols => ContextBlockPriority::Low,
            ContextPackBlockId::PreviousErrorLastFailedFinalize => ContextBlockPriority::Stale,
        }
    }

    /// The priority in a planning phase; every phase uses the default.
    pub fn priority_for_phase(self, phase: PackPhaseHint) -> (r: ContextBlockPriority)
        ensures
            r == self.priority_spec(),
    {
        self.default_priority()
    }

    /// Every optional block may be evicted.
    pub fn is_evictable(self) -> (r: bool)
        ensures
            r,
    {
        true
    }

    pub open spec fn optional_blocks_spec() -> Seq<ContextPackBlockId> {
        seq![
            ContextPackBlockId::PreviousError,
            ContextPackBlockId::PreviousErrorAutofillHistory,
            ContextPackBlockId::RecoveryDiagnostics,
            ContextPackBlockId::ToolMemoryProjection,
            ContextPackBlockId::InputStoreFacts,
            ContextPackBlockId::CapabilityViewProtocols,
            ContextPackBlockId::PreviousErrorLastFailedFinalize,
        ]
    }

    /// The optional blocks, in the order in which packing considers them.
    pub fn optional_pack_blocks() -> (r: Vec<ContextPackBlockId>)
        ensures
            r@ == Self::optional_blocks_spec(),
    {
        let r = vec![
            ContextPackBlockId::PreviousError,
            ContextPackBlockId::PreviousErrorAutofillHistory,
            ContextPackBlockId::RecoveryDiagnostics,
            ContextPackBlockId::ToolMemoryProjection,
            ContextPackBlockId::InputStoreFacts,
            ContextPackBlockId::CapabilityViewProtocols,
            ContextPackBlockId::PreviousErrorLastFailedFinalize,
        ];
        assert(r@ =~= Self::optional_blocks_spec());
        r
    }
}

/// The level of detail at which a block is shown.
#[derive(Clone, Copy, PartialEq, Eq, Structural)]
pub enum ContextCompressLevel {
    Full,
    Summary,
    Skeleton,
}

impl ContextCompressLevel {
    pub open spec fn name_spec(self) -> Seq<char> {
        match self {
            ContextCompressLevel::Full => "full"@,
            ContextCompressLevel::Summary => "summary"@,
            ContextCompressLevel::Skeleton => "skeleton"@,
        }
    }

    pub fn as_str(self) -> (r: &'static str)
        ensures
            r@ == self.name_spec(),
    {
        match self {
            ContextCompressLevel::Full => "full",
            ContextCompressLevel::Summary => "summary",
            ContextCompressLevel::Skeleton => "skeleton",
        }
    }
}

/// What packing did to a block.
#[derive(Clone, Copy, PartialEq, Eq, Structural)]
pub enum PackAction {
    Keep,
    Compress,
    Drop,
}

impl PackAction {
    pub open spec fn name_spec(self) -> Seq<char> {
        match self {
            PackAction::Keep => "keep"@,
            PackAction::Compress => "compress"@,
            PackAction::Drop => "drop"@,
        }
    }

    pub fn as_str(self) -> (r: &'static str)
        ensures
            r@ == self.name_spec(),
    {
        match self {
            PackAction::Keep => "keep",
            PackAction::Compress => "compress",
            PackAction::Drop => "drop",
        }
    }
}

/// One step of packing, as recorded in the trace.
pub struct PackDecision {
    pub block_id: String,
    pub action: PackAction,
    pub reason: &'static str,
    pub before_level: Option<ContextCompressLevel>,
    pub after_level: Option<ContextCompressLevel>,
}

/// Counters over the decisions of one packing run.  The two maps from reason
/// to count are lists of `(reason, count)` with no reason twice.
pub struct PackDiagnostics {
    pub packed_blocks_total: u64,
    pub packed_blocks_included: u64,
    pub packed_blocks_evicted: u64,
    pub compressed_blocks_total: u64,
    pub compressed_by_reason: Vec<(String, u64)>,
    pub evicted_by_reason: Vec<(String, u64)>,
}

/// The count kept for `reason`, zero where there is none.
pub open spec fn count_of(m: Seq<(String, u64)>, reason: Seq<char>) -> nat
    decreases m.len(),
{
    if m.len() == 0 {
        0
    } else if m[0].0@ == reason {
        m[0].1 as nat
    } else {
        count_of(m.drop_first(), reason)
    }
}

pub open spec fn sat_inc(x: nat) -> nat {
    if x + 1 > u64::MAX {
        u64::MAX as nat
    } else {
        x + 1
    }
}

/// No reason occurs twice and every count kept is at least one.
pub open spec fn counts_wf(m: Seq<(String, u64)>) -> bool {
    &&& forall|i: int, j: int| 0 <= i < j < m.len() ==> #[trigger] m[i].0@ != #[trigger] m[j].0@
    &&& forall|i: int| 0 <= i < m.len() ==> #[trigger] m[i].1 >= 1
}

/// In a list with no reason twice, the count of a listed reason is the one
/// listed with it, and that of an unlisted reason is zero.
pub proof fn lemma_count_of_at(m: Seq<(String, u64)>, j: int)
    requires
        0 <= j < m.len(),
        forall|i: int| 0 <= i < j ==> #[trigger] m[i].0@ != m[j].0@,
    ensures
        count_of(m, m[j].0@) == m[j].1,
    decreases j,
{
    if j > 0 {
        assert forall|i: int| 0 <= i < j - 1 implies #[trigger] m.drop_first()[i].0@ != m.drop_first()[j - 1].0@ by {
            assert(m.drop_first()[i] == m[i + 1]);
        }
        assert(m[0].0@ != m[j].0@);
        lemma_count_of_at(m.drop_first(), j - 1);
    }
}

pub proof fn lemma_count_of_absent(m: Seq<(String, u64)>, r: Seq<char>)
    requires
        forall|i: int| 0 <= i < m.len() ==> #[trigger] m[i].0@ != r,
    ensures
        count_of(m, r) == 0,
    decreases m.len(),
{
    if m.len() > 0 {
        assert forall|i: int| 0 <= i < m.len() - 1 implies #[trigger] m.drop_first()[i].0@ != r by {
            assert(m.drop_first()[i] == m[i + 1]);
        }
        assert(m[0].0@ != r);
        lemma_count_of_absent(m.drop_first(), r);
    }
}

/// Adds one (saturating) to the count of `reason`, creating it at one.
pub fn bump_reason(m: &mut Vec<(String, u64)>, reason: &str)
    requires
        counts_wf(old(m)@),
    ensures
        counts_wf(final(m)@),
        count_of(final(m)@, reason@) == sat_inc(count_of(old(m)@, reason@)),
        forall|r: Seq<char>| r != reason@ ==> count_of(final(m)@, r) == count_of(old(m)@, r),
{
    let mut i: usize = 0;
    while i < m.len()
        invariant
            i <= m@.len(),
            m@ == old(m)@,
            counts_wf(old(m)@),
            forall|k: int| 0 <= k < i ==> #[trigger] m@[k].0@ != reason@,
        decreases m.len() - i,
    {
        if crate::text::str_eq(m[i].0.as_str(), reason) {
            let c = m[i].1;
            let name = to_owned_string(m[i].0.as_str());
            proof {
                lemma_count_update(old(m)@, i as int, (name, c.saturating_add(1)));
            }
            m.set(i, (name, c.saturating_add(1)));
            proof {
                let mm = m@;
                assert forall|a: int, b: int| 0 <= a < b < mm.len() implies #[trigger] mm[a].0@ != #[trigger] mm[b].0@ by {
                    assert(mm[a].0@ == old(m)@[a].0@);
                    assert(mm[b].0@ == old(m)@[b].0@);
                }
            }
            return;
        }
        i = i + 1;
    }
    let name = to_owned_string(reason);
    proof {
        lemma_count_push(old(m)@, (name, 1u64));
    }
    m.push((name, 1));
    proof {
        let mm = m@;
        assert forall|a: int, b: int| 0 <= a < b < mm.len() implies #[trigger] mm[a].0@ != #[trigger] mm[b].0@ by {
            if b == mm.len() - 1 {
                assert(mm[a] == old(m)@[a]);
            } else {
                assert(mm[a] == old(m)@[a]);
                assert(mm[b] == old(m)@[b]);
            }
        }
    }
}

proof fn lemma_count_update(m: Seq<(String, u64)>, i: int, e: (String, u64))
    requires
        0 <= i < m.len(),
        e.0@ == m[i].0@,
        forall|k: int| 0 <= k < i ==> #[trigger] m[k].0@ != e.0@,
    ensures
        count_of(m, e.0@) == m[i].1,
        count_of(m.update(i, e), e.0@) == e.1,
        forall|r: Seq<char>| r != e.0@ ==> count_of(m.update(i, e), r) == count_of(m, r),
    decreases i,
{
    let u = m.update(i, e);
    if i == 0 {
        assert(u.drop_first() =~= m.drop_first());
        assert(u[0] == e);
        assert forall|r: Seq<char>| r != e.0@ implies count_of(u, r) == count_of(m, r) by {
            assert(u[0].0@ != r);
            assert(m[0].0@ != r);
            assert(count_of(u, r) == count_of(u.drop_first(), r));
            assert(count_of(m, r) == count_of(m.drop_first(), r));
        }
    } else {
        assert(u.drop_first() =~= m.drop_first().update(i - 1, e));
        assert forall|k: int| 0 <= k < i - 1 implies #[trigger] m.drop_first()[k].0@ != e.0@ by {
            assert(m.drop_first()[k] == m[k + 1]);
        }
        assert(m[0].0@ != e.0@);
        lemma_count_update(m.drop_first(), i - 1, e);
        assert(u[0] == m[0]);
        assert forall|r: Seq<char>| r != e.0@ implies count_of(u, r) == count_of(m, r) by {
            if m[0].0@ != r {
                assert(count_of(u, r) == count_of(u.drop_first(), r));
                assert(count_of(m, r) == count_of(m.drop_first(), r));
            }
        }
    }
}

pub proof fn lemma_count_push(m: Seq<(String, u64)>, e: (String, u64))
    requires
        forall|k: int| 0 <= k < m.len() ==> #[trigger] m[k].0@ != e.0@,
    ensures
        count_of(m, e.0@) == 0,
        count_of(m.push(e), e.0@) == e.1,
        forall|r: Seq<char>| r != e.0@ ==> count_of(m.push(e), r) == count_of(m, r),
    decreases m.len(),
{
    if m.len() > 0 {
        assert(m.push(e).drop_first() =~= m.drop_first().push(e));
        assert forall|k: int| 0 <= k < m.len() - 1 implies #[trigger] m.drop_first()[k].0@ != e.0@ by {
            assert(m.drop_first()[k] == m[k + 1]);
        }
        assert(m[0].0@ != e.0@);
        lemma_count_push(m.drop_first(), e);
        assert forall|r: Seq<char>| r != e.0@ implies count_of(m.push(e), r) == count_of(m, r) by {
            assert(m.push(e)[0] == m[0]);
            if m[0].0@ != r {
                assert(count_of(m.push(e), r) == count_of(m.push(e).drop_first(), r));
                assert(count_of(m, r) == count_of(m.drop_first(), r));
            }
        }
    } else {
        assert forall|r: Seq<char>| r != e.0@ implies count_of(m.push(e), r) == count_of(m, r) by {
            assert(m.push(e)[0] == e);
            assert(m.push(e).drop_first().len() == 0);
            assert(count_of(m.push(e), r) == count_of(m.push(e).drop_first(), r));
        }
    }
}

impl PackDiagnostics {
    /// Both reason lists are well formed.
    pub open spec fn wf(self) -> bool {
        counts_wf(self.compressed_by_reason@) && counts_wf(self.evicted_by_reason@)
    }

    pub fn new() -> (r: PackDiagnostics)
        ensures
            r.wf(),
            r.packed_blocks_total == 0,
            r.packed_blocks_included == 0,
            r.packed_blocks_evicted == 0,
            r.compressed_blocks_total == 0,
            r.compressed_by_reason@.len() == 0,
            r.evicted_by_reason@.len() == 0,
    {
        PackDiagnostics {
            packed_blocks_total: 0,
            packed_blocks_included: 0,
            packed_blocks_evicted: 0,
            compressed_blocks_total: 0,
            compressed_by_reason: Vec::new(),
            evicted_by_reason: Vec::new(),
        }
    }

    /// Counts one decision: a compression adds to the compression total and
    /// to its reason; a drop adds to its reason among evictions.
    pub fn observe_decision(&mut self, decision: &PackDecision)
        requires
            old(self).wf(),
        ensures
            final(self).wf(),
            final(self).packed_blocks_total == old(self).packed_blocks_total,
            final(self).packed_blocks_included == old(self).packed_blocks_included,
            final(self).packed_blocks_evicted == old(self).packed_blocks_evicted,
            final(self).compressed_blocks_total == if decision.action == PackAction::Compress {
                sat_inc(old(self).compressed_blocks_total as nat)
            } else {
                old(self).compressed_blocks_total as nat
            },
            forall|r: Seq<char>|
                #![trigger count_of(final(self).compressed_by_reason@, r)]
                count_of(final(self).compressed_by_reason@, r) == if decision.action
                    == PackAction::Compress && r == decision.reason@ {
                    sat_inc(count_of(old(self).compressed_by_reason@, r))
                } else {
                    count_of(old(self).compressed_by_reason@, r)
                },
            forall|r: Seq<char>|
                #![trigger count_of(final(self).evicted_by_reason@, r)]
                count_of(final(self).evicted_by_reason@, r) == if decision.action == PackAction::Drop
                    && r == decision.reason@ {
                    sat_inc(count_of(old(self).evicted_by_reason@, r))
                } else {
                    count_of(old(self).evicted_by_reason@, r)
                },
    {
        match decision.action {
            PackAction::Compress => {
                self.compressed_blocks_total = self.compressed_blocks_total.saturating_add(1);
                bump_reason(&mut self.compressed_by_reason, decision.reason);
            },
            PackAction::Drop => {
                bump_reason(&mut self.evicted_by_reason, decision.reason);
            },
            PackAction::Keep => {},
        }
    }
}

/// The decisions of one packing run, in order.
pub struct PackTrace {
    pub decisions: Vec<PackDecision>,
}

impl PackTrace {
    pub fn new() -> (r: PackTrace)
        ensures
            r.decisions@.len() == 0,
    {
        PackTrace { decisions: Vec::new() }
    }

    pub fn push(&mut self, decision: PackDecision)
        ensures
            final(self).decisions@ == old(self).decisions@.push(decision),
    {
        self.decisions.push(decision);
    }
}

} // verus!
