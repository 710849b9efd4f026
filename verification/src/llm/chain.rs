//! A provider made of several providers: each call tries them in turn,
//! retrying a provider on transient errors and falling back to the next one
//! on recoverable errors.
use vstd::prelude::*;
use crate::llm::{
    CallRecord, CompleteWithToolsRequest, CompleteWithToolsResponse, LlmErrorClass, LlmMessageView, LlmProvider,
    LlmProviderError, ToolSpecView, classify_spec, error_text_spec,
};
use crate::text::{decimal, join, join_strings, push_decimal, push_str, to_owned_string};

verus! {

#[derive(Clone, Copy, PartialEq, Eq, Structural)]
pub enum RotationMode {
    /// Every call starts with the first provider.
    StickyPrimary,
    /// Each call starts after the provider that answered the previous one.
    RoundRobin,
}

#[derive(Clone, Copy, PartialEq, Eq, Structural)]
pub struct ProviderChainPolicy {
    pub max_retries_per_provider: u8,
    pub rotation_mode: RotationMode,
}

impl Default for ProviderChainPolicy {
    fn default() -> (r: Self)
        ensures
            r.max_retries_per_provider == 1,
            r.rotation_mode == RotationMode::StickyPrimary,
    {
        ProviderChainPolicy { max_retries_per_provider: 1, rotation_mode: RotationMode::StickyPrimary }
    }
}

/// One provider call of a chain run: the provider's position, the attempt
/// number on that provider (from zero), and what the provider returned.
pub type AttemptRecord = (int, int, Result<CompleteWithToolsResponse, LlmProviderError>);

/// Where a chain run stands after some calls.
pub enum ChainProgress {
    /// The next call goes to the provider at `offset` from the start, as its
    /// attempt number `attempt`.
    Next { offset: int, attempt: int },
    /// The run is over.
    Finished,
    /// The calls do not follow the policy.
    Broken,
}

/// What follows a failed call: another attempt on a retryable error while
/// attempts remain, else the next provider on a recoverable error while
/// providers remain, else the end of the run.
pub open spec fn after_error(offset: int, attempt: int, e: LlmProviderError, len: int, max_attempts: int) -> ChainProgress {
    let c = classify_spec(e);
    if c == LlmErrorClass::Retryable && attempt + 1 < max_attempts {
        ChainProgress::Next { offset, attempt: attempt + 1 }
    } else if c != LlmErrorClass::Fatal && offset + 1 < len {
        ChainProgress::Next { offset: offset + 1, attempt: 0 }
    } else {
        ChainProgress::Finished
    }
}

/// Replays calls against the policy of a chain of `len` providers whose run
/// starts at `start` and allows `max_attempts` calls per provider.
pub open spec fn replay(t: Seq<AttemptRecord>, start: int, len: int, max_attempts: int) -> ChainProgress
    decreases t.len(),
{
    if t.len() == 0 {
        ChainProgress::Next { offset: 0, attempt: 0 }
    } else {
        match replay(t.drop_last(), start, len, max_attempts) {
            ChainProgress::Next { offset, attempt } => {
                let x = t.last();
                if x.0 != (start + offset) % len || x.1 != attempt {
                    ChainProgress::Broken
                } else {
                    match x.2 {
                        Ok(_) => ChainProgress::Finished,
                        Err(e) => after_error(offset, attempt, e, len, max_attempts),
                    }
                }
            },
            _ => ChainProgress::Broken,
        }
    }
}

pub open spec fn bool_text(b: bool) -> Seq<char> {
    if b {
        "true"@
    } else {
        "false"@
    }
}

/// The label of the provider at `index`.
pub open spec fn label_of(labels: Seq<String>, index: int) -> Seq<char> {
    if 0 <= index < labels.len() {
        labels[index]@
    } else {
        "provider#"@ + decimal(index as nat)
    }
}

/// The trail line written for a failed call.
pub open spec fn attempt_line(label: Seq<char>, attempt: int, e: LlmProviderError) -> Seq<char> {
    label + ":attempt="@ + decimal((attempt + 1) as nat) + " retryable="@ + bool_text(
        classify_spec(e) == LlmErrorClass::Retryable,
    ) + " fallbackable="@ + bool_text(classify_spec(e) != LlmErrorClass::Fatal) + " error="@
        + error_text_spec(e)
}

pub open spec fn trail_lines(labels: Seq<String>, t: Seq<AttemptRecord>) -> Seq<Seq<char>> {
    Seq::new(t.len(), |i: int| attempt_line(label_of(labels, t[i].0), t[i].1, t[i].2->Err_0))
}

/// The reason given when every provider failed: the trail of all failed
/// calls, then the last error.
pub open spec fn exhausted_reason(labels: Seq<String>, t: Seq<AttemptRecord>) -> Seq<char> {
    join(trail_lines(labels, t), " | "@) + "; last_error="@ + error_text_spec(t.last().2->Err_0)
}

pub open spec fn no_attempts_reason() -> Seq<char> {
    "provider chain exhausted with no attempts"@
}

/// The calls of a run that went to the provider at `p`, with the request
/// that each was given.
pub open spec fn calls_at(t: Seq<AttemptRecord>, p: int, q: (Seq<LlmMessageView>, Seq<ToolSpecView>)) -> Seq<
    CallRecord,
>
    decreases t.len(),
{
    if t.len() == 0 {
        Seq::empty()
    } else if t.last().0 == p {
        calls_at(t.drop_last(), p, q).push((q, t.last().2))
    } else {
        calls_at(t.drop_last(), p, q)
    }
}

pub struct ProviderChain {
    providers: Vec<Box<dyn LlmProvider>>,
    labels: Vec<String>,
    policy: ProviderChainPolicy,
    cursor: usize,
    attempts: Ghost<Seq<AttemptRecord>>,
    calls: Ghost<Seq<CallRecord>>,
}

impl ProviderChain {
    pub closed spec fn provider_count(&self) -> nat {
        self.providers@.len()
    }

    pub closed spec fn label_list(&self) -> Seq<String> {
        self.labels@
    }

    pub closed spec fn policy_spec(&self) -> ProviderChainPolicy {
        self.policy
    }

    pub closed spec fn cursor_spec(&self) -> nat {
        self.cursor as nat
    }

    /// The calls answered so far by the provider at `p`.
    pub closed spec fn provider_history(&self, p: int) -> Seq<CallRecord> {
        self.providers@[p].history()
    }

    /// Whether the provider at `p` keeps a record of its calls.
    pub closed spec fn provider_records(&self, p: int) -> bool {
        self.providers@[p].records_calls()
    }

    /// The calls made by the last run, in order.
    pub closed spec fn last_attempts(&self) -> Seq<AttemptRecord> {
        self.attempts@
    }

        /// Where a run of this chain starts.
    pub open spec fn start_spec(&self) -> int {
        match self.policy_spec().rotation_mode {
            RotationMode::StickyPrimary => 0,
            RotationMode::RoundRobin => (self.cursor_spec() % self.provider_count()) as int,
        }
    }

    pub open spec fn max_attempts_spec(&self) -> int {
        self.policy_spec().max_retries_per_provider + 1
    }

    /// A chain over `providers`, labelled by `labels`.  It needs at least one
    /// provider and exactly one label per provider.
    pub fn new(providers: Vec<Box<dyn LlmProvider>>, labels: Vec<String>, policy: ProviderChainPolicy) -> (r:
        Result<ProviderChain, LlmProviderError>)
        ensures
            providers@.len() == 0 ==> (r matches Err(LlmProviderError::InvalidConfig { reason })
                && reason@ == "provider chain requires at least one provider"@),
            providers@.len() > 0 && providers@.len() != labels@.len() ==> (r matches Err(
                LlmProviderError::InvalidConfig { reason },
            ) && reason@ == "provider chain labels count must match providers count"@),
            providers@.len() > 0 && providers@.len() == labels@.len() ==> (r matches Ok(c)
                && c.provider_count() == providers@.len() && c.label_list() == labels@
                && c.policy_spec() == policy && c.cursor_spec() == 0 && c.last_attempts().len() == 0
                && c.history().len() == 0 && forall|p: int|
                0 <= p < providers@.len() ==> #[trigger] c.provider_history(p) == providers@[p].history()
                    && c.provider_records(p) == providers@[p].records_calls()),
    {
        if providers.len() == 0 {
            return Err(
                LlmProviderError::InvalidConfig {
                    reason: to_owned_string("provider chain requires at least one provider"),
                },
            );
        }
        if providers.len() != labels.len() {
            return Err(
                LlmProviderError::InvalidConfig {
                    reason: to_owned_string("provider chain labels count must match providers count"),
                },
            );
        }
        Ok(ProviderChain { providers, labels, policy, cursor: 0, attempts: Ghost(Seq::empty()), calls: Ghost(Seq::empty()) })
    }

    pub fn provider_len(&self) -> (r: usize)
        ensures
            r == self.provider_count(),
    {
        self.providers.len()
    }

    pub fn cursor(&self) -> (r: usize)
        ensures
            r == self.cursor_spec(),
    {
        self.cursor
    }
}

fn label_at(labels: &Vec<String>, index: usize) -> (r: String)
    ensures
        r@ == label_of(labels@, index as int),
{
    if index < labels.len() {
        to_owned_string(labels[index].as_str())
    } else {
        let mut s = to_owned_string("provider#");
        push_decimal(&mut s, index as u64);
        s
    }
}

fn push_bool(out: &mut String, b: bool)
    ensures
        final(out)@ == old(out)@ + bool_text(b),
{
    if b {
        push_str(out, "true");
    } else {
        push_str(out, "false");
    }
}

/// The trail line of a failed call.
fn attempt_line_text(label: &str, attempt: usize, error: &LlmProviderError) -> (r: String)
    requires
        attempt < usize::MAX,
    ensures
        r@ == attempt_line(label@, attempt as int, *error),
{
    let mut out = to_owned_string(label);
    push_str(&mut out, ":attempt=");
    push_decimal(&mut out, (attempt + 1) as u64);
    push_str(&mut out, " retryable=");
    push_bool(&mut out, error.is_retryable());
    push_str(&mut out, " fallbackable=");
    push_bool(&mut out, error.is_fallbackable());
    push_str(&mut out, " error=");
    let text = error.message();
    push_str(&mut out, text.as_str());
    proof {
        assert(out@ =~= attempt_line(label@, attempt as int, *error));
    }
    out
}

proof fn lemma_replay_push(t: Seq<AttemptRecord>, x: AttemptRecord, start: int, len: int, max_attempts: int)
    ensures
        replay(t.push(x), start, len, max_attempts) == match replay(t, start, len, max_attempts) {
            ChainProgress::Next { offset, attempt } => if x.0 != (start + offset) % len || x.1 != attempt {
                ChainProgress::Broken
            } else {
                match x.2 {
                    Ok(_) => ChainProgress::Finished,
                    Err(e) => after_error(offset, attempt, e, len, max_attempts),
                }
            },
            _ => ChainProgress::Broken,
        },
{
    assert(t.push(x).drop_last() =~= t);
}

impl LlmProvider for ProviderChain {
    open spec fn records_calls(&self) -> bool {
        true
    }

    closed spec fn history(&self) -> Seq<CallRecord> {
        self.calls@
    }

    /// Tries the providers in order from the run's start: a provider is
    /// called again after a retryable error while it has attempts left,
    /// the next provider is tried after a recoverable error, and a fatal
    /// error ends the run at once.  Each provider is handed the request and
    /// its history records exactly the calls of the run made to it.  The
    /// first answer is returned as it came; a fatal error is returned as it
    /// came; when every provider has failed, the error lists every failed
    /// call.
    fn complete_with_tools(&mut self, request: CompleteWithToolsRequest) -> (r: Result<
        CompleteWithToolsResponse,
        LlmProviderError,
    >)
        ensures
            final(self).provider_count() == old(self).provider_count(),
            final(self).label_list() == old(self).label_list(),
            final(self).policy_spec() == old(self).policy_spec(),
            forall|p: int|
                0 <= p < old(self).provider_count() ==> #[trigger] final(self).provider_records(p)
                    == old(self).provider_records(p),
            forall|p: int|
                0 <= p < old(self).provider_count() && old(self).provider_records(p)
                    ==> #[trigger] final(self).provider_history(p) == old(self).provider_history(p) + calls_at(
                    final(self).last_attempts(),
                    p,
                    request@,
                ),
            old(self).provider_count() == 0 ==> (final(self).last_attempts().len() == 0
                && final(self).cursor_spec() == old(self).cursor_spec() && (r matches Err(
                LlmProviderError::ChainExhausted { reason },
            ) && reason@ == no_attempts_reason())),
            old(self).provider_count() > 0 ==> {
                let t = final(self).last_attempts();
                let len = old(self).provider_count() as int;
                &&& t.len() > 0
                &&& replay(t, old(self).start_spec(), len, old(self).max_attempts_spec())
                    == ChainProgress::Finished
                &&& match r {
                    Ok(_) => t.last().2 == r && final(self).cursor_spec() == if old(
                        self,
                    ).policy_spec().rotation_mode == RotationMode::RoundRobin {
                        ((t.last().0 + 1) % len) as nat
                    } else {
                        old(self).cursor_spec()
                    },
                    Err(e) => final(self).cursor_spec() == old(self).cursor_spec() && t.last().2
                        is Err && if classify_spec(t.last().2->Err_0) == LlmErrorClass::Fatal {
                        e == t.last().2->Err_0
                    } else {
                        (e matches LlmProviderError::ChainExhausted { reason } && reason@
                            == exhausted_reason(old(self).label_list(), t))
                    },
                }
            },
    {
        let len = self.providers.len();
        let ghost old_labels = self.labels@;
        let ghost q = request@;
        if len == 0 {
            self.attempts = Ghost(Seq::empty());
            let r = Err(
                LlmProviderError::ChainExhausted {
                    reason: to_owned_string("provider chain exhausted with no attempts"),
                },
            );
            self.calls = Ghost(self.calls@.push((q, r)));
            return r;
        }
        let start = match self.policy.rotation_mode {
            RotationMode::StickyPrimary => 0,
            RotationMode::RoundRobin => self.cursor % len,
        };
        let max_attempts: usize = self.policy.max_retries_per_provider as usize + 1;
        let ghost max_i = max_attempts as int;
        let mut trail: Vec<String> = Vec::new();
        let mut last_error: Option<LlmProviderError> = None;
        let ghost mut t: Seq<AttemptRecord> = Seq::empty();
        let mut offset: usize = 0;
        while offset < len
            invariant
                len == self.providers@.len(),
                len > 0,
                start < len,
                self.labels@ == old_labels,
                old_labels == old(self).labels@,
                self.policy == old(self).policy,
                self.cursor == old(self).cursor,
                self.calls == old(self).calls,
                q == request@,
                start == old(self).start_spec(),
                len == old(self).provider_count(),
                max_i == old(self).max_attempts_spec(),
                max_attempts == max_i,
                1 <= max_attempts <= 256,
                offset <= len,
                forall|p: int|
                    0 <= p < len ==> #[trigger] self.providers@[p].records_calls() == old(
                        self,
                    ).providers@[p].records_calls(),
                forall|p: int|
                    0 <= p < len && old(self).providers@[p].records_calls() ==> #[trigger] self.providers@[p].history()
                        == old(self).providers@[p].history() + calls_at(t, p, q),
                offset < len ==> replay(t, start as int, len as int, max_i) == (ChainProgress::Next {
                    offset: offset as int,
                    attempt: 0,
                }),
                offset == len ==> replay(t, start as int, len as int, max_i) == ChainProgress::Finished
                    && t.len() > 0 && t.last().2 is Err && classify_spec(t.last().2->Err_0)
                    != LlmErrorClass::Fatal && last_error == Some(t.last().2->Err_0),
                offset > 0 ==> t.len() > 0,
                trail@.len() == t.len(),
                forall|i: int| 0 <= i < t.len() ==> #[trigger] t[i].2 is Err,
                forall|i: int|
                    0 <= i < t.len() ==> #[trigger] trail@[i]@ == attempt_line(
                        label_of(old_labels, t[i].0),
                        t[i].1,
                        t[i].2->Err_0,
                    ),
            decreases len - offset,
        {
            let index = if offset < len - start {
                start + offset
            } else {
                offset - (len - start)
            };
            assert(index == (start + offset) % (len as int)) by (nonlinear_arith)
                requires
                    start < len,
                    offset < len,
                    index == if offset < len - start {
                        start + offset
                    } else {
                        offset - (len - start)
                    },
            ;
            let label = label_at(&self.labels, index);
            let mut attempt: usize = 0;
            let mut moved_on = false;
            while attempt < max_attempts && !moved_on
                invariant
                    len == self.providers@.len(),
                    len > 0,
                    start < len,
                    offset < len,
                    index == (start + offset) % (len as int),
                    label@ == label_of(old_labels, index as int),
                    self.labels@ == old_labels,
                    old_labels == old(self).labels@,
                    self.policy == old(self).policy,
                    self.cursor == old(self).cursor,
                    self.calls == old(self).calls,
                    q == request@,
                    start == old(self).start_spec(),
                    len == old(self).provider_count(),
                    max_i == old(self).max_attempts_spec(),
                    max_attempts == max_i,
                    1 <= max_attempts <= 256,
                    attempt <= max_attempts,
                    forall|p: int|
                        0 <= p < len ==> #[trigger] self.providers@[p].records_calls() == old(
                            self,
                        ).providers@[p].records_calls(),
                    forall|p: int|
                        0 <= p < len && old(self).providers@[p].records_calls() ==> #[trigger] self.providers@[p].history()
                            == old(self).providers@[p].history() + calls_at(t, p, q),
                    !moved_on ==> attempt < max_attempts ==> replay(t, start as int, len as int, max_i)
                        == (ChainProgress::Next { offset: offset as int, attempt: attempt as int }),
                    !moved_on ==> attempt < max_attempts,
                    moved_on ==> t.len() > 0 && t.last().2 is Err && classify_spec(t.last().2->Err_0)
                        != LlmErrorClass::Fatal && last_error == Some(t.last().2->Err_0) && (if offset + 1
                        < len {
                        replay(t, start as int, len as int, max_i) == (ChainProgress::Next {
                            offset: offset + 1,
                            attempt: 0,
                        })
                    } else {
                        replay(t, start as int, len as int, max_i) == ChainProgress::Finished
                    }),
                    offset > 0 ==> t.len() > 0,
                    trail@.len() == t.len(),
                    forall|i: int| 0 <= i < t.len() ==> #[trigger] t[i].2 is Err,
                    forall|i: int|
                        0 <= i < t.len() ==> #[trigger] trail@[i]@ == attempt_line(
                            label_of(old_labels, t[i].0),
                            t[i].1,
                            t[i].2->Err_0,
                        ),
                decreases (max_attempts - attempt) * 2 + (if moved_on { 0int } else { 1int }),
            {
                let ghost providers_before = self.providers@;
                let ghost hist_before = self.providers@[index as int].history();
                let req = request.clone_request();
                let ghost req_view = req@;
                let outcome = self.providers[index].complete_with_tools(req);
                assert(req_view == q);
                let ghost record: AttemptRecord = (index as int, attempt as int, outcome);
                proof {
                    let t2 = t.push(record);
                    assert(t2.drop_last() =~= t);
                    assert forall|p: int| 0 <= p < len implies #[trigger] self.providers@[p].records_calls() == old(
                        self,
                    ).providers@[p].records_calls() by {
                        if p != index {
                            assert(self.providers@[p] == providers_before[p]);
                        }
                    }
                    assert forall|p: int| 0 <= p < len && old(self).providers@[p].records_calls() implies #[trigger] self.providers@[p].history() == old(
                        self,
                    ).providers@[p].history() + calls_at(t2, p, q) by {
                        if p == index {
                            assert(self.providers@[p].history() == hist_before.push((q, outcome)));
                            assert(calls_at(t2, p, q) == calls_at(t, p, q).push((q, outcome)));
                            assert(old(self).providers@[p].history() + calls_at(t2, p, q) =~= (old(
                                self,
                            ).providers@[p].history() + calls_at(t, p, q)).push((q, outcome)));
                        } else {
                            assert(calls_at(t2, p, q) == calls_at(t, p, q));
                            assert(self.providers@[p] == providers_before[p]);
                        }
                    }
                    lemma_replay_push(t, record, start as int, len as int, max_i);
                    t = t2;
                }
                match outcome {
                    Ok(response) => {
                        if self.policy.rotation_mode == RotationMode::RoundRobin {
                            self.cursor = (index + 1) % len;
                        }
                        self.attempts = Ghost(t);
                        let r = Ok(response);
                        assert(t.last().2 == r);
                        self.calls = Ghost(self.calls@.push((q, r)));
                        return r;
                    },
                    Err(error) => {
                        let line = attempt_line_text(label.as_str(), attempt, &error);
                        let retryable = error.is_retryable();
                        let fallbackable = error.is_fallbackable();
                        trail.push(line);
                        if retryable && attempt + 1 < max_attempts {
                            attempt = attempt + 1;
                        } else if fallbackable {
                            last_error = Some(error);
                            moved_on = true;
                        } else {
                            self.attempts = Ghost(t);
                            let r = Err(error);
                            self.calls = Ghost(self.calls@.push((q, r)));
                            return r;
                        }
                    },
                }
            }
            offset = offset + 1;
        }
        let summary = join_strings(&trail, " | ");
        let mut reason = summary;
        match last_error {
            Some(error) => {
                push_str(&mut reason, "; last_error=");
                let text = error.message();
                push_str(&mut reason, text.as_str());
            },
            None => {},
        }
        proof {
            assert(trail@.map_values(|p: String| p@) =~= trail_lines(old_labels, t));
        }
        self.attempts = Ghost(t);
        let r = Err(LlmProviderError::ChainExhausted { reason });
        self.calls = Ghost(self.calls@.push((q, r)));
        r
    }
}

} // verus!
