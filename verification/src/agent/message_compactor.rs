//! Shortening a planner conversation: the oldest tool rounds are replaced by
//! one summary message, while the preamble and the most recent rounds are
//! kept as they were.
use vstd::prelude::*;
use crate::llm::{LlmMessage, MessageRole, calls_view, clone_calls};
use crate::text::{decimal, join, join_strings, push_decimal, push_str, str_eq, to_owned_string};

verus! {

pub struct MessageCompactorConfig {
    pub keep_recent_rounds: u8,
    pub messages_token_budget: u64,
}

impl Default for MessageCompactorConfig {
    fn default() -> (r: Self)
        ensures
            r.keep_recent_rounds == 3,
            r.messages_token_budget == 0,
    {
        MessageCompactorConfig { keep_recent_rounds: 3, messages_token_budget: 0 }
    }
}

pub struct MessageCompactor {
    pub config: MessageCompactorConfig,
}

pub open spec fn is_preamble_role(r: MessageRole) -> bool {
    r == MessageRole::System || r == MessageRole::User
}

/// The preamble: up to two leading system or user messages.
pub open spec fn preamble_end_spec(roles: Seq<MessageRole>) -> int {
    if roles.len() >= 1 && is_preamble_role(roles[0]) {
        if roles.len() >= 2 && is_preamble_role(roles[1]) {
            2
        } else {
            1
        }
    } else {
        0
    }
}

pub open spec fn roles_of(ms: Seq<LlmMessage>) -> Seq<MessageRole> {
    ms.map_values(|m: LlmMessage| m.role)
}

/// The positions of the assistant messages from `from` on, in order: each
/// one opens a round.
pub open spec fn assistant_positions(roles: Seq<MessageRole>, from: int) -> Seq<int>
    decreases roles.len() - from,
{
    if from >= roles.len() || from < 0 {
        Seq::empty()
    } else if roles[from] == MessageRole::Assistant {
        seq![from] + assistant_positions(roles, from + 1)
    } else {
        assistant_positions(roles, from + 1)
    }
}

/// Where each round of the conversation begins.
pub open spec fn round_boundaries_spec(roles: Seq<MessageRole>) -> Seq<int> {
    assistant_positions(roles, preamble_end_spec(roles))
}

pub fn find_preamble_end(messages: &Vec<LlmMessage>) -> (r: usize)
    ensures
        r == preamble_end_spec(roles_of(messages@)),
{
    if messages.len() >= 1 && (messages[0].role == MessageRole::System || messages[0].role
        == MessageRole::User) {
        if messages.len() >= 2 && (messages[1].role == MessageRole::System || messages[1].role
            == MessageRole::User) {
            2
        } else {
            1
        }
    } else {
        0
    }
}

proof fn lemma_positions_bounds(roles: Seq<MessageRole>, from: int)
    ensures
        forall|k: int|
            0 <= k < assistant_positions(roles, from).len() ==> from <= #[trigger] assistant_positions(
                roles,
                from,
            )[k] < roles.len() && roles[assistant_positions(roles, from)[k]] == MessageRole::Assistant,
        forall|a: int, b: int|
            0 <= a < b < assistant_positions(roles, from).len() ==> #[trigger] assistant_positions(
                roles,
                from,
            )[a] < #[trigger] assistant_positions(roles, from)[b],
    decreases roles.len() - from,
{
    if from >= roles.len() || from < 0 {
    } else {
        lemma_positions_bounds(roles, from + 1);
        let rest = assistant_positions(roles, from + 1);
        if roles[from] == MessageRole::Assistant {
            let p = seq![from] + rest;
            assert forall|k: int| 0 <= k < p.len() implies from <= #[trigger] p[k] < roles.len()
                && roles[p[k]] == MessageRole::Assistant by {
                if k > 0 {
                    assert(p[k] == rest[k - 1]);
                }
            }
            assert forall|a: int, b: int| 0 <= a < b < p.len() implies #[trigger] p[a] < #[trigger] p[b] by {
                assert(p[b] == rest[b - 1]);
                if a > 0 {
                    assert(p[a] == rest[a - 1]);
                }
            }
        }
    }
}

/// The index of each message that opens a round.
pub fn find_round_boundaries(messages: &Vec<LlmMessage>) -> (r: Vec<usize>)
    ensures
        r@.len() == round_boundaries_spec(roles_of(messages@)).len(),
        forall|k: int| 0 <= k < r@.len() ==> r@[k] == round_boundaries_spec(roles_of(messages@))[k],
{
    let ghost roles = roles_of(messages@);
    let pe = find_preamble_end(messages);
    let mut out: Vec<usize> = Vec::new();
    let mut i: usize = messages.len();
    let ghost mut acc: Seq<int> = Seq::empty();
    let mut rev: Vec<usize> = Vec::new();
    // Walk backwards so that each step prepends one position.
    while i > pe
        invariant
            pe <= i <= messages@.len(),
            roles == roles_of(messages@),
            pe == preamble_end_spec(roles),
            rev@.len() == assistant_positions(roles, i as int).len(),
            forall|k: int|
                0 <= k < rev@.len() ==> rev@[rev@.len() - 1 - k] == assistant_positions(roles, i as int)[k],
        decreases i - pe,
    {
        i = i - 1;
        if messages[i].role == MessageRole::Assistant {
            let ghost before = rev@;
            rev.push(i);
            proof {
                let p = assistant_positions(roles, i as int);
                assert(roles[i as int] == messages@[i as int].role);
                assert(p == seq![i as int] + assistant_positions(roles, i + 1));
                assert forall|k: int| 0 <= k < rev@.len() implies rev@[rev@.len() - 1 - k] == p[k] by {
                    if k > 0 {
                        assert(rev@[rev@.len() - 1 - k] == before[before.len() - 1 - (k - 1)]);
                    }
                }
            }
        } else {
            assert(roles[i as int] == messages@[i as int].role);
        }
    }
    let n = rev.len();
    let mut j: usize = 0;
    while j < n
        invariant
            j <= n == rev@.len(),
            out@.len() == j,
            forall|k: int| 0 <= k < j ==> out@[k] == rev@[rev@.len() - 1 - k],
        decreases n - j,
    {
        out.push(rev[n - 1 - j]);
        j = j + 1;
    }
    out
}

/// The number of tool rounds.
pub fn count_rounds(messages: &Vec<LlmMessage>) -> (r: usize)
    ensures
        r == round_boundaries_spec(roles_of(messages@)).len(),
{
    find_round_boundaries(messages).len()
}

/// The distinct names of the tools called in assistant messages, in order of
/// first call.
pub open spec fn tool_names_in(ms: Seq<LlmMessage>) -> Seq<Seq<char>>
    decreases ms.len(),
{
    if ms.len() == 0 {
        Seq::empty()
    } else {
        let before = tool_names_in(ms.drop_last());
        if ms.last().role == MessageRole::Assistant {
            add_names(before, calls_view(ms.last().tool_calls@).map_values(|c: crate::llm::ToolCallView| c.name))
        } else {
            before
        }
    }
}

/// `names` followed by each of `more` that is not already listed.
pub open spec fn add_names(names: Seq<Seq<char>>, more: Seq<Seq<char>>) -> Seq<Seq<char>>
    decreases more.len(),
{
    if more.len() == 0 {
        names
    } else {
        let base = add_names(names, more.drop_last());
        if base.contains(more.last()) {
            base
        } else {
            base.push(more.last())
        }
    }
}

pub open spec fn count_role(ms: Seq<LlmMessage>, role: MessageRole) -> nat
    decreases ms.len(),
{
    if ms.len() == 0 {
        0
    } else {
        count_role(ms.drop_last(), role) + if ms.last().role == role {
            1nat
        } else {
            0nat
        }
    }
}

/// The summary that replaces compressed rounds: how many rounds, how many
/// tool results, and which tools were called.
pub open spec fn summary_text(ms: Seq<LlmMessage>) -> Seq<char> {
    let names = tool_names_in(ms);
    "{\"compressed_history\":true,\"rounds_compressed\":"@ + decimal(
        count_role(ms, MessageRole::Assistant),
    ) + ",\"tool_results\":"@ + decimal(count_role(ms, MessageRole::Tool))
        + ",\"tools_called\":\""@ + (if names.len() == 0 {
        "none"@
    } else {
        join(names, ", "@)
    }) + "\"}"@
}

fn contains_name(names: &Vec<String>, name: &str) -> (r: bool)
    ensures
        r == names@.map_values(|s: String| s@).contains(name@),
{
    let mut i: usize = 0;
    while i < names.len()
        invariant
            i <= names@.len(),
            forall|k: int| 0 <= k < i ==> names@[k]@ != name@,
        decreases names.len() - i,
    {
        if str_eq(names[i].as_str(), name) {
            assert(names@.map_values(|s: String| s@)[i as int] == name@);
            return true;
        }
        i = i + 1;
    }
    proof {
        let v = names@.map_values(|s: String| s@);
        if v.contains(name@) {
            let w = choose|k: int| 0 <= k < v.len() && v[k] == name@;
            assert(names@[w]@ == name@);
        }
    }
    false
}

/// The summary message text of `history`.
pub fn build_compressed_summary(history: &[LlmMessage]) -> (r: String)
    ensures
        r@ == summary_text(history@),
{
    let mut tools_called: Vec<String> = Vec::new();
    let mut tool_results: u64 = 0;
    let mut rounds: u64 = 0;
    let mut i: usize = 0;
    while i < history.len()
        invariant
            i <= history@.len(),
            rounds == count_role(history@.subrange(0, i as int), MessageRole::Assistant),
            tool_results == count_role(history@.subrange(0, i as int), MessageRole::Tool),
            rounds <= i,
            tool_results <= i,
            tools_called@.map_values(|s: String| s@) == tool_names_in(history@.subrange(0, i as int)),
        decreases history.len() - i,
    {
        let msg = &history[i];
        proof {
            let pre = history@.subrange(0, i + 1);
            assert(pre.drop_last() =~= history@.subrange(0, i as int));
            assert(pre.last() == history@[i as int]);
        }
        if msg.role == MessageRole::Assistant {
            rounds = rounds + 1;
            let ghost names0 = tools_called@.map_values(|s: String| s@);
            let ghost more = calls_view(msg.tool_calls@).map_values(|c: crate::llm::ToolCallView| c.name);
            let mut j: usize = 0;
            while j < msg.tool_calls.len()
                invariant
                    j <= msg.tool_calls@.len(),
                    more == calls_view(msg.tool_calls@).map_values(|c: crate::llm::ToolCallView| c.name),
                    tools_called@.map_values(|s: String| s@) == add_names(names0, more.subrange(0, j as int)),
                decreases msg.tool_calls.len() - j,
            {
                let name = msg.tool_calls[j].name.as_str();
                proof {
                    let pre = more.subrange(0, j + 1);
                    assert(pre.drop_last() =~= more.subrange(0, j as int));
                    assert(pre.last() == name@);
                }
                if !contains_name(&tools_called, name) {
                    let ghost before = tools_called@;
                    tools_called.push(to_owned_string(name));
                    assert(tools_called@.map_values(|s: String| s@) =~= before.map_values(|s: String| s@).push(name@));
                }
                j = j + 1;
            }
            assert(more.subrange(0, more.len() as int) =~= more);
        } else if msg.role == MessageRole::Tool {
            tool_results = tool_results + 1;
        }
        i = i + 1;
    }
    assert(history@.subrange(0, history@.len() as int) =~= history@);
    let mut out = to_owned_string("{\"compressed_history\":true,\"rounds_compressed\":");
    push_decimal(&mut out, rounds);
    push_str(&mut out, ",\"tool_results\":");
    push_decimal(&mut out, tool_results);
    push_str(&mut out, ",\"tools_called\":\"");
    if tools_called.len() == 0 {
        push_str(&mut out, "none");
    } else {
        let joined = join_strings(&tools_called, ", ");
        push_str(&mut out, joined.as_str());
    }
    push_str(&mut out, "\"}");
    proof {
        assert(out@ =~= summary_text(history@));
    }
    out
}

/// The compacted conversation: preamble, one summary message for the rounds
/// before the kept ones, then the kept rounds.
pub open spec fn compaction_plan(ms: Seq<LlmMessage>, keep: nat) -> Option<(int, int)> {
    let roles = roles_of(ms);
    let bs = round_boundaries_spec(roles);
    let pe = preamble_end_spec(roles);
    if bs.len() <= keep + 1 {
        None
    } else {
        let end = bs[bs.len() - keep];
        if end <= pe {
            None
        } else {
            Some((pe, end))
        }
    }
}

impl MessageCompactor {
    pub fn new(config: MessageCompactorConfig) -> (r: MessageCompactor)
        ensures
            r.config == config,
    {
        MessageCompactor { config }
    }

    /// Compaction is due when a budget is set, there are more rounds than
    /// the kept ones plus one, and the estimated tokens exceed the budget.
    pub fn should_compact(&self, messages: &Vec<LlmMessage>, estimated_tokens: u64) -> (r: bool)
        ensures
            r == (self.config.messages_token_budget != 0 && round_boundaries_spec(
                roles_of(messages@),
            ).len() > self.config.keep_recent_rounds + 1 && estimated_tokens
                > self.config.messages_token_budget),
    {
        if self.config.messages_token_budget == 0 {
            return false;
        }
        let rounds = count_rounds(messages);
        if rounds <= self.config.keep_recent_rounds as usize + 1 {
            return false;
        }
        estimated_tokens > self.config.messages_token_budget
    }

    /// Replaces the rounds before the kept ones by a summary message.
    pub fn compact(&self, messages: &mut Vec<LlmMessage>)
        requires
            self.config.keep_recent_rounds == 0 ==> round_boundaries_spec(
                roles_of(old(messages)@),
            ).len() <= 1,
        ensures
            match compaction_plan(old(messages)@, self.config.keep_recent_rounds as nat) {
                None => final(messages)@ == old(messages)@,
                Some((pe, end)) => {
                    &&& final(messages)@.len() == pe + 1 + (old(messages)@.len() - end)
                    &&& final(messages)@.subrange(0, pe) == old(messages)@.subrange(0, pe)
                    &&& final(messages)@[pe].role == MessageRole::User
                    &&& final(messages)@[pe].content matches Some(c) && c@ == summary_text(
                        old(messages)@.subrange(pe, end),
                    )
                    &&& final(messages)@[pe].tool_calls@.len() == 0
                    &&& final(messages)@[pe].tool_name is None
                    &&& final(messages)@[pe].tool_call_id is None
                    &&& final(messages)@.subrange(pe + 1, final(messages)@.len() as int)
                        == old(messages)@.subrange(end, old(messages)@.len() as int)
                },
            },
    {
        let ghost ms = messages@;
        let ghost roles = roles_of(ms);
        let bounds = find_round_boundaries(messages);
        let total = bounds.len();
        let keep = self.config.keep_recent_rounds as usize;
        if total <= keep + 1 {
            return;
        }
        proof {
            lemma_positions_bounds(roles, preamble_end_spec(roles));
        }
        let end = bounds[total - keep];
        let pe = find_preamble_end(messages);
        assert(end == round_boundaries_spec(roles)[total - keep]);
        if end <= pe {
            return;
        }
        let mut tail: Vec<LlmMessage> = messages.split_off(end);
        let history: Vec<LlmMessage> = messages.split_off(pe);
        assert(history@ == ms.subrange(pe as int, end as int));
        let summary = build_compressed_summary(history.as_slice());
        messages.push(
            LlmMessage {
                role: MessageRole::User,
                content: Some(summary),
                tool_name: None,
                tool_call_id: None,
                tool_calls: Vec::new(),
            },
        );
        messages.append(&mut tail);
        assert(messages@.subrange(0, pe as int) =~= ms.subrange(0, pe as int));
        assert(messages@.subrange(pe + 1, messages@.len() as int) =~= ms.subrange(
            end as int,
            ms.len() as int,
        ));
    }
}

} // verus!
