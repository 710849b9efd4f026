//! The decisions of the model-driven pause policy between model calls: the
//! caller asks the model, decodes its tool calls into engine commands or
//! tool results, and this module says what follows.
use vstd::prelude::*;
use crate::agent::agent_loop::EngineCommand;
use crate::agent::segmented_round::messages_view;
use crate::llm::{LlmMessage, LlmMessageView, LlmProviderError, error_text_spec};
use crate::text::to_owned_string;

verus! {

/// Where a pause decision stands between model calls.
pub struct BrainRoundState {
    pub messages: Vec<LlmMessage>,
    pub round: u8,
    pub max_rounds: u8,
}

/// What came of one model call.
pub enum BrainEvent {
    ProviderFailed(LlmProviderError),
    /// The model answered without tool calls.
    NoToolCalls,
    /// The model called tools: `assistant` is its message, and its calls
    /// decoded into engine commands and tool results, in order.
    Answered { assistant: LlmMessage, commands: Vec<EngineCommand>, tool_results: Vec<LlmMessage> },
}

/// What the caller does next.
pub enum BrainAction {
    CallProvider,
    /// Send these engine commands; the decision is made.
    Commands(Vec<EngineCommand>),
    /// The decision fails with this model error text.
    Fail(String),
}

pub open spec fn round_limit_reason() -> Seq<char> {
    "llm tool round limit reached without engine commands"@
}

/// The state and action after one model call, over the conversation's
/// messages and the round count.
pub open spec fn brain_step_messages(s: BrainRoundState, e: BrainEvent) -> Seq<LlmMessageView> {
    match e {
        BrainEvent::Answered { assistant, commands, tool_results } => if commands@.len() > 0 {
            messages_view(s.messages@).push(assistant@)
        } else {
            messages_view(s.messages@).push(assistant@) + messages_view(tool_results@)
        },
        _ => messages_view(s.messages@),
    }
}

/// A pause decision's first state: the system and context messages; with no
/// rounds allowed it fails at once.
pub fn brain_start(messages: Vec<LlmMessage>, max_rounds: u8) -> (r: (BrainRoundState, BrainAction))
    ensures
        messages_view(r.0.messages@) == messages_view(messages@),
        r.0.round == 0 && r.0.max_rounds == max_rounds,
        max_rounds == 0 ==> (r.1 matches BrainAction::Fail(t) && t@ == round_limit_reason()),
        max_rounds > 0 ==> r.1 is CallProvider,
{
    let action = if max_rounds == 0 {
        BrainAction::Fail(to_owned_string("llm tool round limit reached without engine commands"))
    } else {
        BrainAction::CallProvider
    };
    (BrainRoundState { messages, round: 0, max_rounds }, action)
}

/// What follows one model call at a pause.  A provider error fails with its
/// text; an answer without tool calls fails.  An answer that decodes to
/// engine commands sends them.  One that gives only tool results adds the
/// answer and the results to the conversation and asks again, until the
/// rounds are used up; one that gives neither fails.
pub fn brain_round_step(state: BrainRoundState, event: BrainEvent) -> (r: (BrainRoundState, BrainAction))
    requires
        state.round < state.max_rounds,
    ensures
        messages_view(r.0.messages@) == brain_step_messages(state, event),
        r.0.max_rounds == state.max_rounds,
        match event {
            BrainEvent::ProviderFailed(err) => r.0.round == state.round && (r.1 matches BrainAction::Fail(t)
                && t@ == error_text_spec(err)),
            BrainEvent::NoToolCalls => r.0.round == state.round && (r.1 matches BrainAction::Fail(t) && t@
                == "provider returned no tool calls while paused"@),
            BrainEvent::Answered { assistant, commands, tool_results } => if commands@.len() > 0 {
                r.0.round == state.round && r.1 == BrainAction::Commands(commands)
            } else if tool_results@.len() == 0 {
                r.0.round == state.round && (r.1 matches BrainAction::Fail(t) && t@
                    == "provider returned no actionable tool calls"@)
            } else {
                r.0.round == state.round + 1 && if r.0.round >= state.max_rounds {
                    r.1 matches BrainAction::Fail(t) && t@ == round_limit_reason()
                } else {
                    r.1 is CallProvider
                }
            },
        },
{
    let ghost e = event;
    let ghost s0 = state;
    let mut s = state;
    match event {
        BrainEvent::ProviderFailed(err) => {
            let t = err.message();
            (s, BrainAction::Fail(t))
        },
        BrainEvent::NoToolCalls => (s, BrainAction::Fail(to_owned_string("provider returned no tool calls while paused"))),
        BrainEvent::Answered { assistant, commands, tool_results } => {
            let ghost m0 = messages_view(s.messages@);
            let ghost a = assistant@;
            let ghost tr = messages_view(tool_results@);
            let ghost cmds = commands;
            s.messages.push(assistant);
            assert(messages_view(s.messages@) =~= m0.push(a));
            if commands.len() > 0 {
                return (s, BrainAction::Commands(commands));
            }
            if tool_results.len() == 0 {
                return (s, BrainAction::Fail(to_owned_string("provider returned no actionable tool calls")));
            }
            let ghost m1 = messages_view(s.messages@);
            let mut results = tool_results;
            let n = results.len();
            let mut k: usize = 0;
            while results.len() > 0
                invariant
                    k + results@.len() == n,
                    n == tr.len(),
                    messages_view(results@) == tr.subrange(k as int, n as int),
                    messages_view(s.messages@) == m1 + tr.subrange(0, k as int),
                    s.round == s0.round && s.max_rounds == s0.max_rounds,
                    s0.round < s0.max_rounds,
                decreases results.len(),
            {
                assert(messages_view(results@)[0] == results@[0]@);
                let ghost rs = results@;
                let ghost before = messages_view(s.messages@);
                let m = results.remove(0);
                s.messages.push(m);
                assert(messages_view(s.messages@) =~= before.push(tr[k as int]));
                assert(messages_view(s.messages@) =~= m1 + tr.subrange(0, k + 1));
                assert(results@ =~= rs.drop_first());
                assert(messages_view(results@) =~= messages_view(rs).drop_first());
                assert(messages_view(results@) =~= tr.subrange(k + 1, n as int));
                k = k + 1;
            }
            assert(tr.subrange(0, n as int) =~= tr);
            s.round = s.round + 1;
            if s.round >= s.max_rounds {
                (s, BrainAction::Fail(to_owned_string("llm tool round limit reached without engine commands")))
            } else {
                (s, BrainAction::CallProvider)
            }
        },
    }
}

} // verus!
