//! Command identifiers of an agent run, and the decisions of the agent loop
//! between engine passes.
use vstd::prelude::*;
use crate::text::{all_digits, decimal, digits_value, parse_u64, parse_unsigned, push_decimal,
    push_str, str_strip_prefix, strip_prefix, to_owned_string};
use vstd::string::StrSliceExecFns;
use crate::json::{JsonNumber, JsonValue, JsonView, NumberView, obj_insert};

verus! {

#[derive(Clone, Copy)]
pub struct AgentLoopConfig {
    pub max_iterations: usize,
}

/// `n` zeros.
pub open spec fn zeros(n: nat) -> Seq<char>
    decreases n,
{
    if n == 0 {
        Seq::empty()
    } else {
        zeros((n - 1) as nat).push('0')
    }
}

/// `format!("{:06}", n)`: the decimal digits of `n`, zero-padded to six.
pub open spec fn padded6(n: nat) -> Seq<char> {
    let d = decimal(n);
    if d.len() < 6 {
        zeros((6 - d.len()) as nat) + d
    } else {
        d
    }
}

/// The identifier of command number `n`.
pub open spec fn command_id(prefix: Seq<char>, n: nat) -> Seq<char> {
    prefix + "-"@ + padded6(n)
}

/// The command number that `id` carries under `prefix`, if it carries one.
pub open spec fn seen_index(prefix: Seq<char>, id: Seq<char>) -> Option<nat> {
    match strip_prefix(id, prefix) {
        Some(rest) => match strip_prefix(rest, "-"@) {
            Some(t) => parse_unsigned(t, u64::MAX as nat),
            None => None,
        },
        None => None,
    }
}

/// The largest command number among `ids` (0 when there is none).
pub open spec fn max_seen(prefix: Seq<char>, ids: Seq<String>) -> nat
    decreases ids.len(),
{
    if ids.len() == 0 {
        0
    } else {
        let m = max_seen(prefix, ids.drop_last());
        match seen_index(prefix, ids.last()@) {
            Some(k) => if k > m {
                k
            } else {
                m
            },
            None => m,
        }
    }
}

proof fn lemma_decimal_digits(n: nat)
    ensures
        decimal(n).len() > 0,
        all_digits(decimal(n)),
        digits_value(decimal(n)) == n,
        decimal(n)[0] != '+',
    decreases n,
{
    if n < 10 {
        let c = crate::text::digit_char(n);
        crate::text::lemma_digit_char(n);
        assert(decimal(n) == seq![c]);
        assert(seq![c].drop_last() =~= Seq::<char>::empty());
        assert(digits_value(seq![c]) == digits_value(Seq::<char>::empty()) * 10 + crate::text::digit_value(c));
    } else {
        lemma_decimal_digits(n / 10);
        let c = crate::text::digit_char(n % 10);
        crate::text::lemma_digit_char(n % 10);
        let d = decimal(n / 10);
        assert(decimal(n) == d.push(c));
        assert(d.push(c).drop_last() =~= d);
        assert(d.push(c)[0] == d[0]);
        assert(digits_value(d.push(c)) == digits_value(d) * 10 + crate::text::digit_value(c));
        assert((n / 10) * 10 + n % 10 == n) by (nonlinear_arith);
        assert forall|i: int| 0 <= i < d.push(c).len() implies crate::text::is_ascii_digit(
            #[trigger] d.push(c)[i],
        ) by {
            if i < d.len() {
                assert(d.push(c)[i] == d[i]);
            }
        }
    }
}

proof fn lemma_zeros_value(k: nat)
    ensures
        all_digits(zeros(k)),
        digits_value(zeros(k)) == 0,
        k > 0 ==> zeros(k)[0] == '0',
        zeros(k).len() == k,
    decreases k,
{
    if k > 0 {
        lemma_zeros_value((k - 1) as nat);
        assert(zeros(k).drop_last() =~= zeros((k - 1) as nat));
        if k > 1 {
            assert(zeros(k)[0] == zeros((k - 1) as nat)[0]);
        }
    }
}

proof fn lemma_leading_zeros(k: nat, d: Seq<char>)
    requires
        all_digits(d),
    ensures
        all_digits(zeros(k) + d),
        digits_value(zeros(k) + d) == digits_value(d),
    decreases d.len(),
{
    lemma_zeros_value(k);
    let s = zeros(k) + d;
    assert forall|i: int| 0 <= i < s.len() implies crate::text::is_ascii_digit(#[trigger] s[i]) by {
        if i < k {
            assert(s[i] == zeros(k)[i]);
        } else {
            assert(s[i] == d[i - k]);
        }
    }
    if d.len() == 0 {
        assert(s =~= zeros(k));
    } else {
        assert(all_digits(d.drop_last()));
        lemma_leading_zeros(k, d.drop_last());
        assert(s.drop_last() =~= zeros(k) + d.drop_last());
        assert(s.last() == d.last());
    }
}

proof fn lemma_parse_padded(n: nat)
    requires
        n <= u64::MAX,
    ensures
        parse_unsigned(padded6(n), u64::MAX as nat) == Some(n),
{
    lemma_decimal_digits(n);
    let d = decimal(n);
    if d.len() < 6 {
        let k = (6 - d.len()) as nat;
        lemma_leading_zeros(k, d);
        lemma_zeros_value(k);
        assert((zeros(k) + d)[0] == zeros(k)[0]);
    }
}

/// Reading back an issued identifier gives its number.
pub proof fn lemma_command_id_reads_back(prefix: Seq<char>, n: nat)
    requires
        n <= u64::MAX,
    ensures
        seen_index(prefix, command_id(prefix, n)) == Some(n),
{
    let pad = padded6(n);
    let id = command_id(prefix, n);
    reveal_strlit("-");
    let dash: Seq<char> = "-"@;
    assert(dash.len() == 1);
    let rest = dash + pad;
    assert(id =~= prefix + rest);
    assert(id.subrange(0, prefix.len() as int) =~= prefix);
    assert(id.subrange(prefix.len() as int, id.len() as int) =~= rest);
    assert(strip_prefix(id, prefix) == Some(rest));
    assert(rest.subrange(0, 1) =~= dash);
    assert(rest.subrange(1, rest.len() as int) =~= pad);
    assert(strip_prefix(rest, dash) == Some(pad));
    lemma_parse_padded(n);
}

proof fn lemma_max_seen_bounds(prefix: Seq<char>, ids: Seq<String>, i: int)
    requires
        0 <= i < ids.len(),
    ensures
        seen_index(prefix, ids[i]@) matches Some(k) ==> k <= max_seen(prefix, ids),
    decreases ids.len(),
{
    if i < ids.len() - 1 {
        lemma_max_seen_bounds(prefix, ids.drop_last(), i);
        assert(ids.drop_last()[i] == ids[i]);
    }
}

/// A command identifier issued with a number above every number already
/// seen is none of the seen identifiers: once the counter has been set from
/// them, the builder cannot reissue an identifier.
pub proof fn lemma_issued_id_is_fresh(prefix: Seq<char>, seen: Seq<String>, n: nat)
    requires
        max_seen(prefix, seen) < n <= u64::MAX,
    ensures
        forall|i: int| 0 <= i < seen.len() ==> #[trigger] seen[i]@ != command_id(prefix, n),
{
    assert forall|i: int| 0 <= i < seen.len() implies #[trigger] seen[i]@ != command_id(prefix, n) by {
        lemma_max_seen_bounds(prefix, seen, i);
        lemma_command_id_reads_back(prefix, n);
    }
}

/// Issues command identifiers `"{run_id}-cmd-{n:06}"` with increasing `n`.
pub struct CommandBuilder {
    prefix: String,
    next_index: u64,
}

impl CommandBuilder {
    pub closed spec fn prefix_spec(&self) -> Seq<char> {
        self.prefix@
    }

    pub closed spec fn next_index_spec(&self) -> u64 {
        self.next_index
    }

    pub fn new(run_id: &str) -> (r: CommandBuilder)
        ensures
            r.prefix_spec() == run_id@ + "-cmd"@,
            r.next_index_spec() == 0,
    {
        let mut prefix = to_owned_string(run_id);
        push_str(&mut prefix, "-cmd");
        CommandBuilder { prefix, next_index: 0 }
    }

    /// Moves the counter past every command number already used, and
    /// returns the largest one found.
    pub fn set_next_index_from_seen_ids(&mut self, seen_command_ids: &Vec<String>) -> (r: u64)
        ensures
            final(self).prefix_spec() == old(self).prefix_spec(),
            r == max_seen(old(self).prefix_spec(), seen_command_ids@),
            final(self).next_index_spec() == if old(self).next_index_spec() >= r {
                old(self).next_index_spec()
            } else {
                r
            },
    {
        let mut best: u64 = 0;
        let mut i: usize = 0;
        while i < seen_command_ids.len()
            invariant
                i <= seen_command_ids@.len(),
                best == max_seen(self.prefix@, seen_command_ids@.subrange(0, i as int)),
            decreases seen_command_ids.len() - i,
        {
            proof {
                let pre = seen_command_ids@.subrange(0, i + 1);
                assert(pre.drop_last() =~= seen_command_ids@.subrange(0, i as int));
                assert(pre.last() == seen_command_ids@[i as int]);
            }
            let id = seen_command_ids[i].as_str();
            match str_strip_prefix(id, self.prefix.as_str()) {
                Some(rest) => match str_strip_prefix(rest.as_str(), "-") {
                    Some(t) => match parse_u64(t.as_str()) {
                        Some(k) => {
                            if k > best {
                                best = k;
                            }
                        },
                        None => {},
                    },
                    None => {},
                },
                None => {},
            }
            i = i + 1;
        }
        assert(seen_command_ids@.subrange(0, seen_command_ids@.len() as int) =~= seen_command_ids@);
        if self.next_index < best {
            self.next_index = best;
        }
        best
    }

    /// The next command identifier.
    pub fn next_id(&mut self) -> (r: String)
        ensures
            final(self).prefix_spec() == old(self).prefix_spec(),
            final(self).next_index_spec() == if old(self).next_index_spec() == u64::MAX {
                u64::MAX
            } else {
                (old(self).next_index_spec() + 1) as u64
            },
            r@ == command_id(old(self).prefix_spec(), final(self).next_index_spec() as nat),
    {
        self.next_index = self.next_index.saturating_add(1);
        let mut digits = String::new();
        push_decimal(&mut digits, self.next_index);
        let mut out = to_owned_string(self.prefix.as_str());
        push_str(&mut out, "-");
        let n = digits.as_str().unicode_len();
        let mut k: usize = n;
        while k < 6
            invariant
                n <= k,
                k <= 6 || k == n,
                n == decimal(self.next_index as nat).len(),
                out@ == self.prefix@ + "-"@ + zeros((k - n) as nat),
            decreases 6 - k,
        {
            let ghost before = out@;
            push_str(&mut out, "0");
            proof {
                reveal_strlit("0");
                assert(zeros((k + 1 - n) as nat) == zeros((k - n) as nat).push('0'));
                assert(out@ =~= self.prefix@ + "-"@ + zeros((k + 1 - n) as nat));
            }
            k = k + 1;
        }
        push_str(&mut out, digits.as_str());
        proof {
            if n < 6 {
                assert(out@ =~= command_id(self.prefix@, self.next_index as nat));
            } else {
                assert(zeros(0) =~= Seq::<char>::empty());
                assert(out@ =~= command_id(self.prefix@, self.next_index as nat));
            }
        }
        out
    }
}


/// The kind of a command sent to the engine.
#[derive(Clone, Copy, PartialEq, Eq, Structural)]
pub enum EngineCommandType {
    UserConfirm,
    UserInput,
    UserSelect,
    Cancel,
}

/// A command for the engine: its identifier, its kind and its data object.
pub struct EngineCommand {
    pub id: String,
    pub command_type: EngineCommandType,
    pub data: JsonValue,
}

impl CommandBuilder {
    /// A command of `command_type` with `data`, under the next identifier.
    pub fn envelope(&mut self, command_type: EngineCommandType, data: JsonValue) -> (r: EngineCommand)
        ensures
            final(self).prefix_spec() == old(self).prefix_spec(),
            final(self).next_index_spec() == if old(self).next_index_spec() == u64::MAX {
                u64::MAX
            } else {
                (old(self).next_index_spec() + 1) as u64
            },
            r.id@ == command_id(old(self).prefix_spec(), final(self).next_index_spec() as nat),
            r.command_type == command_type,
            r.data@ == data@,
    {
        let id = self.next_id();
        EngineCommand { id, command_type, data }
    }

    /// Confirms (or rejects) the step `node_id` with `decision`.
    pub fn user_confirm(&mut self, node_id: &str, decision: &str) -> (r: EngineCommand)
        ensures
            final(self).prefix_spec() == old(self).prefix_spec(),
            final(self).next_index_spec() == if old(self).next_index_spec() == u64::MAX {
                u64::MAX
            } else {
                (old(self).next_index_spec() + 1) as u64
            },
            r.id@ == command_id(old(self).prefix_spec(), final(self).next_index_spec() as nat),
            r.command_type == EngineCommandType::UserConfirm,
            r.data@ == JsonView::Object(
                obj_insert(obj_insert(Seq::empty(), "node_id"@, JsonView::Str(node_id@)), "decision"@, JsonView::Str(decision@)),
            ),
    {
        let mut data = JsonValue::empty_object();
        data.insert(to_owned_string("node_id"), JsonValue::String(to_owned_string(node_id)));
        data.insert(to_owned_string("decision"), JsonValue::String(to_owned_string(decision)));
        self.envelope(EngineCommandType::UserConfirm, data)
    }

    /// Answers the input `input_id` with `value`.
    pub fn user_input(&mut self, input_id: &str, value: JsonValue) -> (r: EngineCommand)
        ensures
            final(self).prefix_spec() == old(self).prefix_spec(),
            final(self).next_index_spec() == if old(self).next_index_spec() == u64::MAX {
                u64::MAX
            } else {
                (old(self).next_index_spec() + 1) as u64
            },
            r.id@ == command_id(old(self).prefix_spec(), final(self).next_index_spec() as nat),
            r.command_type == EngineCommandType::UserInput,
            r.data@ == JsonView::Object(
                obj_insert(obj_insert(Seq::empty(), "input_id"@, JsonView::Str(input_id@)), "value"@, value@),
            ),
    {
        let mut data = JsonValue::empty_object();
        data.insert(to_owned_string("input_id"), JsonValue::String(to_owned_string(input_id)));
        data.insert(to_owned_string("value"), value);
        self.envelope(EngineCommandType::UserInput, data)
    }

    /// Selects option `selected_index` of `options` for the input `input_id`.
    pub fn user_select(&mut self, input_id: &str, selected_index: u64, options: Vec<JsonValue>) -> (r: EngineCommand)
        ensures
            final(self).prefix_spec() == old(self).prefix_spec(),
            final(self).next_index_spec() == if old(self).next_index_spec() == u64::MAX {
                u64::MAX
            } else {
                (old(self).next_index_spec() + 1) as u64
            },
            r.id@ == command_id(old(self).prefix_spec(), final(self).next_index_spec() as nat),
            r.command_type == EngineCommandType::UserSelect,
            r.data@ == JsonView::Object(
                obj_insert(
                    obj_insert(
                        obj_insert(Seq::empty(), "input_id"@, JsonView::Str(input_id@)),
                        "selected_index"@,
                        JsonView::Number(NumberView::PosInt(selected_index)),
                    ),
                    "options"@,
                    JsonValue::Array(options)@,
                ),
            ),
    {
        let mut data = JsonValue::empty_object();
        data.insert(to_owned_string("input_id"), JsonValue::String(to_owned_string(input_id)));
        data.insert(to_owned_string("selected_index"), JsonValue::Number(JsonNumber::PosInt(selected_index)));
        data.insert(to_owned_string("options"), JsonValue::Array(options));
        self.envelope(EngineCommandType::UserSelect, data)
    }

    /// Cancels the run.
    pub fn cancel(&mut self) -> (r: EngineCommand)
        ensures
            final(self).prefix_spec() == old(self).prefix_spec(),
            final(self).next_index_spec() == if old(self).next_index_spec() == u64::MAX {
                u64::MAX
            } else {
                (old(self).next_index_spec() + 1) as u64
            },
            r.id@ == command_id(old(self).prefix_spec(), final(self).next_index_spec() as nat),
            r.command_type == EngineCommandType::Cancel,
            r.data@ == JsonView::Object(Seq::empty()),
    {
        self.envelope(EngineCommandType::Cancel, JsonValue::empty_object())
    }
}

} // verus!
