//! The off-chain APY query executor: checking a plan node, checking its
//! endpoint against the allowed domains, and deciding after each HTTP
//! attempt whether to finish, retry or fail.
use vstd::prelude::*;
use crate::json::{JsonValue, JsonView, obj_get, obj_insert, view_as_str, view_as_u64};
use crate::agent::candidates::{field, field_str, get_str};
use crate::text::{ends_with, join, join_strings, lower, push_decimal, push_str, str_eq,
    str_ends_with, str_strip_prefix, strip_prefix, to_ascii_lowercase, to_owned_string, trim,
    trim_str, decimal};

verus! {

pub struct OffchainApyExecutorConfig {
    pub chain: String,
    pub allowed_domains: Vec<String>,
    pub timeout_ms: u64,
    pub max_retries: u32,
    pub retry_backoff_ms: u64,
}

/// The request timeout when neither node nor configuration sets one.
pub fn default_timeout_ms() -> (r: u64)
    ensures
        r == 5000,
{
    5000
}

/// The pause between attempts when the configuration sets none.
pub fn default_retry_backoff_ms() -> (r: u64)
    ensures
        r == 250,
{
    250
}

/// Whether `host` is allowed by `rule`: a rule `*.suffix` allows `suffix`
/// and its subdomains, any other rule exactly its host; comparison ignores
/// ASCII case and the rule's surrounding blanks, and a blank rule allows
/// nothing.
pub open spec fn domain_rule_spec(rule: Seq<char>, host: Seq<char>) -> bool {
    let n = lower(trim(rule));
    let h = lower(host);
    if n.len() == 0 {
        false
    } else {
        match strip_prefix(n, "*."@) {
            Some(suffix) => h == suffix || ends_with(h, "."@ + suffix),
            None => h == n,
        }
    }
}

pub fn domain_rule_matches(rule: &str, host: &str) -> (r: bool)
    ensures
        r == domain_rule_spec(rule@, host@),
{
    let t = trim_str(rule);
    let normalized = to_ascii_lowercase(t.as_str());
    if normalized.as_str().is_empty() {
        return false;
    }
    let h = to_ascii_lowercase(host);
    match str_strip_prefix(normalized.as_str(), "*.") {
        Some(suffix) => {
            let mut dotted = to_owned_string(".");
            push_str(&mut dotted, suffix.as_str());
            str_eq(h.as_str(), suffix.as_str()) || str_ends_with(h.as_str(), dotted.as_str())
        },
        None => str_eq(h.as_str(), normalized.as_str()),
    }
}

/// `url::Url::parse` of a text, then `host_str` of the URL: `Err` with the
/// parse error's text when the URL does not parse, else the host, if any.
pub uninterp spec fn url_host(endpoint: Seq<char>) -> Result<Option<Seq<char>>, Seq<char>>;

/// Calls `url::Url::parse` and `Url::host_str`; the result is named
/// `url_host` and nothing more is stated of URL parsing.
#[verifier::external_body]
fn parse_url_host(endpoint: &str) -> (r: Result<Option<String>, String>)
    ensures
        match r {
            Ok(Some(h)) => url_host(endpoint@) == Ok::<Option<Seq<char>>, Seq<char>>(Some(h@)),
            Ok(None) => url_host(endpoint@) == Ok::<Option<Seq<char>>, Seq<char>>(None),
            Err(e) => url_host(endpoint@) == Err::<Option<Seq<char>>, Seq<char>>(e@),
        },
{
    match url::Url::parse(endpoint) {
        Ok(parsed) => Ok(parsed.host_str().map(|h| h.to_string())),
        Err(error) => Err(error.to_string()),
    }
}

pub open spec fn domain_texts(rules: Seq<String>) -> Seq<Seq<char>> {
    rules.map_values(|s: String| s@)
}

/// The verdict on an endpoint, given what parsing it gave.
pub open spec fn endpoint_verdict(rules: Seq<String>, parsed: Result<Option<Seq<char>>, Seq<char>>) -> Result<
    (),
    Seq<char>,
> {
    match parsed {
        Err(e) => Err("invalid endpoint url: "@ + e),
        Ok(None) => Err("endpoint url must include host"@),
        Ok(Some(host)) => if rules.len() == 0 {
            Err("offchain_apy_query allowed_domains must not be empty"@)
        } else if exists|i: int| 0 <= i < rules.len() && domain_rule_spec(#[trigger] rules[i]@, host) {
            Ok(())
        } else {
            Err(
                "endpoint host `"@ + host + "` is not in allowlist ["@ + join(domain_texts(rules), ","@)
                    + "]"@,
            )
        },
    }
}

pub open spec fn err_text(r: Result<(), String>) -> Result<(), Seq<char>> {
    match r {
        Ok(()) => Ok(()),
        Err(e) => Err(e@),
    }
}

/// The verdict on an endpoint from the result of parsing it.
pub fn check_endpoint_host(config: &OffchainApyExecutorConfig, parsed: Result<Option<String>, String>) -> (r:
    Result<(), String>)
    ensures
        err_text(r) == endpoint_verdict(
            config.allowed_domains@,
            match parsed {
                Ok(Some(h)) => Ok(Some(h@)),
                Ok(None) => Ok(None),
                Err(e) => Err(e@),
            },
        ),
{
    let ghost pv: Result<Option<Seq<char>>, Seq<char>> = match &parsed {
        Ok(Some(h)) => Ok(Some(h@)),
        Ok(None) => Ok(None),
        Err(e) => Err(e@),
    };
    let host = match parsed {
        Err(e) => {
            let mut m = to_owned_string("invalid endpoint url: ");
            push_str(&mut m, e.as_str());
            return Err(m);
        },
        Ok(None) => return Err(to_owned_string("endpoint url must include host")),
        Ok(Some(h)) => h,
    };
    if config.allowed_domains.len() == 0 {
        return Err(to_owned_string("offchain_apy_query allowed_domains must not be empty"));
    }
    let mut i: usize = 0;
    while i < config.allowed_domains.len()
        invariant
            i <= config.allowed_domains@.len(),
            config.allowed_domains@.len() > 0,
            pv == Ok::<Option<Seq<char>>, Seq<char>>(Some(host@)),
            pv == (match parsed {
                Ok(Some(h)) => Ok(Some(h@)),
                Ok(None) => Ok(None),
                Err(e) => Err(e@),
            }),
            forall|k: int|
                0 <= k < i ==> !domain_rule_spec(#[trigger] config.allowed_domains@[k]@, host@),
        decreases config.allowed_domains.len() - i,
    {
        if domain_rule_matches(config.allowed_domains[i].as_str(), host.as_str()) {
            assert(domain_rule_spec(config.allowed_domains@[i as int]@, host@));
            return Ok(());
        }
        i = i + 1;
    }
    let mut m = to_owned_string("endpoint host `");
    push_str(&mut m, host.as_str());
    push_str(&mut m, "` is not in allowlist [");
    let joined = join_strings(&config.allowed_domains, ",");
    push_str(&mut m, joined.as_str());
    push_str(&mut m, "]");
    proof {
        assert(config.allowed_domains@.map_values(|p: String| p@) == domain_texts(config.allowed_domains@));
    }
    Err(m)
}

impl OffchainApyExecutorConfig {
    /// The executor handles this chain's off-chain APY queries only.
    pub fn supports(&self, chain: &str, execution_type: &str) -> (r: bool)
        ensures
            r == (chain@ == self.chain@ && execution_type@ == "offchain_apy_query"@),
    {
        str_eq(chain, self.chain.as_str()) && str_eq(execution_type, "offchain_apy_query")
    }

    /// Checks an endpoint: it must parse as a URL with a host allowed by
    /// one of the domain rules.
    pub fn validate_endpoint(&self, endpoint: &str) -> (r: Result<(), String>)
        ensures
            err_text(r) == endpoint_verdict(self.allowed_domains@, url_host(endpoint@)),
    {
        let parsed = parse_url_host(endpoint);
        check_endpoint_host(self, parsed)
    }
}

/// `{"lit": x}` stands for `x`.
pub open spec fn lit_or_value_spec(v: JsonView) -> JsonView {
    match v {
        JsonView::Object(es) => match obj_get(es, "lit"@) {
            Some(x) => x,
            None => v,
        },
        _ => v,
    }
}

pub fn lit_or_value(value: &JsonValue) -> (r: &JsonValue)
    ensures
        r@ == lit_or_value_spec(value@),
{
    match value.get("lit") {
        Some(x) => x,
        None => value,
    }
}

/// A field that is a string or `{"lit": string}`.
pub open spec fn value_or_lit_str_spec(obj: Seq<(Seq<char>, JsonView)>, key: Seq<char>) -> Result<Seq<char>, Seq<char>> {
    match obj_get(obj, key) {
        None => Err("missing field `"@ + key + "`"@),
        Some(v) => match view_as_str(v) {
            Some(t) => Ok(t),
            None => match view_as_str(lit_or_value_spec(v)) {
                Some(t) => if v is Object {
                    Ok(t)
                } else {
                    Err("field `"@ + key + "` must be string or {lit: string}"@)
                },
                None => Err("field `"@ + key + "` must be string or {lit: string}"@),
            },
        },
    }
}

pub open spec fn result_text(r: Result<String, String>) -> Result<Seq<char>, Seq<char>> {
    match r {
        Ok(t) => Ok(t@),
        Err(e) => Err(e@),
    }
}

pub fn value_or_lit_as_str(object: &JsonValue, key: &str) -> (r: Result<String, String>)
    requires
        object@ is Object,
    ensures
        result_text(r) == value_or_lit_str_spec(object@->Object_0, key@),
{
    let v = match object.get(key) {
        Some(v) => v,
        None => {
            let mut m = to_owned_string("missing field `");
            push_str(&mut m, key);
            push_str(&mut m, "`");
            return Err(m);
        },
    };
    if let Some(t) = v.as_str() {
        return Ok(to_owned_string(t));
    }
    let lit = match v {
        JsonValue::Object(_) => match v.get("lit") {
            Some(x) => x.as_str(),
            None => None,
        },
        _ => None,
    };
    match lit {
        Some(t) => Ok(to_owned_string(t)),
        None => {
            let mut m = to_owned_string("field `");
            push_str(&mut m, key);
            push_str(&mut m, "` must be string or {lit: string}");
            Err(m)
        },
    }
}

/// A response body as outputs: an object as it is, anything else under
/// `"value"`.
pub open spec fn outputs_spec(body: JsonView) -> JsonView {
    match body {
        JsonView::Object(_) => body,
        _ => JsonView::Object(obj_insert(Seq::empty(), "value"@, body)),
    }
}

pub fn normalize_outputs(body: JsonValue) -> (r: JsonValue)
    ensures
        r@ == outputs_spec(body@),
{
    match body {
        JsonValue::Object(map) => JsonValue::Object(map),
        other => {
            let mut out = JsonValue::empty_object();
            let ghost v = other@;
            out.insert(to_owned_string("value"), other);
            out
        },
    }
}

/// The HTTP request of an off-chain query.
pub struct OffchainApyHttpRequest {
    pub method: String,
    pub endpoint: String,
    pub args: Option<JsonValue>,
    pub timeout_ms: u64,
}

/// A checked query node, ready to be sent.
pub struct PreparedOffchainCall {
    pub node_id: String,
    pub chain: String,
    pub execution_type: String,
    pub request: OffchainApyHttpRequest,
}

/// The plain values a prepared call holds.
pub struct PreparedView {
    pub node_id: Seq<char>,
    pub chain: Seq<char>,
    pub execution_type: Seq<char>,
    pub method: Seq<char>,
    pub endpoint: Seq<char>,
    pub args: Option<JsonView>,
    pub timeout_ms: u64,
}

pub open spec fn str_field(es: Seq<(Seq<char>, JsonView)>, key: Seq<char>) -> Option<Seq<char>> {
    match obj_get(es, key) {
        Some(v) => view_as_str(v),
        None => None,
    }
}

/// The checks of a query node, in order, and the call they give.
pub open spec fn prepare_spec(
    config: OffchainApyExecutorConfig,
    node: JsonView,
) -> Result<PreparedView, Seq<char>> {
    match node {
        JsonView::Object(n) => match str_field(n, "id"@) {
            None => Err("node.id must be string"@),
            Some(id) => match str_field(n, "chain"@) {
                None => Err("node.chain must be string"@),
                Some(chain) => match obj_get(n, "execution"@) {
                    Some(JsonView::Object(ex)) => match str_field(ex, "type"@) {
                        None => Err("execution.type must be string"@),
                        Some(ty) => if !(chain == config.chain@ && ty == "offchain_apy_query"@) {
                            Err(
                                "offchain executor does not support chain `"@ + chain
                                    + "` + execution type `"@ + ty + "`"@,
                            )
                        } else {
                            match value_or_lit_str_spec(ex, "endpoint"@) {
                                Err(e) => Err(e),
                                Ok(endpoint) => match endpoint_verdict(
                                    config.allowed_domains@,
                                    url_host(endpoint),
                                ) {
                                    Err(e) => Err(e),
                                    Ok(()) => Ok(
                                        PreparedView {
                                            node_id: id,
                                            chain,
                                            execution_type: ty,
                                            method: match str_field(ex, "method"@) {
                                                Some(m) => m,
                                                None => "GET"@,
                                            },
                                            endpoint,
                                            args: match obj_get(ex, "args"@) {
                                                Some(a) => Some(lit_or_value_spec(a)),
                                                None => None,
                                            },
                                            timeout_ms: match obj_get(ex, "timeout_ms"@) {
                                                Some(t) => match crate::json::view_as_u64(
                                                    lit_or_value_spec(t),
                                                ) {
                                                    Some(x) => x,
                                                    None => config.timeout_ms,
                                                },
                                                None => config.timeout_ms,
                                            },
                                        },
                                    ),
                                },
                            }
                        },
                    },
                    _ => Err("node.execution must be object"@),
                },
            },
        },
        _ => Err("node must be object"@),
    }
}

/// A prepared call carries what the node says: its id and chain, the
/// execution's type, its endpoint (a string or `{"lit": string}`, allowed by
/// the domain rules), its timeout when it is a number (else the configured
/// one), its method (`GET` when none is given as a string), its
/// arguments as given (a `{"lit": x}` wrapper taken off, none when there are
/// none).
pub proof fn lemma_prepared_call_carries_node(config: OffchainApyExecutorConfig, node: JsonView)
    ensures
        prepare_spec(config, node) matches Ok(p) ==> match node {
            JsonView::Object(n) => match obj_get(n, "execution"@) {
                Some(JsonView::Object(ex)) => {
                    &&& obj_get(n, "id"@) == Some(JsonView::Str(p.node_id))
                    &&& obj_get(n, "chain"@) == Some(JsonView::Str(p.chain))
                    &&& p.chain == config.chain@
                    &&& obj_get(ex, "type"@) == Some(JsonView::Str(p.execution_type))
                    &&& p.execution_type == "offchain_apy_query"@
                    &&& p.method == match obj_get(ex, "method"@) {
                        Some(JsonView::Str(m)) => m,
                        _ => "GET"@,
                    }
                    &&& match obj_get(ex, "endpoint"@) {
                        Some(JsonView::Str(e)) => p.endpoint == e,
                        Some(JsonView::Object(le)) => obj_get(le, "lit"@) == Some(JsonView::Str(p.endpoint)),
                        _ => false,
                    }
                    &&& endpoint_verdict(config.allowed_domains@, url_host(p.endpoint)) == Ok::<(), Seq<char>>(())
                    &&& p.timeout_ms == match obj_get(ex, "timeout_ms"@) {
                        Some(JsonView::Number(crate::json::NumberView::PosInt(x))) => x,
                        Some(JsonView::Object(te)) => match obj_get(te, "lit"@) {
                            Some(JsonView::Number(crate::json::NumberView::PosInt(x))) => x,
                            _ => config.timeout_ms,
                        },
                        _ => config.timeout_ms,
                    }
                    &&& p.args == match obj_get(ex, "args"@) {
                        None => None,
                        Some(a) => Some(
                            match a {
                                JsonView::Object(ae) => match obj_get(ae, "lit"@) {
                                    Some(x) => x,
                                    None => a,
                                },
                                _ => a,
                            },
                        ),
                    }
                },
                _ => false,
            },
            _ => false,
        },
{
}

pub open spec fn prepared_view(p: PreparedOffchainCall) -> PreparedView {
    PreparedView {
        node_id: p.node_id@,
        chain: p.chain@,
        execution_type: p.execution_type@,
        method: p.request.method@,
        endpoint: p.request.endpoint@,
        args: match p.request.args {
            Some(a) => Some(a@),
            None => None,
        },
        timeout_ms: p.request.timeout_ms,
    }
}

fn str_of(v: Option<&JsonValue>) -> (r: Option<String>)
    ensures
        match r {
            Some(t) => v matches Some(x) && view_as_str(x@) == Some(t@),
            None => v matches Some(x) ==> view_as_str(x@) is None,
        },
{
    match v {
        Some(x) => match x.as_str() {
            Some(t) => Some(to_owned_string(t)),
            None => None,
        },
        None => None,
    }
}

/// Checks a query node and builds its request: the node must be an object
/// with string `id` and `chain` and an `execution` object of a supported
/// type, whose endpoint is allowed; the method defaults to `GET` and the
/// timeout to the configured one.
pub fn prepare_offchain_call(config: &OffchainApyExecutorConfig, node: &JsonValue) -> (r: Result<
    PreparedOffchainCall,
    String,
>)
    ensures
        match r {
            Ok(p) => prepare_spec(*config, node@) == Ok::<PreparedView, Seq<char>>(prepared_view(p)),
            Err(e) => prepare_spec(*config, node@) == Err::<PreparedView, Seq<char>>(e@),
        },
{
    match node {
        JsonValue::Object(_) => {},
        _ => return Err(to_owned_string("node must be object")),
    }
    let node_id = match str_of(node.get("id")) {
        Some(t) => t,
        None => return Err(to_owned_string("node.id must be string")),
    };
    let chain = match str_of(node.get("chain")) {
        Some(t) => t,
        None => return Err(to_owned_string("node.chain must be string")),
    };
    let execution = match node.get("execution") {
        Some(x) => match x {
            JsonValue::Object(_) => x,
            _ => return Err(to_owned_string("node.execution must be object")),
        },
        None => return Err(to_owned_string("node.execution must be object")),
    };
    let execution_type = match str_of(execution.get("type")) {
        Some(t) => t,
        None => return Err(to_owned_string("execution.type must be string")),
    };
    if !config.supports(chain.as_str(), execution_type.as_str()) {
        let mut m = to_owned_string("offchain executor does not support chain `");
        push_str(&mut m, chain.as_str());
        push_str(&mut m, "` + execution type `");
        push_str(&mut m, execution_type.as_str());
        push_str(&mut m, "`");
        return Err(m);
    }
    let endpoint = match value_or_lit_as_str(execution, "endpoint") {
        Ok(t) => t,
        Err(e) => return Err(e),
    };
    match config.validate_endpoint(endpoint.as_str()) {
        Ok(()) => {},
        Err(e) => return Err(e),
    }
    let method = match str_of(execution.get("method")) {
        Some(t) => t,
        None => to_owned_string("GET"),
    };
    let args = match execution.get("args") {
        Some(a) => Some(lit_or_value(a).clone_value()),
        None => None,
    };
    let timeout_ms = match execution.get("timeout_ms") {
        Some(t) => match lit_or_value(t).as_u64() {
            Some(x) => x,
            None => config.timeout_ms,
        },
        None => config.timeout_ms,
    };
    Ok(
        PreparedOffchainCall {
            node_id,
            chain,
            execution_type,
            request: OffchainApyHttpRequest { method, endpoint, args, timeout_ms },
        },
    )
}

/// What to do after an HTTP attempt.
pub enum AttemptAction {
    /// The query succeeded; this is the executor's result.
    Finish(JsonValue),
    /// Wait this many milliseconds, then make attempt number `next_attempt`.
    Retry { backoff_ms: u64, next_attempt: u32 },
    /// Every attempt failed.
    Fail(String),
}

/// The executor's result for a successful attempt.
pub open spec fn success_view(chain: Seq<char>, endpoint: Seq<char>, attempt: nat, outputs: JsonView) -> JsonView {
    JsonView::Object(
        obj_insert(
            obj_insert(
                obj_insert(
                    obj_insert(
                        obj_insert(Seq::empty(), "execution_type"@, JsonView::Str("offchain_apy_query"@)),
                        "chain"@,
                        JsonView::Str(chain),
                    ),
                    "endpoint"@,
                    JsonView::Str(endpoint),
                ),
                "attempt"@,
                JsonView::Number(crate::json::NumberView::PosInt((attempt + 1) as u64)),
            ),
            "outputs"@,
            outputs,
        ),
    )
}

/// After attempt number `attempt` (from zero): success finishes; a failure
/// is retried after the backoff while retries remain, else the run fails
/// with the last error.
pub fn after_attempt(
    config: &OffchainApyExecutorConfig,
    chain: &str,
    endpoint: &str,
    attempt: u32,
    outcome: Result<JsonValue, String>,
) -> (r: AttemptAction)
    requires
        attempt <= config.max_retries,
    ensures
        match outcome {
            Ok(body) => r matches AttemptAction::Finish(v) && v@ == success_view(
                chain@,
                endpoint@,
                attempt as nat,
                outputs_spec(body@),
            ),
            Err(e) => if attempt < config.max_retries {
                r matches AttemptAction::Retry { backoff_ms, next_attempt } && backoff_ms
                    == config.retry_backoff_ms && next_attempt == attempt + 1
            } else {
                r matches AttemptAction::Fail(m) && m@ == "offchain_apy_query failed after "@
                    + decimal(config.max_retries as nat + 1) + " attempt(s): "@ + e@
            },
        },
{
    match outcome {
        Ok(body) => {
            let outputs = normalize_outputs(body);
            let mut result = JsonValue::empty_object();
            result.insert(to_owned_string("execution_type"), JsonValue::from_text("offchain_apy_query"));
            result.insert(to_owned_string("chain"), JsonValue::from_text(chain));
            result.insert(to_owned_string("endpoint"), JsonValue::from_text(endpoint));
            result.insert(
                to_owned_string("attempt"),
                JsonValue::Number(crate::json::JsonNumber::PosInt(attempt as u64 + 1)),
            );
            result.insert(to_owned_string("outputs"), outputs);
            AttemptAction::Finish(result)
        },
        Err(e) => {
            if attempt < config.max_retries {
                AttemptAction::Retry { backoff_ms: config.retry_backoff_ms, next_attempt: attempt + 1 }
            } else {
                let mut m = to_owned_string("offchain_apy_query failed after ");
                push_decimal(&mut m, config.max_retries as u64 + 1);
                push_str(&mut m, " attempt(s): ");
                push_str(&mut m, e.as_str());
                AttemptAction::Fail(m)
            }
        },
    }
}


/// One side effect that an off-chain answer reports, as a checkpoint keeps
/// it.  `status` is the status as reported (`sent` when none is given).
pub struct SideEffectRecord {
    pub schema: Option<String>,
    pub idempotency_key: String,
    pub node_id: String,
    pub effect_type: String,
    pub chain: Option<String>,
    pub execution_type: Option<String>,
    pub tx_hash: Option<String>,
    pub nonce: Option<u64>,
    pub provider_ref: Option<String>,
    pub reason_code: Option<String>,
    pub details: Option<JsonValue>,
    pub status: String,
    pub observed_at: String,
}

pub struct SideEffectView {
    pub schema: Option<Seq<char>>,
    pub idempotency_key: Seq<char>,
    pub node_id: Seq<char>,
    pub effect_type: Seq<char>,
    pub chain: Option<Seq<char>>,
    pub execution_type: Option<Seq<char>>,
    pub tx_hash: Option<Seq<char>>,
    pub nonce: Option<u64>,
    pub provider_ref: Option<Seq<char>>,
    pub reason_code: Option<Seq<char>>,
    pub details: Option<JsonView>,
    pub status: Seq<char>,
    pub observed_at: Seq<char>,
}

pub open spec fn opt_view(x: Option<String>) -> Option<Seq<char>> {
    match x {
        Some(s) => Some(s@),
        None => None,
    }
}

impl View for SideEffectRecord {
    type V = SideEffectView;

    open spec fn view(&self) -> SideEffectView {
        SideEffectView {
            schema: opt_view(self.schema),
            idempotency_key: self.idempotency_key@,
            node_id: self.node_id@,
            effect_type: self.effect_type@,
            chain: opt_view(self.chain),
            execution_type: opt_view(self.execution_type),
            tx_hash: opt_view(self.tx_hash),
            nonce: self.nonce,
            provider_ref: opt_view(self.provider_ref),
            reason_code: opt_view(self.reason_code),
            details: match self.details {
                Some(d) => Some(d@),
                None => None,
            },
            status: self.status@,
            observed_at: self.observed_at@,
        }
    }
}

pub open spec fn text_or(x: Option<Seq<char>>, default: Seq<char>) -> Seq<char> {
    match x {
        Some(s) => s,
        None => default,
    }
}

/// The record of the side effect `item`, the `index`-th object of the
/// answer's `side_effects`: each field as the item gives it, else from the
/// node; the key, when not given, is `type:node:tx_hash`, or
/// `type:node:index` without a hash.
pub open spec fn side_effect_spec(
    node_id: Seq<char>,
    chain: Seq<char>,
    execution_type: Seq<char>,
    observed_at: Seq<char>,
    index: nat,
    item: JsonView,
) -> SideEffectView {
    let effect_type = text_or(field_str(item, "effect_type"@), "tx"@);
    let effect_node = text_or(field_str(item, "node_id"@), node_id);
    let tx_hash = field_str(item, "tx_hash"@);
    let key = match field_str(item, "idempotency_key"@) {
        Some(k) => k,
        None => match tx_hash {
            Some(h) => effect_type + ":"@ + effect_node + ":"@ + h,
            None => effect_type + ":"@ + effect_node + ":"@ + decimal(index),
        },
    };
    SideEffectView {
        schema: Some("ais-side-effect-record/0.1.0"@),
        idempotency_key: key,
        node_id: effect_node,
        effect_type,
        chain: Some(text_or(field_str(item, "chain"@), chain)),
        execution_type: Some(text_or(field_str(item, "execution_type"@), execution_type)),
        tx_hash,
        nonce: match field(item, "nonce"@) {
            Some(v) => view_as_u64(v),
            None => None,
        },
        provider_ref: field_str(item, "provider_ref"@),
        reason_code: field_str(item, "reason_code"@),
        details: field(item, "details"@),
        status: text_or(field_str(item, "status"@), "sent"@),
        observed_at: text_or(field_str(item, "observed_at"@), observed_at),
    }
}

/// The objects among `xs`, in order.
pub open spec fn object_items(xs: Seq<JsonView>) -> Seq<JsonView>
    decreases xs.len(),
{
    if xs.len() == 0 {
        Seq::empty()
    } else {
        let rest = object_items(xs.drop_last());
        if xs.last() is Object {
            rest.push(xs.last())
        } else {
            rest
        }
    }
}

/// The records of the objects in the answer's `side_effects` array, in
/// order; none when there is no such array.
pub open spec fn side_effects_spec(
    node_id: Seq<char>,
    chain: Seq<char>,
    execution_type: Seq<char>,
    outputs: JsonView,
    observed_at: Seq<char>,
) -> Seq<SideEffectView> {
    match field(outputs, "side_effects"@) {
        Some(JsonView::Array(xs)) => {
            let objs = object_items(xs);
            Seq::new(
                objs.len(),
                |i: int| side_effect_spec(node_id, chain, execution_type, observed_at, i as nat, objs[i]),
            )
        },
        _ => Seq::empty(),
    }
}

fn text_field_or(item: &JsonValue, key: &str, default: &str) -> (r: String)
    ensures
        r@ == text_or(field_str(item@, key@), default@),
{
    match get_str(item, key) {
        Some(t) => to_owned_string(t),
        None => to_owned_string(default),
    }
}

fn opt_text_field(item: &JsonValue, key: &str) -> (r: Option<String>)
    ensures
        opt_view(r) == field_str(item@, key@),
{
    match get_str(item, key) {
        Some(t) => Some(to_owned_string(t)),
        None => None,
    }
}

fn side_effect_record(
    node_id: &str,
    chain: &str,
    execution_type: &str,
    observed_at: &str,
    index: usize,
    item: &JsonValue,
) -> (r: SideEffectRecord)
    ensures
        r@ == side_effect_spec(node_id@, chain@, execution_type@, observed_at@, index as nat, item@),
{
    let effect_type = text_field_or(item, "effect_type", "tx");
    let effect_node = text_field_or(item, "node_id", node_id);
    let tx_hash = opt_text_field(item, "tx_hash");
    let key = match opt_text_field(item, "idempotency_key") {
        Some(k) => k,
        None => {
            let mut k = to_owned_string(effect_type.as_str());
            push_str(&mut k, ":");
            push_str(&mut k, effect_node.as_str());
            push_str(&mut k, ":");
            match &tx_hash {
                Some(h) => push_str(&mut k, h.as_str()),
                None => push_decimal(&mut k, index as u64),
            }
            k
        },
    };
    let nonce = match item.get("nonce") {
        Some(v) => v.as_u64(),
        None => None,
    };
    let details = match item.get("details") {
        Some(v) => Some(v.clone_value()),
        None => None,
    };
    let chain_v = text_field_or(item, "chain", chain);
    let exec_v = text_field_or(item, "execution_type", execution_type);
    let provider_ref = opt_text_field(item, "provider_ref");
    let reason_code = opt_text_field(item, "reason_code");
    let status = text_field_or(item, "status", "sent");
    let observed = text_field_or(item, "observed_at", observed_at);
    SideEffectRecord {
        schema: Some(to_owned_string("ais-side-effect-record/0.1.0")),
        idempotency_key: key,
        node_id: effect_node,
        effect_type,
        chain: Some(chain_v),
        execution_type: Some(exec_v),
        tx_hash,
        nonce,
        provider_ref,
        reason_code,
        details,
        status,
        observed_at: observed,
    }
}

/// The side effects that an answer's outputs report.
pub fn extract_side_effects(
    node_id: &str,
    chain: &str,
    execution_type: &str,
    outputs: &JsonValue,
    observed_at: &str,
) -> (r: Vec<SideEffectRecord>)
    ensures
        r@.map_values(|x: SideEffectRecord| x@) == side_effects_spec(
            node_id@,
            chain@,
            execution_type@,
            outputs@,
            observed_at@,
        ),
{
    let mut out: Vec<SideEffectRecord> = Vec::new();
    match outputs.get("side_effects") {
        Some(JsonValue::Array(items)) => {
            proof {
                crate::json::lemma_array_view(*items);
            }
            let ghost xs = outputs@->Object_0;
            let ghost all = match field(outputs@, "side_effects"@) {
                Some(JsonView::Array(a)) => a,
                _ => Seq::empty(),
            };
            assert(all.len() == items@.len());
            let mut i: usize = 0;
            let mut count: usize = 0;
            while i < items.len()
                invariant
                    i <= items@.len(),
                    all.len() == items@.len(),
                    forall|k: int| 0 <= k < items@.len() ==> #[trigger] all[k] == items@[k]@,
                    count == object_items(all.subrange(0, i as int)).len(),
                    count <= i,
                    out@.map_values(|x: SideEffectRecord| x@) == Seq::new(
                        count as nat,
                        |k: int| side_effect_spec(
                            node_id@,
                            chain@,
                            execution_type@,
                            observed_at@,
                            k as nat,
                            object_items(all.subrange(0, i as int))[k],
                        ),
                    ),
                decreases items.len() - i,
            {
                let ghost pre = all.subrange(0, i as int);
                let ghost next = all.subrange(0, i + 1);
                assert(next.drop_last() =~= pre);
                assert(next.last() == items@[i as int]@);
                let ghost before = out@.map_values(|x: SideEffectRecord| x@);
                match &items[i] {
                    JsonValue::Object(_) => {
                        let rec = side_effect_record(node_id, chain, execution_type, observed_at, count, &items[i]);
                        let ghost rv = rec@;
                        out.push(rec);
                        assert(out@.map_values(|x: SideEffectRecord| x@) =~= before.push(rv));
                        assert(object_items(next) == object_items(pre).push(items@[i as int]@));
                        assert(object_items(next)[count as int] == items@[i as int]@);
                        assert(forall|k: int| 0 <= k < count ==> #[trigger] object_items(next)[k] == object_items(pre)[k]);
                        assert(out@.map_values(|x: SideEffectRecord| x@) =~= Seq::new(
                            (count + 1) as nat,
                            |k: int| side_effect_spec(
                                node_id@,
                                chain@,
                                execution_type@,
                                observed_at@,
                                k as nat,
                                object_items(next)[k],
                            ),
                        ));
                        count = count + 1;
                    },
                    _ => {
                        assert(object_items(next) == object_items(pre));
                    },
                }
                i = i + 1;
            }
            assert(all.subrange(0, items@.len() as int) =~= all);
            out
        },
        _ => out,
    }
}

/// What reconciling a recorded side effect gives: nothing for a record
/// this executor did not make; the record unchanged when it is no longer
/// pending; else the record marked as not reconcilable here.
pub open spec fn reconcile_spec(
    config_chain: Seq<char>,
    record: SideEffectView,
    pending: bool,
) -> Option<SideEffectView> {
    if record.execution_type != Some("offchain_apy_query"@) {
        None
    } else {
        match record.chain {
            None => None,
            Some(c) => if c != config_chain {
                None
            } else if !pending {
                Some(record)
            } else {
                Some(
                    SideEffectView {
                        observed_at: "1970-01-01T00:00:00Z"@,
                        reason_code: Some("side_effect_reconcile_not_supported"@),
                        ..record
                    },
                )
            },
        }
    }
}

fn clone_opt(x: &Option<String>) -> (r: Option<String>)
    ensures
        opt_view(r) == opt_view(*x),
{
    match x {
        Some(s) => Some(to_owned_string(s.as_str())),
        None => None,
    }
}

fn clone_record(r0: &SideEffectRecord) -> (r: SideEffectRecord)
    ensures
        r@ == r0@,
{
    SideEffectRecord {
        schema: clone_opt(&r0.schema),
        idempotency_key: to_owned_string(r0.idempotency_key.as_str()),
        node_id: to_owned_string(r0.node_id.as_str()),
        effect_type: to_owned_string(r0.effect_type.as_str()),
        chain: clone_opt(&r0.chain),
        execution_type: clone_opt(&r0.execution_type),
        tx_hash: clone_opt(&r0.tx_hash),
        nonce: r0.nonce,
        provider_ref: clone_opt(&r0.provider_ref),
        reason_code: clone_opt(&r0.reason_code),
        details: match &r0.details {
            Some(d) => Some(d.clone_value()),
            None => None,
        },
        status: to_owned_string(r0.status.as_str()),
        observed_at: to_owned_string(r0.observed_at.as_str()),
    }
}

impl OffchainApyExecutorConfig {
    /// Reconciles a recorded side effect; `pending` says whether its status
    /// is still pending.  Off-chain queries cannot be looked up again, so a
    /// pending record of this executor is marked as such.
    pub fn reconcile_side_effect(&self, record: &SideEffectRecord, pending: bool) -> (r: Result<
        Option<SideEffectRecord>,
        String,
    >)
        ensures
            r matches Ok(x) && match x {
                Some(y) => reconcile_spec(self.chain@, record@, pending) == Some(y@),
                None => reconcile_spec(self.chain@, record@, pending) is None,
            },
    {
        let is_offchain = match &record.execution_type {
            Some(t) => str_eq(t.as_str(), "offchain_apy_query"),
            None => false,
        };
        if !is_offchain {
            return Ok(None);
        }
        let chain = match &record.chain {
            Some(c) => c,
            None => return Ok(None),
        };
        if !self.supports(chain.as_str(), "offchain_apy_query") {
            return Ok(None);
        }
        if !pending {
            return Ok(Some(clone_record(record)));
        }
        let mut updated = clone_record(record);
        updated.observed_at = to_owned_string("1970-01-01T00:00:00Z");
        updated.reason_code = Some(to_owned_string("side_effect_reconcile_not_supported"));
        Ok(Some(updated))
    }
}
} // verus!
