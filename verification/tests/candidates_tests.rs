use ais_agent::agent::candidates::{
    build_detail_lookup_from_catalog, canonicalize_search_token, chain_pattern_matches,
    collect_candidate_refs, matches_chain, matches_keyword, matches_risk, normalize_search_query_tokens,
    normalize_search_text, normalize_topic, read_risk_level, semantic_topic_for_candidate,
    to_discovery_card, tokenize_search_text, truncate_candidates, CandidateContext, CandidateSearchRequest,
    ExecutableCandidates,
};
use ais_agent::json::{JsonNumber, JsonValue};

fn num(n: u64) -> JsonValue {
    JsonValue::Number(JsonNumber::PosInt(n))
}

fn string(s: &str) -> JsonValue {
    JsonValue::String(s.to_string())
}

fn obj(entries: Vec<(&str, JsonValue)>) -> JsonValue {
    let mut o = JsonValue::empty_object();
    for (k, v) in entries {
        o.insert(k.to_string(), v);
    }
    o
}

fn strings(items: &[&str]) -> Vec<String> {
    items.iter().map(|s| s.to_string()).collect()
}

fn card(reference: &str, description: &str, chains: &[&str], risk: Option<u64>) -> JsonValue {
    let mut c = obj(vec![
        ("ref", string(reference)),
        ("description", string(description)),
        ("execution_chains", JsonValue::Array(chains.iter().map(|c| string(c)).collect())),
    ]);
    if let Some(r) = risk {
        c.insert("risk_level".to_string(), num(r));
    }
    c
}

fn context() -> CandidateContext {
    let mut ctx = CandidateContext::default();
    ctx.executable_candidates.actions = vec![
        card("uniswap@1/swap", "Swap ERC-20 tokens", &["eip155:1", "eip155:10"], Some(3)),
        card("aave@1/supply", "Supply an asset", &["eip155:1"], Some(2)),
    ];
    ctx.executable_candidates.queries = vec![card("erc20@1/balance_of", "Read balanceOf an account", &["eip155:*"], None)];
    ctx
}

#[test]
fn topic_names_are_normalized() {
    assert_eq!(normalize_topic("  Token Swap!! "), Some("token-swap".to_string()));
    assert_eq!(normalize_topic("--a..b__c--"), Some("a..b__c".to_string()));
    assert_eq!(normalize_topic("   "), None);
    assert_eq!(normalize_topic("!!!"), None);
}

#[test]
fn semantic_topic_prefers_declared_then_tags() {
    assert_eq!(
        semantic_topic_for_candidate("action", &strings(&["defi.swap"]), &strings(&["Lending"]), &Vec::new()),
        "defi.swap"
    );
    assert_eq!(
        semantic_topic_for_candidate("action", &Vec::new(), &strings(&["!!", "Lending"]), &strings(&["dex"])),
        "action.lending"
    );
    assert_eq!(semantic_topic_for_candidate("query", &Vec::new(), &Vec::new(), &strings(&["DEX"])), "query.dex");
    assert_eq!(semantic_topic_for_candidate("query", &Vec::new(), &Vec::new(), &Vec::new()), "query.general");
}

#[test]
fn search_tokens_fold_spellings() {
    assert_eq!(tokenize_search_text("ERC-20 balanceOf, erc 20!"), strings(&["erc20", "balance", "erc20"]));
    assert_eq!(canonicalize_search_token("eth".to_string()), "native");
    assert_eq!(canonicalize_search_token("payment".to_string()), "transfer");
    assert_eq!(canonicalize_search_token("swap".to_string()), "swap");
    assert_eq!(normalize_search_text("Send my ERC-20 tokens"), "transfer my token token");
    assert_eq!(
        normalize_search_query_tokens("please send the tokens to my eth wallet, send"),
        strings(&["native", "token", "transfer", "wallet"])
    );
    assert!(normalize_search_query_tokens("the a to").is_empty());
}

#[test]
fn chain_patterns_match() {
    assert!(chain_pattern_matches("*", "eip155:1"));
    assert!(chain_pattern_matches("EIP155:1", "eip155:1"));
    assert!(chain_pattern_matches("eip155:*", "eip155:10"));
    assert!(!chain_pattern_matches("solana:*", "eip155:1"));
    assert!(!chain_pattern_matches("eip155:1", "eip155:10"));
}

#[test]
fn card_filters() {
    let c = card("uniswap@1/swap", "Swap ERC-20 tokens", &["eip155:1"], Some(3));
    assert!(matches_chain(&c, None));
    assert!(matches_chain(&c, Some("eip155:1")));
    assert!(!matches_chain(&c, Some("eip155:10")));
    assert!(matches_keyword(&c, Some(&strings(&["swap", "token"]))));
    assert!(!matches_keyword(&c, Some(&strings(&["lend"]))));
    assert!(matches_keyword(&c, None));
    assert_eq!(read_risk_level(&c), Some(3));
    assert_eq!(read_risk_level(&obj(vec![("risk_level", string("7"))])), Some(7));
    assert_eq!(read_risk_level(&obj(vec![("risk_level", num(300))])), None);
    assert!(matches_risk(&c, Some(2), Some(3), true));
    assert!(!matches_risk(&c, Some(4), None, true));
    assert!(!matches_risk(&c, Some(1), None, false));
    assert!(matches_risk(&c, None, None, false));
}

#[test]
fn discovery_card_keeps_sorted_chains() {
    let c = card("x@1/y", "d", &["c", "a", "b", "a", "e", "d"], Some(1));
    let d = to_discovery_card(&c, "action");
    assert_eq!(d.pointer("/ref").and_then(|v| v.as_str()), Some("x@1/y"));
    assert_eq!(d.pointer("/kind").and_then(|v| v.as_str()), Some("action"));
    assert_eq!(d.pointer("/risk_level").and_then(|v| v.as_u64()), Some(1));
    let chains: Vec<&str> = (0..5).filter_map(|i| d.pointer(&format!("/chains/{i}")).and_then(|v| v.as_str())).collect();
    assert_eq!(chains, vec!["a", "b", "c", "d"]);
    assert!(d.pointer("/description").is_none());
}

#[test]
fn search_filters_by_keyword_kind_and_chain() {
    let ctx = context();
    let req = CandidateSearchRequest {
        query: Some("swap tokens".to_string()),
        kind: None,
        chain: None,
        min_risk_level: None,
        max_risk_level: None,
        limit: None,
    };
    let r = ctx.search_candidates(&req);
    assert_eq!(r.pointer("/total_matches").and_then(|v| v.as_u64()), Some(1));
    assert_eq!(r.pointer("/results/0/ref").and_then(|v| v.as_str()), Some("uniswap@1/swap"));
    assert_eq!(r.pointer("/filters/kind").and_then(|v| v.as_str()), Some("any"));
    assert_eq!(r.pointer("/limit").and_then(|v| v.as_u64()), Some(12));

    let req = CandidateSearchRequest {
        query: None,
        kind: Some(" Query ".to_string()),
        chain: Some("eip155:5".to_string()),
        min_risk_level: None,
        max_risk_level: None,
        limit: Some(0),
    };
    let r = ctx.search_candidates(&req);
    assert_eq!(r.pointer("/filters/kind").and_then(|v| v.as_str()), Some("query"));
    assert_eq!(r.pointer("/total_matches").and_then(|v| v.as_u64()), Some(1));
    assert_eq!(r.pointer("/limit").and_then(|v| v.as_u64()), Some(1));
    assert_eq!(r.pointer("/results/0/kind").and_then(|v| v.as_str()), Some("query"));

    let req = CandidateSearchRequest {
        query: None,
        kind: None,
        chain: Some("eip155:1".to_string()),
        min_risk_level: None,
        max_risk_level: None,
        limit: Some(1),
    };
    let r = ctx.search_candidates(&req);
    assert_eq!(r.pointer("/total_matches").and_then(|v| v.as_u64()), Some(3));
    assert_eq!(r.pointer("/returned_matches").and_then(|v| v.as_u64()), Some(1));
    assert!(matches!(r.pointer("/truncated"), Some(JsonValue::Bool(true))));
}

#[test]
fn details_and_required_inputs() {
    let action = obj(vec![
        ("ref", string("aave@1/supply")),
        ("id", string("supply")),
        (
            "params",
            JsonValue::Array(vec![
                obj(vec![("name", string("amount")), ("required", JsonValue::Bool(true))]),
                obj(vec![("name", string("asset")), ("required", JsonValue::Bool(true))]),
                obj(vec![("name", string("memo")), ("required", JsonValue::Bool(false))]),
                obj(vec![("name", string("amount")), ("required", JsonValue::Bool(true))]),
            ]),
        ),
    ]);
    let query = obj(vec![("ref", string("erc20@1/balance_of")), ("id", string("balance_of"))]);
    let details = build_detail_lookup_from_catalog(vec![action], vec![query]);
    assert_eq!(details.len(), 2);
    assert_eq!(details[0].0, "aave@1/supply");
    assert_eq!(details[0].1.pointer("/kind").and_then(|v| v.as_str()), Some("action"));
    assert!(matches!(details[0].1.pointer("/write_gate"), Some(JsonValue::Null)));
    assert_eq!(details[1].1.pointer("/kind").and_then(|v| v.as_str()), Some("query"));
    let mut ctx = CandidateContext::default();
    ctx.detail_by_ref = details;
    assert_eq!(ctx.required_inputs_for_ref("aave@1/supply"), strings(&["amount", "asset"]));
    assert!(ctx.required_inputs_for_ref("missing").is_empty());
    let r = ctx.get_details_for_refs(&strings(&["erc20@1/balance_of", "missing"]));
    assert_eq!(r.pointer("/requested_refs").and_then(|v| v.as_u64()), Some(2));
    assert_eq!(r.pointer("/returned_refs").and_then(|v| v.as_u64()), Some(1));
    assert!(matches!(r.pointer("/truncated"), Some(JsonValue::Bool(false))));
    assert_eq!(r.pointer("/details/0/id").and_then(|v| v.as_str()), Some("balance_of"));
}

#[test]
fn candidates_truncate_actions_first() {
    let mut c = ExecutableCandidates {
        schema: String::new(),
        hash: String::new(),
        catalog_schema: String::new(),
        catalog_hash: String::new(),
        actions: vec![card("a@1/x", "", &[], None), card("a@1/y", "", &[], None)],
        queries: vec![card("q@1/z", "", &[], None), card("q@1/w", "", &[], None)],
        execution_plugins: vec![],
    };
    assert_eq!(collect_candidate_refs(&c), strings(&["a@1/x", "a@1/y", "q@1/w", "q@1/z"]));
    truncate_candidates(&mut c, 3);
    assert_eq!(c.actions.len(), 2);
    assert_eq!(c.queries.len(), 1);
    truncate_candidates(&mut c, 1);
    assert_eq!(c.actions.len(), 1);
    assert!(c.queries.is_empty());
}
