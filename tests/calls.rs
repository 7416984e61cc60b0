use bos_cli::call::{
    build_set_call, contract_for_network, query_args, render_document, widget_query_key,
    write_outcome, TerminalStatus,
};
use bos_cli::document::{merge_into, DocNode};
use bos_cli::error::DocError;

#[test]
fn render_keeps_entry_order_and_quotes_keys() {
    let mut d = DocNode::Branch(Vec::new());
    merge_into(&mut d, &vec!["b".to_string()], "1".to_string()).unwrap();
    merge_into(&mut d, &vec!["a\"q".to_string(), "x".to_string()], "[2]".to_string()).unwrap();
    assert_eq!(render_document(&d), "{\"b\":1,\"a\\\"q\":{\"x\":[2]}}");
    assert_eq!(render_document(&DocNode::Branch(Vec::new())), "{}");
}

#[test]
fn set_call_wraps_data() {
    let d = DocNode::Leaf("true".to_string());
    let c = build_set_call("social.near".to_string(), &d, 42);
    assert_eq!(c.args, "{\"data\":true}");
    assert_eq!(c.deposit, 42);
    assert_eq!(c.method, "set");
}

#[test]
fn query_for_components() {
    let key = widget_query_key("alice.near");
    assert_eq!(key, "alice.near/widget/**");
    assert_eq!(query_args(&vec![key]), "{\"keys\":[\"alice.near/widget/**\"]}");
    assert_eq!(
        query_args(&vec!["a".to_string(), "b".to_string()]),
        "{\"keys\":[\"a\",\"b\"]}"
    );
    assert_eq!(query_args(&Vec::new()), "{\"keys\":[]}");
}

#[test]
fn network_lookup() {
    let config = vec![
        ("mainnet".to_string(), "social.near".to_string()),
        ("testnet".to_string(), "v1.social08.testnet".to_string()),
    ];
    assert_eq!(contract_for_network(&config, &"testnet".to_string()), Ok("v1.social08.testnet".to_string()));
    assert_eq!(
        contract_for_network(&config, &"localnet".to_string()),
        Err(DocError::UnknownNetwork("localnet".to_string()))
    );
}

#[test]
fn submission_outcome() {
    assert_eq!(write_outcome(TerminalStatus::Success), Ok(()));
    assert_eq!(
        write_outcome(TerminalStatus::Failure("gas exceeded".to_string())),
        Err(DocError::SubmissionFailure("gas exceeded".to_string()))
    );
}

#[test]
fn existing_value_from_response() {
    let mut resp = DocNode::Branch(Vec::new());
    let p = vec!["alice.near".to_string(), "profile".to_string(), "name".to_string()];
    assert_eq!(bos_cli::call::existing_value_at(&resp, &p), None);
    merge_into(&mut resp, &p, "\"Al\"".to_string()).unwrap();
    assert_eq!(bos_cli::call::existing_value_at(&resp, &p), Some("\"Al\"".to_string()));
    let profile = vec!["alice.near".to_string(), "profile".to_string()];
    assert_eq!(
        bos_cli::call::existing_value_at(&resp, &profile),
        Some("{\"name\":\"Al\"}".to_string())
    );
}
