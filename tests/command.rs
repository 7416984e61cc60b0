use bos_cli::command::{Command, SetContext, TextDataFileContext};

#[test]
fn command_query_keys() {
    let c = Command::Components { account_id: "alice.near".to_string() };
    assert_eq!(c.query_key(), "alice.near/widget/**");
    let s = Command::SocialDb {
        account_id: "alice.near".to_string(),
        key: "alice.near/profile/name".to_string(),
    };
    assert_eq!(s.query_key(), "alice.near/profile/name");
}

#[test]
fn text_file_context_wraps_contents() {
    let prev = SetContext {
        set_to_account_id: "alice.near".to_string(),
        key: "alice.near/profile/about".to_string(),
    };
    let ctx = TextDataFileContext::from_previous_context(prev, "line \"one\"");
    assert_eq!(ctx.0.set_to_account_id, "alice.near");
    assert_eq!(ctx.0.key, "alice.near/profile/about");
    assert_eq!(ctx.0.value, "\"line \\\"one\\\"\"");
}
