//! The two operations of the command line, and the contexts that a write
//! passes from one step to the next.
use vstd::prelude::*;

use crate::call::widget_query_key;
use crate::json::{json_string_text, text_file_value};

verus! {

/// What the user is up to.
pub enum Command {
    /// Download the components of an account.
    Components { account_id: String },
    /// Write to the document store under `key`, as `account_id`.
    SocialDb { account_id: String, key: String },
}

impl Command {
    /// The key the command reads before it acts: the whole component subtree
    /// of the account, or the key that is about to be written.
    pub fn query_key(&self) -> (r: String)
        ensures
            match self {
                Command::Components { account_id } => r@ == account_id@ + "/widget/**"@,
                Command::SocialDb { key, .. } => r@ == key@,
            },
    {
        match self {
            Command::Components { account_id } => widget_query_key(account_id.as_str()),
            Command::SocialDb { key, .. } => String::from_str(key.as_str()),
        }
    }
}

/// Where a write goes: the account whose document it changes, and the key.
pub struct SetContext {
    pub set_to_account_id: String,
    pub key: String,
}

/// A write with its value, as the JSON text of that value.
pub struct DataContext {
    pub set_to_account_id: String,
    pub key: String,
    pub value: String,
}

/// A write whose value is the contents of a text file.
pub struct TextDataFileContext(pub DataContext);

impl TextDataFileContext {
    /// Takes the file's contents as one JSON string value.
    pub fn from_previous_context(previous_context: SetContext, contents: &str) -> (r: Self)
        ensures
            r.0.set_to_account_id == previous_context.set_to_account_id,
            r.0.key == previous_context.key,
            r.0.value@ == json_string_text(contents@),
    {
        let value = text_file_value(contents);
        TextDataFileContext(
            DataContext {
                set_to_account_id: previous_context.set_to_account_id,
                key: previous_context.key,
                value,
            },
        )
    }
}

} // verus!
