//! The answer of the chat-completion service, as plain data.

use vstd::prelude::*;

verus! {

/// One chat-completion answer.
#[derive(Default, Debug, Clone, PartialEq)]
pub struct GptResponse {
    pub id: String,
    pub object: String,
    pub created: i64,
    pub model: String,
    pub usage: Usage,
    pub choices: Vec<Choice>,
}

/// The token counts that the service reports for one exchange.
#[derive(Default, Debug, Clone, PartialEq)]
pub struct Usage {
    pub prompt_tokens: i64,
    pub completion_tokens: i64,
    pub total_tokens: i64,
}

/// One of the alternatives the service offers.
#[derive(Default, Debug, Clone, PartialEq)]
pub struct Choice {
    pub message: Message,
    pub finish_reason: String,
    pub index: i64,
}

/// One message of a conversation.
#[derive(Default, Debug, Clone, PartialEq)]
pub struct Message {
    pub role: String,
    pub content: String,
}

impl GptResponse {
    /// The text of the first choice. The answer must hold a choice.
    pub fn first_answer(&self) -> (out: String)
        requires
            self.choices@.len() > 0,
        ensures
            out@ == self.choices@[0].message.content@,
    {
        self.choices[0].message.content.clone()
    }
}

} // verus!
