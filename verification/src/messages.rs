//! The structured message history: roles, content blocks, and the shapes of
//! a model request and response.

use vstd::prelude::*;

use crate::tools::ToolInput;

verus! {

/// Who produced a message.
#[derive(Clone, Copy, Debug, PartialEq, Eq, Structural)]
pub enum Role {
    User,
    Assistant,
}

/// One unit of structured message content.
pub enum ContentBlock {
    Text { text: String },
    ToolUse { id: String, name: String, input: ToolInput },
    ToolResult { tool_use_id: String, content: String },
}

/// Message content: plain text, or an ordered sequence of content blocks.
pub enum MessageContent {
    Text(String),
    Blocks(Vec<ContentBlock>),
}

/// One committed turn of the conversation. Messages are immutable once
/// appended; history only grows.
pub struct Message {
    pub role: Role,
    pub content: MessageContent,
}

/// One content item of a model response: a text segment or a tool-call
/// request.
pub enum ResponseContent {
    Text { text: String },
    ToolUse { id: String, name: String, input: ToolInput },
}

/// Token accounting reported with a response.
#[derive(Clone, Copy, Debug, PartialEq, Eq, Structural)]
pub struct Usage {
    pub input_tokens: u32,
    pub output_tokens: u32,
}

/// A full model response: ordered content items plus metadata.
pub struct MessageResponse {
    pub content: Vec<ResponseContent>,
    pub stop_reason: Option<String>,
    pub usage: Usage,
}

} // verus!
