use claude_chat::engine::{ConversationState, EngineCommand, KeyAction};
use claude_chat::messages::{ContentBlock, MessageContent, MessageResponse, ResponseContent, Role, Usage};
use claude_chat::tools::{McpHandler, ToolInput};

fn no_usage() -> Usage {
    Usage { input_tokens: 0, output_tokens: 0 }
}

fn type_line(state: &mut ConversationState, text: &str) {
    for c in text.chars() {
        let cmd = state.handle_key(KeyAction::Char(c));
        assert!(matches!(cmd, EngineCommand::Idle));
    }
}

#[test]
fn tool_only_response_commits_use_and_result_pair() {
    let mut state = ConversationState::new();
    let handler = McpHandler::new();
    let mut input = ToolInput::new();
    input.push_field(String::from("expression"), String::from("2 + 3"));
    let response = MessageResponse {
        content: vec![ResponseContent::ToolUse {
            id: String::from("call-7"),
            name: String::from("calculator"),
            input,
        }],
        stop_reason: None,
        usage: no_usage(),
    };
    state.process_response(&handler, response);
    assert_eq!(state.messages.len(), 1);
    assert!(matches!(state.messages[0].role, Role::Assistant));
    match &state.messages[0].content {
        MessageContent::Blocks(blocks) => {
            assert_eq!(blocks.len(), 2);
            match (&blocks[0], &blocks[1]) {
                (
                    ContentBlock::ToolUse { id, name, .. },
                    ContentBlock::ToolResult { tool_use_id, content },
                ) => {
                    assert_eq!(id, "call-7");
                    assert_eq!(name, "calculator");
                    assert_eq!(tool_use_id, "call-7");
                    assert_eq!(content, "Result: 5");
                },
                _ => panic!("expected a ToolUse block followed by its ToolResult"),
            }
        },
        MessageContent::Text(_) => panic!("a tool turn must keep its block sequence"),
    }
}

#[test]
fn single_text_response_commits_plain_text() {
    let mut state = ConversationState::new();
    let handler = McpHandler::new();
    let response = MessageResponse {
        content: vec![ResponseContent::Text { text: String::from("hello there") }],
        stop_reason: None,
        usage: no_usage(),
    };
    state.process_response(&handler, response);
    assert_eq!(state.messages.len(), 1);
    match &state.messages[0].content {
        MessageContent::Text(t) => assert_eq!(t, "hello there"),
        MessageContent::Blocks(_) => panic!("a single text block is stored as plain text"),
    }
}

#[test]
fn response_text_feeds_artifact_extraction() {
    let mut state = ConversationState::new();
    let handler = McpHandler::new();
    let text = String::from(
        "Here you go:\n<artifact identifier=\"doc\" title=\"T\">\npayload\n</artifact>\ndone",
    );
    let response = MessageResponse {
        content: vec![ResponseContent::Text { text }],
        stop_reason: None,
        usage: no_usage(),
    };
    state.process_response(&handler, response);
    assert_eq!(state.artifacts.len(), 1);
    assert_eq!(state.artifacts[0].id, "doc");
    assert_eq!(state.artifacts[0].content, "payload");
}

#[test]
fn unknown_tool_result_is_folded_not_fatal() {
    let mut state = ConversationState::new();
    let handler = McpHandler::new();
    let response = MessageResponse {
        content: vec![ResponseContent::ToolUse {
            id: String::from("c1"),
            name: String::from("translator"),
            input: ToolInput::new(),
        }],
        stop_reason: None,
        usage: no_usage(),
    };
    state.process_response(&handler, response);
    assert_eq!(state.messages.len(), 1);
    match &state.messages[0].content {
        MessageContent::Blocks(blocks) => match &blocks[1] {
            ContentBlock::ToolResult { content, .. } => {
                assert_eq!(content, "Error: unknown tool translator");
            },
            _ => panic!("second block must be the tool result"),
        },
        _ => panic!("tool turn keeps blocks"),
    }
}

#[test]
fn failed_turns_grow_history_by_two_each_and_add_no_artifacts() {
    let mut state = ConversationState::new();
    let n: usize = 3;
    for k in 0..n {
        type_line(&mut state, "hello");
        let cmd = state.handle_key(KeyAction::Enter);
        let sent = match cmd {
            EngineCommand::Submit(text) => text,
            _ => panic!("non-blank Enter must submit"),
        };
        assert_eq!(sent, "hello");
        state.record_transport_error("connection refused");
        assert_eq!(state.messages.len(), 2 * (k + 1));
    }
    assert_eq!(state.messages.len(), 2 * n);
    for k in 0..n {
        assert!(matches!(state.messages[2 * k].role, Role::User));
        assert!(matches!(state.messages[2 * k + 1].role, Role::Assistant));
        match &state.messages[2 * k + 1].content {
            MessageContent::Text(t) => assert_eq!(t, "Error: connection refused"),
            _ => panic!("synthetic error message is plain text"),
        }
    }
    assert_eq!(state.artifacts.len(), 0);
}

#[test]
fn scroll_up_at_zero_is_a_no_op() {
    let mut state = ConversationState::new();
    assert_eq!(state.scroll_offset, 0);
    state.handle_key(KeyAction::Up);
    assert_eq!(state.scroll_offset, 0);
    state.handle_key(KeyAction::Down);
    state.handle_key(KeyAction::Down);
    assert_eq!(state.scroll_offset, 2);
    state.handle_key(KeyAction::Up);
    assert_eq!(state.scroll_offset, 1);
    state.handle_key(KeyAction::Up);
    state.handle_key(KeyAction::Up);
    assert_eq!(state.scroll_offset, 0);
}

#[test]
fn input_editing_and_blank_enter() {
    let mut state = ConversationState::new();
    type_line(&mut state, "abc");
    assert_eq!(state.input, "abc");
    state.handle_key(KeyAction::Backspace);
    assert_eq!(state.input, "ab");
    state.handle_key(KeyAction::Backspace);
    state.handle_key(KeyAction::Backspace);
    state.handle_key(KeyAction::Backspace);
    assert_eq!(state.input, "");
    type_line(&mut state, "   ");
    let cmd = state.handle_key(KeyAction::Enter);
    assert!(matches!(cmd, EngineCommand::Idle));
    assert_eq!(state.messages.len(), 0);
    assert_eq!(state.input, "   ");
}

#[test]
fn enter_commits_user_message_and_clears_buffer() {
    let mut state = ConversationState::new();
    type_line(&mut state, "what is 2+2?");
    let cmd = state.handle_key(KeyAction::Enter);
    match cmd {
        EngineCommand::Submit(text) => assert_eq!(text, "what is 2+2?"),
        _ => panic!("expected a submission"),
    }
    assert_eq!(state.input, "");
    assert_eq!(state.messages.len(), 1);
    assert!(matches!(state.messages[0].role, Role::User));
    match &state.messages[0].content {
        MessageContent::Text(t) => assert_eq!(t, "what is 2+2?"),
        _ => panic!("user message is plain text"),
    }
}

#[test]
fn quit_and_view_keys_change_nothing() {
    let mut state = ConversationState::new();
    type_line(&mut state, "draft");
    assert!(matches!(state.handle_key(KeyAction::Quit), EngineCommand::Quit));
    assert!(matches!(state.handle_key(KeyAction::ViewArtifact), EngineCommand::ViewLatest));
    assert_eq!(state.input, "draft");
    assert_eq!(state.messages.len(), 0);
}

#[test]
fn mixed_text_and_tool_response_keeps_arrival_order() {
    let mut state = ConversationState::new();
    let handler = McpHandler::new();
    let mut input = ToolInput::new();
    input.push_field(String::from("expression"), String::from("40+2"));
    let response = MessageResponse {
        content: vec![
            ResponseContent::Text { text: String::from("Let me compute. ") },
            ResponseContent::ToolUse {
                id: String::from("c9"),
                name: String::from("calculator"),
                input,
            },
            ResponseContent::Text { text: String::from("Done.") },
        ],
        stop_reason: None,
        usage: no_usage(),
    };
    state.process_response(&handler, response);
    assert_eq!(state.messages.len(), 1);
    match &state.messages[0].content {
        MessageContent::Blocks(blocks) => {
            assert_eq!(blocks.len(), 4);
            assert!(matches!(&blocks[0], ContentBlock::Text { text } if text == "Let me compute. "));
            assert!(matches!(&blocks[1], ContentBlock::ToolUse { id, .. } if id == "c9"));
            assert!(
                matches!(&blocks[2], ContentBlock::ToolResult { tool_use_id, content }
                    if tool_use_id == "c9" && content == "Result: 42")
            );
            assert!(matches!(&blocks[3], ContentBlock::Text { text } if text == "Done."));
        },
        _ => panic!("a mixed response keeps its block sequence"),
    }
}
