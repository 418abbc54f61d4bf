//! The conversation engine: the owned session state and the turn cycle that
//! folds a model response — text segments and tool calls — into the committed
//! history, plus the key-event state machine of the input loop.

use vstd::prelude::*;

use crate::artifacts::{artifacts_match, Artifact, ArtifactManager, spec_extract};
use crate::messages::{ContentBlock, Message, MessageContent, MessageResponse, Role, ResponseContent};
use crate::tools::{spec_dispatch, McpHandler, ToolError, ToolErrorSpec};

verus! {

/// The text items of a response concatenated in arrival order.
pub open spec fn concat_texts(items: Seq<ResponseContent>) -> Seq<char>
    decreases items.len(),
{
    if items.len() == 0 {
        Seq::empty()
    } else {
        concat_texts(items.drop_last()) + (match items.last() {
            ResponseContent::Text { text } => text@,
            ResponseContent::ToolUse { .. } => Seq::<char>::empty(),
        })
    }
}

/// What a tool call's `ToolResult` block says: the tool's reply, or the
/// dispatcher's rejection folded into readable text.
pub open spec fn folded_result_text(name: Seq<char>, fields: Seq<(Seq<char>, Seq<char>)>) -> Seq<
    char,
> {
    match spec_dispatch(name, fields) {
        Ok(t) => t,
        Err(ToolErrorSpec::MissingField(f)) => "Error: missing field "@ + f,
        Err(ToolErrorSpec::UnknownTool(n)) => "Error: unknown tool "@ + n,
    }
}

/// `blocks` is exactly the folding of `items`: each text item becomes one
/// `Text` block; each tool call becomes its `ToolUse` block immediately
/// followed by the matching `ToolResult`, in arrival order.
pub open spec fn blocks_match(items: Seq<ResponseContent>, blocks: Seq<ContentBlock>) -> bool
    decreases items.len(),
{
    if items.len() == 0 {
        blocks.len() == 0
    } else {
        match items.last() {
            ResponseContent::Text { text } => blocks.len() >= 1 && (blocks.last()
                matches ContentBlock::Text { text: t } && t@ == text@) && blocks_match(
                items.drop_last(),
                blocks.drop_last(),
            ),
            ResponseContent::ToolUse { id, name, input } => blocks.len() >= 2 && (blocks[
                blocks.len() - 2
            ] matches ContentBlock::ToolUse { id: i2, name: n2, input: in2 } && i2@ == id@ && n2@
                == name@ && in2@ == input@) && (blocks.last()
                matches ContentBlock::ToolResult { tool_use_id, content } && tool_use_id@ == id@
                && content@ == folded_result_text(name@, input@)) && blocks_match(
                items.drop_last(),
                blocks.drop_last().drop_last(),
            ),
        }
    }
}

/// The commit rule: exactly one block, and it plain text, is stored as plain
/// text content; anything else keeps the full block sequence.
pub open spec fn committed_content(content: MessageContent, blocks: Seq<ContentBlock>) -> bool {
    if blocks.len() == 1 && blocks[0] is Text {
        content matches MessageContent::Text(t) && (blocks[0]
            matches ContentBlock::Text { text } && t@ == text@)
    } else {
        content matches MessageContent::Blocks(v) && v@ == blocks
    }
}

/// A turn whose response holds only a tool call still commits both the
/// `ToolUse` block and its `ToolResult`, in that order, with matching call
/// identifiers.
pub proof fn lemma_tool_only_turn(items: Seq<ResponseContent>, blocks: Seq<ContentBlock>)
    requires
        items.len() == 1,
        items[0] is ToolUse,
        blocks_match(items, blocks),
    ensures
        blocks.len() == 2,
        blocks[0] is ToolUse,
        blocks[1] is ToolResult,
        (blocks[0] matches ContentBlock::ToolUse { id, name, input } && (blocks[1]
            matches ContentBlock::ToolResult { tool_use_id, content } && tool_use_id@ == id@
            && content@ == folded_result_text(name@, input@))),
        (items[0] matches ResponseContent::ToolUse { id: rid, .. } && (blocks[0]
            matches ContentBlock::ToolUse { id, .. } && id@ == rid@)),
{
    assert(items.last() == items[0]);
    assert(items.drop_last().len() == 0);
    assert(blocks_match(items.drop_last(), blocks.drop_last().drop_last()));
    assert(blocks.drop_last().drop_last().len() == 0);
    assert(blocks.len() == 2);
    assert(blocks[blocks.len() - 2] == blocks[0]);
    assert(blocks.last() == blocks[1]);
}

/// The history after `turns` failed turns, each appending the user's message
/// and the synthetic error reply.
pub open spec fn after_failed_turns(msgs: Seq<Message>, turns: Seq<(Message, Message)>) -> Seq<
    Message,
>
    decreases turns.len(),
{
    if turns.len() == 0 {
        msgs
    } else {
        after_failed_turns(msgs.push(turns[0].0).push(turns[0].1), turns.drop_first())
    }
}

/// N failed turns grow the history by exactly 2N messages.
pub proof fn lemma_failed_turns_growth(msgs: Seq<Message>, turns: Seq<(Message, Message)>)
    ensures
        after_failed_turns(msgs, turns).len() == msgs.len() + 2 * turns.len(),
    decreases turns.len(),
{
    if turns.len() > 0 {
        lemma_failed_turns_growth(
            msgs.push(turns[0].0).push(turns[0].1),
            turns.drop_first(),
        );
    }
}

/// A terminal key event, abstracted from the concrete backend.
#[derive(Clone, Copy, Debug, PartialEq, Eq, Structural)]
pub enum KeyAction {
    Char(char),
    Backspace,
    Enter,
    Up,
    Down,
    Quit,
    ViewArtifact,
}

/// What the surrounding loop must do after a key was handled.
pub enum EngineCommand {
    /// Nothing beyond redrawing.
    Idle,
    /// Send this user text to the remote model.
    Submit(String),
    /// Leave the loop and release the terminal.
    Quit,
    /// Hand the most recent artifact to the external viewer.
    ViewLatest,
}

/// The conversation engine's owned state: committed history, extracted
/// artifacts, the pending input buffer, and the scroll offset.
pub struct ConversationState {
    pub messages: Vec<Message>,
    pub artifacts: Vec<Artifact>,
    pub input: String,
    pub scroll_offset: usize,
}

impl ConversationState {
    pub fn new() -> (r: ConversationState)
        ensures
            r.messages@.len() == 0,
            r.artifacts@.len() == 0,
            r.input@.len() == 0,
            r.scroll_offset == 0,
    {
        ConversationState {
            messages: Vec::new(),
            artifacts: Vec::new(),
            input: String::new(),
            scroll_offset: 0,
        }
    }

    /// Fold one model response into the state: dispatch each tool call in
    /// arrival order, extract artifacts from the concatenated text, and
    /// commit exactly one assistant message under the single-text rule.
    pub fn process_response(&mut self, handler: &McpHandler, response: MessageResponse)
        ensures
            final(self).messages@.len() == old(self).messages@.len() + 1,
            final(self).messages@.drop_last() == old(self).messages@,
            final(self).messages@.last().role == Role::Assistant,
            exists|blocks: Seq<ContentBlock>|
                #[trigger] blocks_match(response.content@, blocks) && committed_content(
                    final(self).messages@.last().content,
                    blocks,
                ),
            final(self).artifacts@.len() == old(self).artifacts@.len() + spec_extract(
                concat_texts(response.content@),
            ).len(),
            final(self).artifacts@.subrange(0, old(self).artifacts@.len() as int) == old(self).artifacts@,
            artifacts_match(
                final(self).artifacts@.subrange(
                    old(self).artifacts@.len() as int,
                    final(self).artifacts@.len() as int,
                ),
                spec_extract(concat_texts(response.content@)),
            ),
            final(self).input == old(self).input,
            final(self).scroll_offset == old(self).scroll_offset,
    {
        let MessageResponse { content: mut items, stop_reason: _, usage: _ } = response;
        let ghost orig = items@;
        let mut blocks: Vec<ContentBlock> = Vec::new();
        let mut full_text = String::new();
        proof {
            assert(orig.subrange(0, 0) =~= Seq::<ResponseContent>::empty());
            assert(items@ =~= orig.subrange(orig.len() - items@.len(), orig.len() as int));
        }
        while items.len() > 0
            invariant
                items@.len() <= orig.len(),
                items@ =~= orig.subrange(orig.len() - items@.len(), orig.len() as int),
                blocks_match(orig.subrange(0, orig.len() - items@.len()), blocks@),
                full_text@ == concat_texts(orig.subrange(0, orig.len() - items@.len())),
            decreases items@.len(),
        {
            let ghost olditems = items@;
            let ghost k = orig.len() - olditems.len();
            let ghost done = orig.subrange(0, k as int);
            let ghost oldblocks = blocks@;
            let item = items.remove(0);
            proof {
                assert(olditems == orig.subrange(k as int, orig.len() as int));
                assert(item == olditems[0]);
                assert(orig.subrange(k as int, orig.len() as int)[0] == orig[k as int]);
                assert(olditems[0] == orig[k as int]);
                assert(items@ == olditems.remove(0));
                assert(olditems.remove(0).len() == olditems.len() - 1);
                assert forall|x: int| 0 <= x < olditems.len() - 1 implies olditems.remove(0)[x]
                    == orig[k + 1 + x] by {
                    assert(olditems.remove(0)[x] == olditems[x + 1]);
                    assert(orig.subrange(k as int, orig.len() as int)[x + 1] == orig[k + 1 + x]);
                }
                assert(olditems.remove(0) =~= orig.subrange(k + 1, orig.len() as int));
                assert(items@ =~= orig.subrange(orig.len() - items@.len(), orig.len() as int));
                assert(orig.subrange(0, k + 1) =~= done.push(item));
                assert(orig.subrange(0, orig.len() - items@.len()) == done.push(item));
                assert(done.push(item).drop_last() =~= done);
            }
            let ghost step = done.push(item);
            match item {
                ResponseContent::Text { text } => {
                    full_text.append(text.as_str());
                    blocks.push(ContentBlock::Text { text });
                    proof {
                        assert(blocks@.drop_last() =~= oldblocks);
                        assert(blocks_match(step, blocks@));
                        assert(full_text@ == concat_texts(step));
                    }
                },
                ResponseContent::ToolUse { id, name, input } => {
                    let result: String = match handler.handle_tool_call(name.as_str(), &input) {
                        Ok(t) => t,
                        Err(e) => match e {
                            ToolError::MissingField(f) => {
                                let mut s = String::from_str("Error: missing field ");
                                proof {
                                    reveal_strlit("Error: missing field ");
                                }
                                s.append(f.as_str());
                                s
                            },
                            ToolError::UnknownTool(n) => {
                                let mut s = String::from_str("Error: unknown tool ");
                                proof {
                                    reveal_strlit("Error: unknown tool ");
                                }
                                s.append(n.as_str());
                                s
                            },
                        },
                    };
                    proof {
                        assert(result@ == folded_result_text(name@, input@));
                    }
                    let use_id = id.clone();
                    blocks.push(ContentBlock::ToolUse { id: use_id, name, input });
                    blocks.push(ContentBlock::ToolResult { tool_use_id: id, content: result });
                    proof {
                        assert(blocks@.drop_last().drop_last() =~= oldblocks);
                        assert(blocks@[blocks@.len() - 2] matches ContentBlock::ToolUse { .. });
                        assert(blocks_match(step, blocks@));
                        assert(full_text@ + Seq::<char>::empty() =~= full_text@);
                        assert(full_text@ == concat_texts(step));
                    }
                },
            }
        }
        proof {
            assert(orig.subrange(0, orig.len() as int) =~= orig);
        }
        let manager = ArtifactManager::new();
        let mut found = manager.extract_artifacts(full_text.as_str());
        let ghost old_art = self.artifacts@;
        let ghost found_view = found@;
        self.artifacts.append(&mut found);
        proof {
            assert(self.artifacts@.subrange(0, old_art.len() as int) =~= old_art);
            assert(self.artifacts@.subrange(old_art.len() as int, self.artifacts@.len() as int)
                =~= found_view);
        }
        let ghost gblocks = blocks@;
        let content = if blocks.len() == 1 {
            match blocks.remove(0) {
                ContentBlock::Text { text } => MessageContent::Text(text),
                other => {
                    blocks.push(other);
                    proof {
                        assert(blocks@ =~= gblocks);
                    }
                    MessageContent::Blocks(blocks)
                },
            }
        } else {
            MessageContent::Blocks(blocks)
        };
        proof {
            assert(committed_content(content, gblocks));
        }
        let ghost pre_msgs = self.messages@;
        self.messages.push(Message { role: Role::Assistant, content });
        proof {
            assert(self.messages@.drop_last() =~= pre_msgs);
            assert(blocks_match(orig, gblocks));
        }
    }

    /// Record a failed turn: append one synthetic assistant text message
    /// describing the error; nothing else changes, history is never rolled
    /// back.
    pub fn record_transport_error(&mut self, err: &str)
        ensures
            final(self).messages@.len() == old(self).messages@.len() + 1,
            final(self).messages@.drop_last() == old(self).messages@,
            final(self).messages@.last().role == Role::Assistant,
            final(self).messages@.last().content matches MessageContent::Text(t) && t@ == "Error: "@
                + err@,
            final(self).artifacts == old(self).artifacts,
            final(self).input == old(self).input,
            final(self).scroll_offset == old(self).scroll_offset,
    {
        let mut text = String::from_str("Error: ");
        proof {
            reveal_strlit("Error: ");
        }
        text.append(err);
        let ghost pre = self.messages@;
        self.messages.push(Message { role: Role::Assistant, content: MessageContent::Text(text) });
        proof {
            assert(self.messages@.drop_last() =~= pre);
        }
    }

    /// Handle one key event. Printable characters edit the buffer; Enter with
    /// non-blank input commits the user message and asks the loop to send it;
    /// Up never takes the scroll offset below zero — at zero it is a no-op.
    pub fn handle_key(&mut self, key: KeyAction) -> (cmd: EngineCommand)
        ensures
            match key {
                KeyAction::Char(c) => final(self).input@ == old(self).input@.push(c) && final(self).messages == old(self).messages && final(self).artifacts == old(self).artifacts
                    && final(self).scroll_offset == old(self).scroll_offset && cmd is Idle,
                KeyAction::Backspace => final(self).input@ == (if old(self).input@.len() == 0 {
                    old(self).input@
                } else {
                    old(self).input@.drop_last()
                }) && final(self).messages == old(self).messages && final(self).artifacts == old(self).artifacts && final(self).scroll_offset == old(self).scroll_offset && cmd is Idle,
                KeyAction::Up => final(self).scroll_offset == (if old(self).scroll_offset > 0 {
                    old(self).scroll_offset - 1
                } else {
                    0
                }) && final(self).messages == old(self).messages && final(self).artifacts == old(self).artifacts && final(self).input == old(self).input && cmd is Idle,
                KeyAction::Down => final(self).scroll_offset == (if old(self).scroll_offset
                    < usize::MAX {
                    old(self).scroll_offset + 1
                } else {
                    old(self).scroll_offset as int
                }) && final(self).messages == old(self).messages && final(self).artifacts == old(self).artifacts && final(self).input == old(self).input && cmd is Idle,
                KeyAction::Quit => *final(self) == *old(self) && cmd is Quit,
                KeyAction::ViewArtifact => *final(self) == *old(self) && cmd is ViewLatest,
                KeyAction::Enter => if is_blank(old(self).input@) {
                    *final(self) == *old(self) && cmd is Idle
                } else {
                    final(self).input@.len() == 0 && final(self).messages@.len() == old(self).messages@.len() + 1 && final(self).messages@.drop_last() == old(self).messages@ && final(self).messages@.last().role == Role::User && (final(self).messages@.last().content matches MessageContent::Text(t) && t@ == old(self).input@) && (cmd matches EngineCommand::Submit(sent) && sent@ == old(self).input@) && final(self).artifacts == old(self).artifacts && final(self).scroll_offset == old(self).scroll_offset
                },
            },
    {
        match key {
            KeyAction::Char(c) => {
                push_char(&mut self.input, c);
                EngineCommand::Idle
            },
            KeyAction::Backspace => {
                pop_char(&mut self.input);
                EngineCommand::Idle
            },
            KeyAction::Up => {
                if self.scroll_offset > 0 {
                    self.scroll_offset = self.scroll_offset - 1;
                }
                EngineCommand::Idle
            },
            KeyAction::Down => {
                if self.scroll_offset < usize::MAX {
                    self.scroll_offset = self.scroll_offset + 1;
                }
                EngineCommand::Idle
            },
            KeyAction::Quit => EngineCommand::Quit,
            KeyAction::ViewArtifact => EngineCommand::ViewLatest,
            KeyAction::Enter => {
                if is_blank_exec(self.input.as_str()) {
                    EngineCommand::Idle
                } else {
                    let text = self.input.clone();
                    self.input = String::new();
                    let ghost pre = self.messages@;
                    self.messages.push(
                        Message { role: Role::User, content: MessageContent::Text(text.clone()) },
                    );
                    proof {
                        assert(self.messages@.drop_last() =~= pre);
                    }
                    EngineCommand::Submit(text)
                }
            },
        }
    }
}

/// Whether `c` has the Unicode whitespace property; what it holds on each
/// character is the standard library's table.
pub uninterp spec fn is_unicode_whitespace(c: char) -> bool;

/// Relies on `char::is_whitespace`: the Unicode whitespace property, a
/// function of the character alone.
#[verifier::external_body]
fn char_is_whitespace(c: char) -> (r: bool)
    ensures
        r == is_unicode_whitespace(c),
{
    c.is_whitespace()
}

/// Blank text: every character is whitespace. Empty text is blank.
pub open spec fn is_blank(s: Seq<char>) -> bool {
    forall|i: int| 0 <= i < s.len() ==> is_unicode_whitespace(s[i])
}

/// Whether `s` is all whitespace, as `str::trim` followed by `is_empty` sees
/// it.
pub fn is_blank_exec(s: &str) -> (r: bool)
    ensures
        r == is_blank(s@),
{
    let n: usize = s.unicode_len();
    let mut i: usize = 0;
    while i < n
        invariant
            n == s@.len(),
            i <= n,
            forall|k: int| 0 <= k < i ==> is_unicode_whitespace(s@[k]),
        decreases n - i,
    {
        if !char_is_whitespace(s.get_char(i)) {
            return false;
        }
        i = i + 1;
    }
    true
}

/// Relies on `String::push`: appends exactly the given character.
#[verifier::external_body]
fn push_char(s: &mut String, c: char)
    ensures
        final(s)@ == old(s)@.push(c),
{
    s.push(c);
}

/// Relies on `String::pop`: removes exactly the last character, if any.
#[verifier::external_body]
fn pop_char(s: &mut String)
    ensures
        final(s)@ == if old(s)@.len() == 0 {
            old(s)@
        } else {
            old(s)@.drop_last()
        },
{
    s.pop();
}

} // verus!
