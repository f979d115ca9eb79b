//! Parsing lines of the agent CLI's `--output-format stream-json` output.
use vstd::prelude::*;

use crate::json::{json_error, json_parse_error, json_pointer_str, json_pointer_u64, json_str_at, json_u64_at};
use crate::spark::events::ChatEvent;
use crate::text::{chars_of, string_from_chars, trim, trim_chars};

verus! {

/// The string at `pointer`, or the empty string.
pub open spec fn str_or_empty(text: Seq<char>, pointer: Seq<char>) -> Seq<char> {
    match json_pointer_str(text, pointer) {
        Some(s) => s,
        None => Seq::empty(),
    }
}

/// A chat event as plain values: a tag, then the fields it carries (index,
/// and up to three strings).
pub open spec fn event_view(e: ChatEvent) -> (int, usize, Seq<char>, Seq<char>, Seq<char>) {
    match e {
        ChatEvent::MessageStart { id, role } => (0, 0, id@, role@, Seq::empty()),
        ChatEvent::TextDelta { index, text } => (1, index, text@, Seq::empty(), Seq::empty()),
        ChatEvent::ToolUseStart { id, name, input } => (2, 0, id@, name@, input@),
        ChatEvent::ToolResult { id, content } => (3, 0, id@, content@, Seq::empty()),
        ChatEvent::ContentBlockStop { index } => (4, index, Seq::empty(), Seq::empty(), Seq::empty()),
        ChatEvent::MessageStop => (5, 0, Seq::empty(), Seq::empty(), Seq::empty()),
        ChatEvent::Error { message } => (6, 0, message@, Seq::empty(), Seq::empty()),
    }
}

/// The event a line of stream-json output maps to, by its `type`:
/// `message_start` (with `id` and `role`), `content_block_delta` (with
/// `index` and `delta.text`, both required), `content_block_stop` (with
/// `index`, required), `message_stop`, and `error` (with `message`).
/// Blank lines, text that is not JSON, and other types map to none.
pub open spec fn line_event(line: Seq<char>) -> Option<(int, usize, Seq<char>, Seq<char>, Seq<char>)> {
    let t = trim(line);
    if t.len() == 0 || json_parse_error(t) is Some {
        None
    } else {
        match json_pointer_str(t, "/type"@) {
            None => None,
            Some(ty) => if ty == "message_start"@ {
                Some((0, 0usize, str_or_empty(t, "/id"@), str_or_empty(t, "/role"@), Seq::empty()))
            } else if ty == "content_block_delta"@ {
                match (json_pointer_u64(t, "/index"@), json_pointer_str(t, "/delta/text"@)) {
                    (Some(n), Some(text)) => Some((1, n as usize, text, Seq::empty(), Seq::empty())),
                    _ => None,
                }
            } else if ty == "content_block_stop"@ {
                match json_pointer_u64(t, "/index"@) {
                    Some(n) => Some((4, n as usize, Seq::empty(), Seq::empty(), Seq::empty())),
                    None => None,
                }
            } else if ty == "message_stop"@ {
                Some((5, 0usize, Seq::empty(), Seq::empty(), Seq::empty()))
            } else if ty == "error"@ {
                Some((6, 0usize, str_or_empty(t, "/message"@), Seq::empty(), Seq::empty()))
            } else {
                None
            },
        }
    }
}

fn str_field(text: &str, pointer: &str) -> (r: String)
    ensures
        r@ == str_or_empty(text@, pointer@),
{
    match json_str_at(text, pointer) {
        Some(s) => s,
        None => String::new(),
    }
}

/// Parse one line of the agent CLI's `--output-format stream-json` output into a
/// chat event; `None` for lines that map to no known event (see `line_event`).
pub fn parse_line(line: &str) -> (r: Option<ChatEvent>)
    ensures
        match r {
            Some(e) => line_event(line@) == Some(event_view(e)),
            None => line_event(line@) is None,
        },
{
    let cs = chars_of(line);
    let tc = trim_chars(&cs);
    if tc.len() == 0 {
        return None;
    }
    let owned_t = string_from_chars(tc.as_slice());
    let t = owned_t.as_str();
    if json_error(t).is_some() {
        return None;
    }
    let ty = match json_str_at(t, "/type") {
        Some(ty) => ty,
        None => {
            return None;
        },
    };
    let ty = ty.as_str();
    if crate::text::str_eq(ty, "message_start") {
        Some(ChatEvent::MessageStart { id: str_field(t, "/id"), role: str_field(t, "/role") })
    } else if crate::text::str_eq(ty, "content_block_delta") {
        match (json_u64_at(t, "/index"), json_str_at(t, "/delta/text")) {
            (Some(n), Some(text)) => Some(ChatEvent::TextDelta { index: n as usize, text }),
            _ => None,
        }
    } else if crate::text::str_eq(ty, "content_block_stop") {
        match json_u64_at(t, "/index") {
            Some(n) => Some(ChatEvent::ContentBlockStop { index: n as usize }),
            None => None,
        }
    } else if crate::text::str_eq(ty, "message_stop") {
        Some(ChatEvent::MessageStop)
    } else if crate::text::str_eq(ty, "error") {
        Some(ChatEvent::Error { message: str_field(t, "/message") })
    } else {
        None
    }
}

/// A `content_block_stop` line keeps its index: for a non-blank line whose JSON has
/// `type` `content_block_stop` and the number `n` at `/index`, the event
/// parsed from it (any result that `parse_line`'s contract allows) is
/// `ContentBlockStop` with index `n`.
pub proof fn lemma_block_stop_keeps_index(line: Seq<char>, n: u64, r: Option<ChatEvent>)
    requires
        trim(line).len() > 0,
        json_parse_error(trim(line)) is None,
        json_pointer_str(trim(line), "/type"@) == Some("content_block_stop"@),
        json_pointer_u64(trim(line), "/index"@) == Some(n),
        match r {
            Some(e) => line_event(line) == Some(event_view(e)),
            None => line_event(line) is None,
        },
    ensures
        r == Some(ChatEvent::ContentBlockStop { index: n as usize }),
{
    reveal_strlit("content_block_stop");
    reveal_strlit("message_start");
    reveal_strlit("content_block_delta");
    assert("content_block_stop"@.len() == 18);
    assert("message_start"@.len() == 13);
    assert("content_block_delta"@.len() == 19);
    match r {
        Some(e) => {
            assert(event_view(e) == (4int, n as usize, Seq::<char>::empty(), Seq::<char>::empty(), Seq::<char>::empty()));
            assert(e is ContentBlockStop);
            assert(e->ContentBlockStop_index == n as usize);
            assert(e == ChatEvent::ContentBlockStop { index: n as usize });
        },
        None => {},
    }
}

} // verus!
