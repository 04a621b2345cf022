//! What conversations and sessions hand to the C API, and what they make of
//! its answers.
use vstd::prelude::*;
use vstd::string::StringExecFns;

use crate::engine::optional_view;
use crate::error::{c_string_bytes, check_c_string, failure_message, nul_error_message, nul_position, Error, Failure, Result};
use crate::json::{json_encode_string, json_string_literal, json_string_value, law_json_string_round_trip, stripped};
use crate::response::Response;
use crate::text::{chars_of, string_of};

verus! {

/// `{"role":"user","content":`, which a plain-text user message starts with.
pub open spec fn user_message_prefix() -> Seq<char> {
    seq![
        '{', '"', 'r', 'o', 'l', 'e', '"', ':', '"', 'u', 's', 'e', 'r', '"', ',', '"', 'c', 'o',
        'n', 't', 'e', 'n', 't', '"', ':',
    ]
}

/// The JSON message for the plain-text user message `message`.
pub open spec fn user_message(message: Seq<char>) -> Seq<char> {
    user_message_prefix() + json_string_literal(message) + seq!['}']
}

/// The content of a user message stands for the message itself: after the
/// `{"role":"user","content":` prefix and before the closing `}` stands a JSON
/// string literal whose value is the message, whatever it holds.
pub proof fn law_user_message_round_trip(m: Seq<char>)
    ensures
        user_message(m).len() >= user_message_prefix().len() + 1,
        user_message(m).take(user_message_prefix().len() as int) == user_message_prefix(),
        user_message(m).last() == '}',
        json_string_value(
            user_message(m).subrange(user_message_prefix().len() as int, user_message(m).len() - 1),
        ) == Some(m),
{
    let u = user_message(m);
    let n = user_message_prefix().len() as int;
    assert(u.take(n) =~= user_message_prefix());
    assert(u.subrange(n, u.len() - 1) =~= json_string_literal(m));
    law_json_string_round_trip(m);
}

/// Wraps a plain-text user message as `{"role":"user","content":"..."}`,
/// the message encoded as a JSON string.
pub fn user_message_json(message: &str) -> (res: String)
    ensures
        res@ == user_message(message@),
        res@.len() >= user_message_prefix().len() + 1,
        res@.take(user_message_prefix().len() as int) == user_message_prefix(),
        res@.last() == '}',
        json_string_value(res@.subrange(user_message_prefix().len() as int, res@.len() - 1))
            == Some(message@),
{
    proof {
        law_user_message_round_trip(message@);
    }
    let mut out = vec![
        '{', '"', 'r', 'o', 'l', 'e', '"', ':', '"', 'u', 's', 'e', 'r', '"', ',', '"', 'c', 'o',
        'n', 't', 'e', 'n', 't', '"', ':',
    ];
    assert(out@ =~= user_message_prefix());
    let escaped = json_encode_string(message);
    let escaped_chars = chars_of(escaped.as_str());
    let mut i: usize = 0;
    while i < escaped_chars.len()
        invariant
            i <= escaped_chars.len(),
            escaped_chars@ == json_string_literal(message@),
            out@ == user_message_prefix() + escaped_chars@.take(i as int),
        decreases escaped_chars.len() - i,
    {
        out.push(escaped_chars[i]);
        assert(escaped_chars@.take(i + 1) == escaped_chars@.take(i as int).push(
            escaped_chars@[i as int],
        ));
        i = i + 1;
    }
    assert(escaped_chars@.take(escaped_chars.len() as int) == escaped_chars@);
    out.push('}');
    string_of(&out)
}

/// The bytes that a JSON message is sent to the C API as: the message's
/// UTF-8 encoding unchanged, NUL-terminated. Raw JSON messages (tool results,
/// multimodal input) pass through this as they are; a plain-text message is
/// first wrapped by `user_message_json`.
pub fn outgoing_message(json: &str) -> (res: Result<Vec<u8>>)
    ensures
        match nul_position(json@) {
            None => res matches Ok(b) && b@ == vstd::utf8::encode_utf8(json@).push(0u8),
            Some(pos) => res matches Err(e) && e@ == nul_error_message("message json"@, pos as nat),
        },
{
    c_string_bytes(json, "message json")
}

/// What a conversation is created with, as the C API takes it.
#[derive(Debug, Clone)]
pub struct ConversationSetup {
    /// The plain-text system prompt, if any.
    pub system_message: Option<String>,
    /// The JSON array of tool declarations, if any.
    pub tools_json: Option<String>,
    /// Whether decoding is constrained to the declared tools' call format.
    pub constrained_decoding: bool,
}

/// The setup of a conversation with an optional system message and optional
/// tool declarations. Constrained decoding is on exactly where tools are
/// declared. It fails where either string holds a NUL byte, which C cannot be
/// given; the system message is checked first.
pub fn conversation_setup(system_message: Option<&str>, tools_json: Option<&str>) -> (res: Result<
    ConversationSetup,
>)
    ensures
        match (system_message, tools_json) {
            (Some(s), _) if nul_position(s@) is Some => res matches Err(e) && e@
                == nul_error_message("system_message"@, nul_position(s@)->0 as nat),
            (_, Some(t)) if nul_position(t@) is Some => res matches Err(e) && e@
                == nul_error_message("tools_json"@, nul_position(t@)->0 as nat),
            _ => res matches Ok(setup) && {
                &&& optional_view(setup.system_message) == match system_message {
                    Some(s) => Some(s@),
                    None => None::<Seq<char>>,
                }
                &&& optional_view(setup.tools_json) == match tools_json {
                    Some(t) => Some(t@),
                    None => None::<Seq<char>>,
                }
                &&& setup.constrained_decoding == tools_json is Some
            },
        },
{
    let system = match system_message {
        Some(s) => {
            check_c_string(s, "system_message")?;
            Some(String::from_str(s))
        },
        None => None,
    };
    let tools = match tools_json {
        Some(t) => {
            check_c_string(t, "tools_json")?;
            Some(String::from_str(t))
        },
        None => None,
    };
    let constrained = tools.is_some();
    Ok(ConversationSetup { system_message: system, tools_json: tools, constrained_decoding: constrained })
}

/// What a C call that answers with text gave back.
#[derive(Debug, Clone)]
pub enum CallOutcome {
    /// The call returned no result at all.
    NoResult,
    /// The call returned a result without text.
    NoText,
    /// The call returned this text.
    Text(String),
}

/// The response to a sent message, from what the C API answered.
pub fn conversation_reply(outcome: CallOutcome) -> (res: Result<Response>)
    ensures
        match outcome {
            CallOutcome::NoResult => res matches Err(e) && e@ == failure_message(
                Failure::SendMessage,
            ),
            CallOutcome::NoText => res matches Err(e) && e@ == failure_message(
                Failure::NoConversationResponse,
            ),
            CallOutcome::Text(t) => res matches Ok(r) && r@ == stripped(t@),
        },
{
    match outcome {
        CallOutcome::NoResult => Err(Error::from_failure(Failure::SendMessage)),
        CallOutcome::NoText => Err(Error::from_failure(Failure::NoConversationResponse)),
        CallOutcome::Text(t) => Ok(Response::new(t)),
    }
}

/// The text a session generated, from what the C API answered.
pub fn generated_text(outcome: CallOutcome) -> (res: Result<String>)
    ensures
        match outcome {
            CallOutcome::NoResult => res matches Err(e) && e@ == failure_message(
                Failure::GenerateContent,
            ),
            CallOutcome::NoText => res matches Err(e) && e@ == failure_message(
                Failure::NoResponseGenerated,
            ),
            CallOutcome::Text(t) => res matches Ok(r) && r@ == t@,
        },
{
    match outcome {
        CallOutcome::NoResult => Err(Error::from_failure(Failure::GenerateContent)),
        CallOutcome::NoText => Err(Error::from_failure(Failure::NoResponseGenerated)),
        CallOutcome::Text(t) => Ok(t),
    }
}

}
