//! # LiteRT-LM
//!
//! The verified core of a Rust interface to LiteRT-LM, Google's on-device
//! LLM runtime: the JSON that conversations send and read, the errors they
//! report, and the plans by which engines, sessions and conversations are
//! set up through the runtime's C API.

pub mod conversation;
pub mod engine;
pub mod error;
pub mod json;
pub mod response;
pub mod text;

pub use conversation::{
    conversation_reply, conversation_setup, generated_text, outgoing_message, user_message_json, CallOutcome,
    ConversationSetup,
};
pub use engine::{
    choose_backends, fallback_choice, settings_request, settings_updates, ActivationDataType, Backend,
    BackendChoice, EngineConfig, SettingsRequest, SettingsUpdate,
};
pub use error::{c_string_bytes, check_c_string, created, Error, Failure, Result};
pub use json::{extract_json_text_field, json_encode_string, strip_gemma_quote_tokens};
pub use response::Response;
