//! A reply of the model, as the JSON that the C API returns.
use vstd::prelude::*;

use crate::json::{
    extract_json_text_field, extracted_text, strip_gemma_quote_tokens, stripped,
    text_scan_overruns,
};
use crate::text::{chars_of, contains_chars, contains_seq};

verus! {

/// A response from the model, which may hold text, tool calls, or both.
///
/// It keeps the JSON of the reply, cleaned of the model's quoting tokens;
/// its accessors read fields of it without a JSON library.
#[derive(Debug, Clone)]
pub struct Response {
    json: String,
}

impl View for Response {
    type V = Seq<char>;

    /// The response's JSON.
    closed spec fn view(&self) -> Seq<char> {
        self.json@
    }
}

/// `"tool_calls"`, the key whose presence marks a tool call.
pub open spec fn tool_calls_key() -> Seq<char> {
    seq!['"', 't', 'o', 'o', 'l', '_', 'c', 'a', 'l', 'l', 's', '"']
}

impl Response {
    /// A response for the JSON that the C API returned, with the model's
    /// `<|"|>` quoting tokens stripped from it so that callers get plain JSON.
    pub fn new(raw_json: String) -> (res: Response)
        ensures
            res@ == stripped(raw_json@),
    {
        Response { json: strip_gemma_quote_tokens(raw_json.as_str()) }
    }

    /// The response's JSON, cleaned of the model's quoting tokens.
    pub fn json(&self) -> (res: &str)
        ensures
            res@ == self@,
    {
        self.json.as_str()
    }

    /// Whether the text of the response runs into a trailing backslash, so
    /// that `text` cannot read it.
    pub fn text_overruns(&self) -> (res: bool)
        ensures
            res == text_scan_overruns(self@),
    {
        crate::json::text_field_overruns(self.json.as_str())
    }

    /// The model's text reply, if any: the `"text"` value of the last text
    /// item; `None` where it is empty or missing, as for a pure tool call.
    pub fn text(&self) -> (res: Option<String>)
        requires
            !text_scan_overruns(self@),
        ensures
            match res {
                Some(t) => t@ == extracted_text(self@) && t@.len() > 0,
                None => extracted_text(self@).len() == 0,
            },
    {
        let text = extract_json_text_field(self.json.as_str());
        if text.as_str().is_empty() {
            None
        } else {
            Some(text)
        }
    }

    /// Whether the response holds one or more tool calls: whether its JSON
    /// holds the key `"tool_calls"`.
    pub fn has_tool_calls(&self) -> (res: bool)
        ensures
            res == contains_seq(self@, tool_calls_key()),
    {
        let json = chars_of(self.json.as_str());
        let key = vec!['"', 't', 'o', 'o', 'l', '_', 'c', 'a', 'l', 'l', 's', '"'];
        assert(key@ =~= tool_calls_key());
        contains_chars(&json, &key)
    }

    /// The response as it is displayed: its text where it has one, else its JSON.
    pub fn to_string(&self) -> (res: String)
        requires
            !text_scan_overruns(self@),
        ensures
            res@ == if extracted_text(self@).len() > 0 {
                extracted_text(self@)
            } else {
                self@
            },
    {
        match self.text() {
            Some(t) => t,
            None => self.json.clone(),
        }
    }
}

}
