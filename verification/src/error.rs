//! The library's error type, the failures of the engine's C API that it
//! reports, and the check that a string can be handed to C.
use vstd::prelude::*;
use vstd::string::StringExecFns;
use vstd::string::StringSliceAdditionalSpecFns;

use crate::text::string_of;

verus! {

/// An error of a LiteRT-LM operation: a message for the user.
#[derive(Debug, Clone)]
pub struct Error {
    message: String,
}

/// `Result` with the library's error.
pub type Result<T> = core::result::Result<T, Error>;

impl View for Error {
    type V = Seq<char>;

    /// The error's message.
    closed spec fn view(&self) -> Seq<char> {
        self.message@
    }
}

/// `LiteRT-LM: `, which the displayed form of every error starts with.
pub open spec fn error_prefix() -> Seq<char> {
    seq!['L', 'i', 't', 'e', 'R', 'T', '-', 'L', 'M', ':', ' ']
}

impl Error {
    /// An error with the given message.
    pub fn new(message: &str) -> (res: Error)
        ensures
            res@ == message@,
    {
        Error { message: String::from_str(message) }
    }

    /// An error whose message is `message`.
    pub fn from_string(message: String) -> (res: Error)
        ensures
            res@ == message@,
    {
        Error { message }
    }

    /// The error's message.
    pub fn message(&self) -> (res: &str)
        ensures
            res@ == self@,
    {
        self.message.as_str()
    }

    /// The error as it is displayed: `LiteRT-LM: ` and the message.
    pub fn to_string(&self) -> (res: String)
        ensures
            res@ == error_prefix() + self@,
    {
        let prefix = vec!['L', 'i', 't', 'e', 'R', 'T', '-', 'L', 'M', ':', ' '];
        assert(prefix@ =~= error_prefix());
        let mut res = string_of(&prefix);
        res.append(self.message.as_str());
        res
    }

    /// The error for a failed call of the engine's C API.
    pub fn from_failure(failure: Failure) -> (res: Error)
        ensures
            res@ == failure_message(failure),
    {
        Error::new(failure.message())
    }
}

/// A call of the engine's C API that returned nothing.
#[derive(Debug, Clone, Copy, PartialEq, Eq)]
pub enum Failure {
    /// The engine settings could not be created.
    EngineSettings,
    /// The engine could not be created.
    Engine,
    /// A session could not be created.
    Session,
    /// A session generated no content.
    GenerateContent,
    /// Generated content held no text.
    NoResponseGenerated,
    /// A session had no benchmark info.
    BenchmarkInfo,
    /// The conversation config could not be created.
    ConversationConfig,
    /// A conversation could not be created.
    Conversation,
    /// A message could not be sent.
    SendMessage,
    /// The reply to a message held no JSON.
    NoConversationResponse,
}

/// The message of the error that reports `failure`.
pub open spec fn failure_message(failure: Failure) -> Seq<char> {
    match failure {
        Failure::EngineSettings => "Failed to create engine settings"@,
        Failure::Engine => "Failed to create engine"@,
        Failure::Session => "Failed to create session"@,
        Failure::GenerateContent => "Failed to generate content"@,
        Failure::NoResponseGenerated => "No response generated"@,
        Failure::BenchmarkInfo => "Failed to get benchmark info"@,
        Failure::ConversationConfig => "Failed to create conversation config"@,
        Failure::Conversation => "Failed to create conversation"@,
        Failure::SendMessage => "Failed to send message"@,
        Failure::NoConversationResponse => "No response from conversation"@,
    }
}

impl Failure {
    /// The message that reports this failure.
    pub fn message(&self) -> (res: &'static str)
        ensures
            res@ == failure_message(*self),
    {
        match self {
            Failure::EngineSettings => "Failed to create engine settings",
            Failure::Engine => "Failed to create engine",
            Failure::Session => "Failed to create session",
            Failure::GenerateContent => "Failed to generate content",
            Failure::NoResponseGenerated => "No response generated",
            Failure::BenchmarkInfo => "Failed to get benchmark info",
            Failure::ConversationConfig => "Failed to create conversation config",
            Failure::Conversation => "Failed to create conversation",
            Failure::SendMessage => "Failed to send message",
            Failure::NoConversationResponse => "No response from conversation",
        }
    }
}

/// The outcome of a C call that creates an object: an error reporting
/// `failure` where it returned nothing (`is_null`), success otherwise.
pub fn created(is_null: bool, failure: Failure) -> (res: Result<()>)
    ensures
        is_null ==> (res matches Err(e) && e@ == failure_message(failure)),
        !is_null ==> res is Ok,
{
    if is_null {
        Err(Error::from_failure(failure))
    } else {
        Ok(())
    }
}

// ---------------------------------------------------------------------------
// Strings for C: no NUL byte may occur in them
// ---------------------------------------------------------------------------

/// The decimal digits of `n`, most significant first.
pub open spec fn decimal(n: nat) -> Seq<char>
    decreases n,
{
    if n < 10 {
        seq![digit_char(n)]
    } else {
        decimal(n / 10).push(digit_char(n % 10))
    }
}

/// The decimal digit for `d < 10`.
pub open spec fn digit_char(d: nat) -> char {
    seq!['0', '1', '2', '3', '4', '5', '6', '7', '8', '9'][d as int]
}

fn digit(d: usize) -> (res: char)
    requires
        d < 10,
    ensures
        res == digit_char(d as nat),
{
    if d == 0 {
        '0'
    } else if d == 1 {
        '1'
    } else if d == 2 {
        '2'
    } else if d == 3 {
        '3'
    } else if d == 4 {
        '4'
    } else if d == 5 {
        '5'
    } else if d == 6 {
        '6'
    } else if d == 7 {
        '7'
    } else if d == 8 {
        '8'
    } else {
        '9'
    }
}

/// The decimal digits of `n`.
pub fn decimal_chars(n: usize) -> (res: Vec<char>)
    ensures
        res@ == decimal(n as nat),
    decreases n,
{
    if n < 10 {
        vec![digit(n)]
    } else {
        let mut res = decimal_chars(n / 10);
        res.push(digit(n % 10));
        res
    }
}

/// The index of the first zero byte of `b`, if any.
pub open spec fn first_nul(b: Seq<u8>) -> Option<int> {
    if exists|i: int| 0 <= i < b.len() && b[i] == 0 {
        Some(choose|i: int| 0 <= i < b.len() && b[i] == 0 && forall|j: int| 0 <= j < i ==> b[j] != 0)
    } else {
        None
    }
}

/// The position of the first NUL byte of the UTF-8 encoding of `s`, if any.
pub open spec fn nul_position(s: Seq<char>) -> Option<int> {
    first_nul(vstd::utf8::encode_utf8(s))
}

/// The message of the error for a string with a NUL byte at byte `pos`,
/// given to C as `label`.
pub open spec fn nul_error_message(label: Seq<char>, pos: nat) -> Seq<char> {
    "Invalid "@ + label + ": nul byte found in provided data at position: "@ + decimal(pos)
}

/// Checks that `s` can be handed to C as a NUL-terminated string, that is,
/// that no byte of it is zero. The error names `label` and the first zero
/// byte's position.
pub fn check_c_string(s: &str, label: &str) -> (res: Result<()>)
    ensures
        match nul_position(s@) {
            None => res is Ok,
            Some(pos) => res matches Err(e) && e@ == nul_error_message(label@, pos as nat),
        },
{
    let bytes = s.as_bytes();
    let mut i: usize = 0;
    while i < bytes.len()
        invariant
            bytes@ == s.spec_bytes(),
            i <= bytes.len(),
            forall|j: int| 0 <= j < i ==> bytes@[j] != 0,
        decreases bytes.len() - i,
    {
        if bytes[i] == 0 {
            let ghost b = bytes@;
            assert(exists|k: int| 0 <= k < b.len() && b[k] == 0);
            let ghost k = choose|k: int| 0 <= k < b.len() && b[k] == 0 && forall|j: int| 0 <= j < k ==> b[j] != 0;
            assert(k == i) by {
                if k < i {
                } else if k > i {
                }
            }
            let mut message = String::from_str("Invalid ");
            message.append(label);
            message.append(": nul byte found in provided data at position: ");
            let digits = decimal_chars(i);
            let position = string_of(&digits);
            message.append(position.as_str());
            return Err(Error::from_string(message));
        }
        i = i + 1;
    }
    Ok(())
}


/// The bytes of `s` as a NUL-terminated C string: its UTF-8 encoding
/// unchanged, then one zero byte. It fails as `check_c_string` does.
pub fn c_string_bytes(s: &str, label: &str) -> (res: Result<Vec<u8>>)
    ensures
        match nul_position(s@) {
            None => res matches Ok(b) && b@ == vstd::utf8::encode_utf8(s@).push(0u8),
            Some(pos) => res matches Err(e) && e@ == nul_error_message(label@, pos as nat),
        },
{
    check_c_string(s, label)?;
    let bytes = s.as_bytes();
    let mut out: Vec<u8> = Vec::new();
    for i in 0..bytes.len()
        invariant
            bytes@ == s.spec_bytes(),
            out@ == bytes@.take(i as int),
    {
        out.push(bytes[i]);
        assert(bytes@.take(i + 1) == bytes@.take(i as int).push(bytes@[i as int]));
    }
    assert(bytes@.take(bytes.len() as int) == bytes@);
    out.push(0u8);
    Ok(out)
}

}
