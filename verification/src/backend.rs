//! The text-generation backend, seen from the node: what is sent to it and
//! what its answers mean.
//!
//! The HTTP call itself happens outside. This module writes the body of the
//! request, reads the reply, and turns every outcome into the response that
//! the remote peer receives: a failing backend is reported in the response
//! text, never by dropping the exchange.

use vstd::prelude::*;
use vstd::string::StringExecFns;

use crate::message::PromptResponse;

verus! {

/// Why the backend gave no text.
#[derive(Debug, Clone, Copy, PartialEq, Eq, Structural)]
pub enum BackendError {
    /// The service answered with a status outside 200 to 299.
    Status(u16),
    /// The body of the answer is not a JSON document.
    MalformedBody,
    /// The service could not be reached.
    Unreachable,
}

/// Where the service listens.
pub fn endpoint() -> (url: &'static str)
    ensures
        url@ == "http://localhost:11434/api/generate"@,
{
    "http://localhost:11434/api/generate"
}

/// The model that every request selects.
pub fn model() -> (name: &'static str)
    ensures
        name@ == "deepseek-coder:1.3b"@,
{
    "deepseek-coder:1.3b"
}

/// The JSON string literal for `value`, quotes and escapes included.
pub uninterp spec fn json_string(value: Seq<char>) -> Seq<char>;

/// Writes `value` as a JSON string literal with `serde_json::to_string`.
///
/// Trusted: the result is a function of the value alone.
#[verifier::external_body]
fn json_string_literal(value: &str) -> (literal: String)
    ensures
        literal@ == json_string(value@),
{
    serde_json::to_string(value).unwrap_or_default()
}

/// The body of a generation request: one JSON object that selects the model,
/// carries the prompt and asks for a single, unstreamed answer.
pub open spec fn request_body_text(model: Seq<char>, prompt: Seq<char>) -> Seq<char> {
    "{\"model\":"@ + json_string(model) + ",\"prompt\":"@ + json_string(prompt)
        + ",\"stream\":false}"@
}

/// Writes the body of the request that asks `model` to answer `prompt`.
pub fn request_body(model: &str, prompt: &str) -> (body: String)
    ensures
        body@ == request_body_text(model@, prompt@),
{
    let mut body = String::from_str("{\"model\":");
    let model_literal = json_string_literal(model);
    body.append(model_literal.as_str());
    body.append(",\"prompt\":");
    let prompt_literal = json_string_literal(prompt);
    body.append(prompt_literal.as_str());
    body.append(",\"stream\":false}");
    body
}

/// What a JSON document holds under `field`, read as text: `None` where
/// `body` is not a JSON document, `Some(None)` where the document holds no
/// string there.
pub uninterp spec fn json_text_field(body: Seq<u8>, field: Seq<char>) -> Option<Option<Seq<char>>>;

/// The views of what `read_text_field` returns.
pub open spec fn field_view(field: Option<Option<String>>) -> Option<Option<Seq<char>>> {
    match field {
        None => None,
        Some(None) => Some(None),
        Some(Some(text)) => Some(Some(text@)),
    }
}

/// Parses `body` with `serde_json::from_slice` into a `serde_json::Value`,
/// indexes the value with `field` and reads the entry with `Value::as_str`.
///
/// Trusted: the result is a function of the body and the field name alone.
#[verifier::external_body]
fn read_text_field(body: &[u8], field: &str) -> (found: Option<Option<String>>)
    ensures
        field_view(found) == json_text_field(body@, field@),
{
    let document = serde_json::from_slice::<serde_json::Value>(body).ok();
    document.map(|value| value[field].as_str().map(|text| text.to_string()))
}

/// Whether an HTTP status reports success.
pub open spec fn is_success(status: u16) -> bool {
    200 <= status < 300
}

/// What a reply means, given its status and what its body holds under
/// `response`.
pub open spec fn reply_outcome(status: u16, field: Option<Option<Seq<char>>>) -> Result<
    Seq<char>,
    BackendError,
> {
    if !is_success(status) {
        Err(BackendError::Status(status))
    } else {
        match field {
            None => Err(BackendError::MalformedBody),
            Some(None) => Ok("No response"@),
            Some(Some(text)) => Ok(text),
        }
    }
}

/// The view of an outcome.
pub open spec fn outcome_view(outcome: Result<String, BackendError>) -> Result<
    Seq<char>,
    BackendError,
> {
    match outcome {
        Ok(text) => Ok(text@),
        Err(e) => Err(e),
    }
}

/// Decides what a reply means once its body has been read: a status outside
/// 200 to 299 is an error whatever the body holds; a body that is no JSON
/// document is malformed; a document without a text under `response` stands
/// for the text `No response`.
pub fn outcome_of(status: u16, field: Option<Option<String>>) -> (outcome: Result<
    String,
    BackendError,
>)
    ensures
        outcome_view(outcome) == reply_outcome(status, field_view(field)),
{
    if status < 200 || status >= 300 {
        return Err(BackendError::Status(status));
    }
    match field {
        None => Err(BackendError::MalformedBody),
        Some(None) => Ok(String::from_str("No response")),
        Some(Some(text)) => Ok(text),
    }
}

/// Reads the reply of the backend: its status and the bytes of its body.
pub fn interpret_reply(status: u16, body: &[u8]) -> (outcome: Result<String, BackendError>)
    ensures
        outcome_view(outcome) == reply_outcome(status, json_text_field(body@, "response"@)),
{
    if status < 200 || status >= 300 {
        return Err(BackendError::Status(status));
    }
    let field = read_text_field(body, "response");
    outcome_of(status, field)
}

/// The status line for a status code from 100 to 999: the code and its
/// canonical reason.
pub uninterp spec fn status_line(status: u16) -> Option<Seq<char>>;

/// Makes an `http::StatusCode` of `status` with `StatusCode::from_u16` and
/// writes it with its `Display`.
///
/// Trusted: the result is a function of the code alone, and there is one
/// exactly for the codes from 100 to 999, which are those that
/// `StatusCode::from_u16` takes.
#[verifier::external_body]
fn status_text(status: u16) -> (line: Option<String>)
    ensures
        line is Some <==> 100 <= status <= 999,
        line matches Some(text) ==> status_line(status) == Some(text@),
{
    reqwest::StatusCode::from_u16(status).ok().map(|code| code.to_string())
}

/// What is said about an error, given the status line of its code.
pub open spec fn error_text(error: BackendError, line: Option<Seq<char>>) -> Seq<char> {
    match error {
        BackendError::Status(_) => match line {
            Some(text) => text,
            None => "unknown status"@,
        },
        BackendError::MalformedBody => "malformed response body"@,
        BackendError::Unreachable => "backend unreachable"@,
    }
}

/// The text of the response that answers a prompt, given the status line of
/// an error's code: the generated text, or a message that names the error.
pub open spec fn response_text(
    outcome: Result<Seq<char>, BackendError>,
    line: Option<Seq<char>>,
) -> Seq<char> {
    match outcome {
        Ok(text) => text,
        Err(error) => "Error calling Ollama: "@ + error_text(error, line),
    }
}

/// The status line that concerns an outcome: that of the status of a
/// failed call, where the status is one from 100 to 999.
pub open spec fn line_for(outcome: Result<Seq<char>, BackendError>) -> Option<Seq<char>> {
    match outcome {
        Err(BackendError::Status(code)) => if 100 <= code <= 999 {
            status_line(code)
        } else {
            None
        },
        _ => None,
    }
}

/// Builds the response for an outcome whose status line, if it has one, is
/// already at hand.
pub fn response_with_line(outcome: Result<String, BackendError>, line: Option<String>) -> (response:
    PromptResponse)
    ensures
        response@ == response_text(
            outcome_view(outcome),
            match line {
                Some(text) => Some(text@),
                None => None,
            },
        ),
{
    match outcome {
        Ok(text) => PromptResponse { response: text },
        Err(error) => {
            let mut message = String::from_str("Error calling Ollama: ");
            match error {
                BackendError::Status(_) => match line {
                    Some(text) => {
                        message.append(text.as_str());
                    },
                    None => {
                        message.append("unknown status");
                    },
                },
                BackendError::MalformedBody => {
                    message.append("malformed response body");
                },
                BackendError::Unreachable => {
                    message.append("backend unreachable");
                },
            }
            PromptResponse { response: message }
        },
    }
}

/// The response that the remote peer receives for an outcome of the backend
/// call. There always is one.
pub fn response_for(outcome: Result<String, BackendError>) -> (response: PromptResponse)
    ensures
        response@ == response_text(outcome_view(outcome), line_for(outcome_view(outcome))),
{
    let line = match &outcome {
        Err(BackendError::Status(code)) => status_text(*code),
        _ => None,
    };
    response_with_line(outcome, line)
}

} // verus!
