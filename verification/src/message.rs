//! The application payload exchanged under the `/mesh-ai/1.0.0` protocol.

use vstd::prelude::*;
use vstd::string::StringExecFns;

verus! {

/// The text of the protocol identifier that tags every prompt stream.
pub open spec fn protocol_id_text() -> Seq<char> {
    "/mesh-ai/1.0.0"@
}

/// The protocol identifier under which prompts and responses travel.
pub fn protocol_id() -> (id: &'static str)
    ensures
        id@ == protocol_id_text(),
{
    "/mesh-ai/1.0.0"
}

/// A prompt sent to a remote node.
#[derive(Debug, Clone, PartialEq, Eq)]
pub struct PromptRequest {
    pub prompt: String,
}

/// The reply to a [`PromptRequest`].
#[derive(Debug, Clone, PartialEq, Eq)]
pub struct PromptResponse {
    pub response: String,
}

impl View for PromptRequest {
    type V = Seq<char>;

    open spec fn view(&self) -> Seq<char> {
        self.prompt@
    }
}

impl View for PromptResponse {
    type V = Seq<char>;

    open spec fn view(&self) -> Seq<char> {
        self.response@
    }
}

impl PromptRequest {
    /// A request that carries `prompt`.
    pub fn new(prompt: &str) -> (request: PromptRequest)
        ensures
            request@ == prompt@,
    {
        PromptRequest { prompt: String::from_str(prompt) }
    }

    /// A second request with the same prompt.
    pub fn duplicate(&self) -> (copy: PromptRequest)
        ensures
            copy@ == self@,
    {
        PromptRequest { prompt: self.prompt.clone() }
    }
}

impl PromptResponse {
    /// A response that carries `response`.
    pub fn new(response: &str) -> (reply: PromptResponse)
        ensures
            reply@ == response@,
    {
        PromptResponse { response: String::from_str(response) }
    }

    /// A second response with the same text.
    pub fn duplicate(&self) -> (copy: PromptResponse)
        ensures
            copy@ == self@,
    {
        PromptResponse { response: self.response.clone() }
    }
}

} // verus!
