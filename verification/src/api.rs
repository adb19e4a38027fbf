//! The messages of the local HTTP API.

use vstd::prelude::*;

verus! {

broadcast use vstd::string::group_string_axioms;

/// A chat request.
#[derive(Debug, Clone, PartialEq)]
pub struct ChatRequest {
    pub prompt: String,
    pub model: Option<String>,
}

/// A chat response.
#[derive(Debug, Clone, PartialEq)]
pub struct ChatResponse {
    pub response: String,
}

/// The response the server gives until inference is wired in: it echoes
/// the prompt.
pub fn mock_chat_response(request: &ChatRequest) -> (r: ChatResponse)
    ensures
        r.response@ == "(Mock) Mentat received prompt: "@ + request.prompt@,
{
    let mut response = "(Mock) Mentat received prompt: ".to_owned();
    response.append(request.prompt.as_str());
    ChatResponse { response }
}

} // verus!
