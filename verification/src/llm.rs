//! The little the core knows of the model-serving side: the local inference
//! endpoint's base address, and the shape of a chat request handed over by
//! the HTTP collaborator.

use vstd::prelude::*;

verus! {

/// A chat request as the HTTP collaborator hands it over.
pub struct ChatRequest {
    pub message: String,
    pub sender: String,
    pub filename: Option<String>,
}

/// The local inference endpoint's base address. The local model is always
/// reached over loopback.
pub fn local_ollama_base() -> (r: String)
    ensures
        r@ == "http://127.0.0.1:11434"@,
{
    let r: String = String::from_str("http://127.0.0.1:11434");
    r
}

} // verus!
