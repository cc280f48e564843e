//! The requests and answers of the text-embedding operations. The
//! embedding itself is made by a remote service; the engine only stores
//! and searches what comes back.

use vstd::prelude::*;

verus! {

/// A request to the embedding service.
#[derive(Debug, Clone)]
pub struct EmbeddingRequest {
    pub input: String,
    pub model: String,
}

/// What the embedding service charged for a request.
#[derive(Debug, Clone)]
pub struct Usage {
    pub prompt_tokens: usize,
    pub total_tokens: usize,
}

/// A request for the embedding of a text.
#[derive(Debug, Clone)]
pub struct GenerateEmbeddingRequest {
    pub text: String,
    pub model: String,
}

/// The answer to a text that was embedded and stored.
#[derive(Debug, Clone)]
pub struct EmbedAndInsertResponse {
    pub status: String,
    pub id: String,
    pub dimension: usize,
}

/// A search by text: the query and the number of results wanted.
#[derive(Debug, Clone)]
pub struct SemanticSearchRequest {
    pub query: String,
    pub k: usize,
}

/// The model that a request uses where it names none.
pub fn default_model() -> (model: String)
    ensures
        model@ == "text-embedding-3-small"@,
{
    "text-embedding-3-small".to_owned()
}

impl GenerateEmbeddingRequest {
    /// A request for the embedding of `text`, by the named model or, where
    /// none is named, by the default model.
    pub fn new(text: String, model: Option<String>) -> (request: GenerateEmbeddingRequest)
        ensures
            request.text == text,
            request.model@ == (match model {
                Some(m) => m@,
                None => "text-embedding-3-small"@,
            }),
    {
        let model = match model {
            Some(m) => m,
            None => default_model(),
        };
        GenerateEmbeddingRequest { text, model }
    }
}

impl EmbedAndInsertResponse {
    /// The answer to a text that was embedded and stored under `id`.
    pub fn stored(id: String, dimension: usize) -> (response: EmbedAndInsertResponse)
        ensures
            response.status@ == "ok"@,
            response.id == id,
            response.dimension == dimension,
    {
        EmbedAndInsertResponse { status: "ok".to_owned(), id, dimension }
    }
}

} // verus!
