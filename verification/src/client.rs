//! Vendor adapter bindings: which client a credential's vendor kind selects,
//! and the error value an attempt hands back.
//!
//! The clients here carry the configuration an adapter needs (the API key,
//! and for OpenRouter the model). Issuing the network call itself is vendor
//! wire-format work that lives with the embedding application; the library
//! decides, through [`bind_client`], which adapter a credential is dispatched
//! to, and consumes the outcome through the retry coordinator.

use vstd::prelude::*;

verus! {

/// The free-text error an attempt against a vendor ends in. All attempt
/// failures — transport failure, a non-success status with a vendor message,
/// a response-shape mismatch, or a credential of a vendor no adapter knows —
/// are treated identically by the retry loop, so one message-carrying type
/// serves them all.
#[derive(Debug, PartialEq, Eq)]
pub struct LLMError(pub String);

impl Clone for LLMError {
    /// A copy that keeps the message.
    fn clone(&self) -> (r: Self)
        ensures
            r == *self,
    {
        LLMError(self.0.clone())
    }
}

impl From<String> for LLMError {
    fn from(s: String) -> (r: Self)
        ensures
            r == LLMError(s),
    {
        LLMError(s)
    }
}

impl vstd::std_specs::convert::FromSpecImpl<String> for LLMError {
    open spec fn obeys_from_spec() -> bool {
        true
    }

    open spec fn from_spec(s: String) -> Self {
        LLMError(s)
    }
}

/// What one attempt against a vendor produced: the response text, or the
/// classified error.
pub struct AttemptResult {
    pub result: Result<String, LLMError>,
}

/// Adapter configuration for the OpenRouter chat-completion API: the bound
/// credential secret and the model to request.
pub struct OpenRouterClient {
    api_key: String,
    model: String,
}

impl OpenRouterClient {
    /// The bound credential secret.
    pub closed spec fn spec_api_key(self) -> Seq<char> {
        self.api_key@
    }

    /// The model the adapter requests.
    pub closed spec fn spec_model(self) -> Seq<char> {
        self.model@
    }

    pub fn new(api_key: String, model: String) -> (r: Self)
        ensures
            r.spec_api_key() == api_key@,
            r.spec_model() == model@,
    {
        Self { api_key, model }
    }

    pub fn api_key(&self) -> (r: &String)
        ensures
            r@ == self.spec_api_key(),
    {
        &self.api_key
    }

    pub fn model(&self) -> (r: &String)
        ensures
            r@ == self.spec_model(),
    {
        &self.model
    }
}

/// Adapter configuration for the Gemini generate-content API: the bound
/// credential secret (the model is fixed by the adapter).
pub struct GeminiClient {
    api_key: String,
}

impl GeminiClient {
    /// The bound credential secret.
    pub closed spec fn spec_api_key(self) -> Seq<char> {
        self.api_key@
    }

    pub fn new(api_key: String) -> (r: Self)
        ensures
            r.spec_api_key() == api_key@,
    {
        Self { api_key }
    }

    pub fn api_key(&self) -> (r: &String)
        ensures
            r@ == self.spec_api_key(),
    {
        &self.api_key
    }
}

/// The adapter a credential is dispatched to, or the vendor kind nothing
/// matches. An unsupported kind is not a hard stop: the coordinator treats
/// it as one more failed attempt, so the credential rotates away.
pub enum BoundClient {
    OpenRouter(OpenRouterClient),
    Gemini(GeminiClient),
    Unsupported(String),
}

/// The dispatch decision: an `"openrouter"` credential binds an
/// [`OpenRouterClient`] with the given model, a `"gemini"` credential binds
/// a [`GeminiClient`], and every other vendor kind is handed back as
/// [`BoundClient::Unsupported`].
pub fn bind_client(token_type: &String, secret: &String, model: &String) -> (r: BoundClient)
    ensures
        token_type@ == "openrouter"@ ==> (r matches BoundClient::OpenRouter(c)
            && c.spec_api_key() == secret@ && c.spec_model() == model@),
        token_type@ == "gemini"@ ==> (r matches BoundClient::Gemini(c) && c.spec_api_key()
            == secret@),
        token_type@ != "openrouter"@ && token_type@ != "gemini"@ ==> (r
            matches BoundClient::Unsupported(k) && k@ == token_type@),
{
    proof {
        reveal_strlit("openrouter");
        reveal_strlit("gemini");
        assert("openrouter"@.len() == 10);
        assert("gemini"@.len() == 6);
        assert("openrouter"@ != "gemini"@);
    }
    if *token_type == "openrouter".to_owned() {
        BoundClient::OpenRouter(OpenRouterClient::new(secret.clone(), model.clone()))
    } else if *token_type == "gemini".to_owned() {
        BoundClient::Gemini(GeminiClient::new(secret.clone()))
    } else {
        BoundClient::Unsupported(token_type.clone())
    }
}

} // verus!
