//! The error type shared by the whole library, the HTTP status and code of
//! each error, and the sanitised body that clients receive.

use vstd::prelude::*;
use crate::text::{owned, push_str, u64_to_decimal, decimal};

verus! {

/// Unified error type.  Identifiers are UUIDs held as their 128-bit value.
#[derive(Clone, Debug, PartialEq, Eq)]
pub enum MnemoError {
    UserNotFound(u128),
    SessionNotFound(u128),
    EpisodeNotFound(u128),
    EntityNotFound(u128),
    EdgeNotFound(u128),
    NotFound { resource_type: String, id: String },
    Validation(String),
    Duplicate(String),
    Redis(String),
    Qdrant(String),
    Storage(String),
    Serialization(String),
    LlmProvider { provider: String, message: String },
    EmbeddingProvider { provider: String, message: String },
    ExtractionFailed(String),
    RateLimited { retry_after_ms: u64 },
    AlreadyClaimed(u128),
    ProcessingTimeout(u128),
    Unauthorized,
    Forbidden,
    InvalidApiKey,
    Config(String),
    Internal(String),
}

/// HTTP status code of an error.
pub open spec fn status_of(e: MnemoError) -> u16 {
    match e {
        MnemoError::UserNotFound(_) | MnemoError::SessionNotFound(_)
        | MnemoError::EpisodeNotFound(_) | MnemoError::EntityNotFound(_)
        | MnemoError::EdgeNotFound(_) | MnemoError::NotFound { .. } => 404,
        MnemoError::Validation(_) => 400,
        MnemoError::Duplicate(_) => 409,
        MnemoError::Unauthorized | MnemoError::InvalidApiKey => 401,
        MnemoError::Forbidden => 403,
        MnemoError::RateLimited { .. } => 429,
        MnemoError::AlreadyClaimed(_) => 409,
        MnemoError::LlmProvider { .. } | MnemoError::EmbeddingProvider { .. }
        | MnemoError::ExtractionFailed(_) => 502,
        _ => 500,
    }
}

/// Machine-readable code of an error.
pub open spec fn code_of(e: MnemoError) -> Seq<char> {
    match e {
        MnemoError::UserNotFound(_) => "user_not_found"@,
        MnemoError::SessionNotFound(_) => "session_not_found"@,
        MnemoError::EpisodeNotFound(_) => "episode_not_found"@,
        MnemoError::EntityNotFound(_) => "entity_not_found"@,
        MnemoError::EdgeNotFound(_) => "edge_not_found"@,
        MnemoError::NotFound { .. } => "not_found"@,
        MnemoError::Validation(_) => "validation_error"@,
        MnemoError::Duplicate(_) => "duplicate"@,
        MnemoError::Unauthorized => "unauthorized"@,
        MnemoError::InvalidApiKey => "invalid_api_key"@,
        MnemoError::Forbidden => "forbidden"@,
        MnemoError::RateLimited { .. } => "rate_limited"@,
        MnemoError::AlreadyClaimed(_) => "already_claimed"@,
        _ => "internal_error"@,
    }
}

/// The last `k` hexadecimal digits of `n`, most significant first.
pub open spec fn hex_fixed(n: nat, k: nat) -> Seq<char>
    decreases k,
{
    if k == 0 {
        Seq::empty()
    } else {
        hex_fixed(n / 16, (k - 1) as nat).push(crate::digest::hex_digit((n % 16) as int))
    }
}

/// The hyphenated lowercase text of a UUID (`8-4-4-4-12` hexadecimal digits).
pub open spec fn uuid_text(id: u128) -> Seq<char> {
    let h = hex_fixed(id as nat, 32);
    h.subrange(0, 8) + "-"@ + h.subrange(8, 12) + "-"@ + h.subrange(12, 16) + "-"@
        + h.subrange(16, 20) + "-"@ + h.subrange(20, 32)
}

/// `Uuid::from_u128(id).to_string()`: the lowercase hyphenated text of the
/// UUID whose big-endian value is `id`.
#[verifier::external_body]
pub(crate) fn uuid_to_string(id: u128) -> (r: String)
    ensures
        r@ == uuid_text(id),
{
    uuid::Uuid::from_u128(id).to_string()
}

/// The message a client receives for an error: user-facing errors keep their
/// details, internal ones are replaced by a generic sentence.
pub open spec fn sanitized(e: MnemoError) -> Seq<char> {
    match e {
        MnemoError::UserNotFound(id) => "User not found: "@ + uuid_text(id),
        MnemoError::SessionNotFound(id) => "Session not found: "@ + uuid_text(id),
        MnemoError::EpisodeNotFound(id) => "Episode not found: "@ + uuid_text(id),
        MnemoError::EntityNotFound(id) => "Entity not found: "@ + uuid_text(id),
        MnemoError::EdgeNotFound(id) => "Edge not found: "@ + uuid_text(id),
        MnemoError::NotFound { resource_type, id } => resource_type@ + " not found: "@ + id@,
        MnemoError::Validation(msg) => "Validation error: "@ + msg@,
        MnemoError::Duplicate(msg) => "Duplicate resource: "@ + msg@,
        MnemoError::Forbidden => "Insufficient permissions"@,
        MnemoError::Unauthorized => "Unauthorized"@,
        MnemoError::InvalidApiKey => "Invalid API key"@,
        MnemoError::RateLimited { retry_after_ms } =>
            "Rate limit exceeded, retry after "@ + decimal(retry_after_ms as nat) + "ms"@,
        MnemoError::AlreadyClaimed(_) => "Resource is being processed"@,
        MnemoError::ProcessingTimeout(_) => "Processing timed out"@,
        MnemoError::Redis(_) => "Storage service temporarily unavailable"@,
        MnemoError::Qdrant(_) => "Vector service temporarily unavailable"@,
        MnemoError::Storage(_) => "Storage error"@,
        MnemoError::Serialization(_) => "Data serialization error"@,
        MnemoError::Config(_) => "Server configuration error"@,
        MnemoError::LlmProvider { .. } => "Language model service error"@,
        MnemoError::EmbeddingProvider { .. } => "Embedding service error"@,
        MnemoError::ExtractionFailed(_) => "Content extraction failed"@,
        MnemoError::Internal(_) => "Internal server error"@,
    }
}

impl MnemoError {
    /// HTTP status code for this error.
    pub fn status_code(&self) -> (r: u16)
        ensures
            r == status_of(*self),
    {
        match self {
            MnemoError::UserNotFound(_) | MnemoError::SessionNotFound(_)
            | MnemoError::EpisodeNotFound(_) | MnemoError::EntityNotFound(_)
            | MnemoError::EdgeNotFound(_) | MnemoError::NotFound { .. } => 404,
            MnemoError::Validation(_) => 400,
            MnemoError::Duplicate(_) => 409,
            MnemoError::Unauthorized | MnemoError::InvalidApiKey => 401,
            MnemoError::Forbidden => 403,
            MnemoError::RateLimited { .. } => 429,
            MnemoError::AlreadyClaimed(_) => 409,
            MnemoError::LlmProvider { .. } | MnemoError::EmbeddingProvider { .. }
            | MnemoError::ExtractionFailed(_) => 502,
            _ => 500,
        }
    }

    /// Error code string for API responses.
    pub fn error_code(&self) -> (r: &'static str)
        ensures
            r@ == code_of(*self),
    {
        match self {
            MnemoError::UserNotFound(_) => "user_not_found",
            MnemoError::SessionNotFound(_) => "session_not_found",
            MnemoError::EpisodeNotFound(_) => "episode_not_found",
            MnemoError::EntityNotFound(_) => "entity_not_found",
            MnemoError::EdgeNotFound(_) => "edge_not_found",
            MnemoError::NotFound { .. } => "not_found",
            MnemoError::Validation(_) => "validation_error",
            MnemoError::Duplicate(_) => "duplicate",
            MnemoError::Unauthorized => "unauthorized",
            MnemoError::InvalidApiKey => "invalid_api_key",
            MnemoError::Forbidden => "forbidden",
            MnemoError::RateLimited { .. } => "rate_limited",
            MnemoError::AlreadyClaimed(_) => "already_claimed",
            _ => "internal_error",
        }
    }
}

fn prefixed(prefix: &str, rest: &str) -> (r: String)
    ensures
        r@ == prefix@ + rest@,
{
    let mut s = owned(prefix);
    push_str(&mut s, rest);
    s
}

/// Sanitize an error message before returning it to clients.
pub fn sanitize_error_message(err: &MnemoError) -> (r: String)
    ensures
        r@ == sanitized(*err),
{
    match err {
        MnemoError::UserNotFound(id) => prefixed("User not found: ", uuid_to_string(*id).as_str()),
        MnemoError::SessionNotFound(id) => prefixed("Session not found: ", uuid_to_string(*id).as_str()),
        MnemoError::EpisodeNotFound(id) => prefixed("Episode not found: ", uuid_to_string(*id).as_str()),
        MnemoError::EntityNotFound(id) => prefixed("Entity not found: ", uuid_to_string(*id).as_str()),
        MnemoError::EdgeNotFound(id) => prefixed("Edge not found: ", uuid_to_string(*id).as_str()),
        MnemoError::NotFound { resource_type, id } => {
            let mut s = prefixed(resource_type.as_str(), " not found: ");
            push_str(&mut s, id.as_str());
            s
        },
        MnemoError::Validation(msg) => prefixed("Validation error: ", msg.as_str()),
        MnemoError::Duplicate(msg) => prefixed("Duplicate resource: ", msg.as_str()),
        MnemoError::Forbidden => owned("Insufficient permissions"),
        MnemoError::Unauthorized => owned("Unauthorized"),
        MnemoError::InvalidApiKey => owned("Invalid API key"),
        MnemoError::RateLimited { retry_after_ms } => {
            let mut s = prefixed("Rate limit exceeded, retry after ", u64_to_decimal(*retry_after_ms).as_str());
            push_str(&mut s, "ms");
            s
        },
        MnemoError::AlreadyClaimed(_) => owned("Resource is being processed"),
        MnemoError::ProcessingTimeout(_) => owned("Processing timed out"),
        MnemoError::Redis(_) => owned("Storage service temporarily unavailable"),
        MnemoError::Qdrant(_) => owned("Vector service temporarily unavailable"),
        MnemoError::Storage(_) => owned("Storage error"),
        MnemoError::Serialization(_) => owned("Data serialization error"),
        MnemoError::Config(_) => owned("Server configuration error"),
        MnemoError::LlmProvider { .. } => owned("Language model service error"),
        MnemoError::EmbeddingProvider { .. } => owned("Embedding service error"),
        MnemoError::ExtractionFailed(_) => owned("Content extraction failed"),
        MnemoError::Internal(_) => owned("Internal server error"),
    }
}

/// Standard API error response body.
#[derive(Debug)]
pub struct ApiErrorResponse {
    pub error: ApiErrorDetail,
}

#[derive(Debug)]
pub struct ApiErrorDetail {
    pub code: String,
    pub message: String,
    pub retry_after_ms: Option<u64>,
}

impl ApiErrorResponse {
    /// The client-facing body of an error: its code, its sanitised message
    /// and, for rate limiting, the delay before a retry.
    pub fn from(err: MnemoError) -> (r: ApiErrorResponse)
        ensures
            r.error.code@ == code_of(err),
            r.error.message@ == sanitized(err),
            r.error.retry_after_ms == (match err {
                MnemoError::RateLimited { retry_after_ms } => Some(retry_after_ms),
                _ => None,
            }),
    {
        let retry_after_ms = match &err {
            MnemoError::RateLimited { retry_after_ms } => Some(*retry_after_ms),
            _ => None,
        };
        ApiErrorResponse {
            error: ApiErrorDetail {
                code: owned(err.error_code()),
                message: sanitize_error_message(&err),
                retry_after_ms,
            },
        }
    }
}

/// The text an error displays.
pub open spec fn display_text(e: MnemoError) -> Seq<char> {
    match e {
        MnemoError::UserNotFound(id) => "User not found: "@ + uuid_text(id),
        MnemoError::SessionNotFound(id) => "Session not found: "@ + uuid_text(id),
        MnemoError::EpisodeNotFound(id) => "Episode not found: "@ + uuid_text(id),
        MnemoError::EntityNotFound(id) => "Entity not found: "@ + uuid_text(id),
        MnemoError::EdgeNotFound(id) => "Edge not found: "@ + uuid_text(id),
        MnemoError::NotFound { resource_type, id } => "Resource not found: "@ + resource_type@ + " "@ + id@,
        MnemoError::Validation(m) => "Validation error: "@ + m@,
        MnemoError::Duplicate(m) => "Duplicate resource: "@ + m@,
        MnemoError::Redis(m) => "Redis error: "@ + m@,
        MnemoError::Qdrant(m) => "Qdrant error: "@ + m@,
        MnemoError::Storage(m) => "Storage error: "@ + m@,
        MnemoError::Serialization(m) => "Serialization error: "@ + m@,
        MnemoError::LlmProvider { provider, message } => "LLM provider error: "@ + provider@ + " - "@ + message@,
        MnemoError::EmbeddingProvider { provider, message } => "Embedding provider error: "@ + provider@ + " - "@ + message@,
        MnemoError::ExtractionFailed(m) => "LLM extraction failed: "@ + m@,
        MnemoError::RateLimited { retry_after_ms } => "LLM rate limited: retry after "@ + decimal(retry_after_ms as nat) + "ms"@,
        MnemoError::AlreadyClaimed(id) => "Episode already claimed for processing: "@ + uuid_text(id),
        MnemoError::ProcessingTimeout(id) => "Processing timeout for episode: "@ + uuid_text(id),
        MnemoError::Unauthorized => "Authentication required"@,
        MnemoError::Forbidden => "Insufficient permissions"@,
        MnemoError::InvalidApiKey => "Invalid API key"@,
        MnemoError::Config(m) => "Configuration error: "@ + m@,
        MnemoError::Internal(m) => "Internal error: "@ + m@,
    }
}

fn text_then(prefix: &str, tail: &str) -> (r: String)
    ensures
        r@ == prefix@ + tail@,
{
    let mut s = owned(prefix);
    push_str(&mut s, tail);
    s
}

fn text_then_uuid(prefix: &str, id: u128) -> (r: String)
    ensures
        r@ == prefix@ + uuid_text(id),
{
    let u = uuid_to_string(id);
    text_then(prefix, u.as_str())
}

impl MnemoError {
    /// The text the error displays.
    pub fn to_string(&self) -> (r: String)
        ensures
            r@ == display_text(*self),
    {
        match self {
            MnemoError::UserNotFound(id) => text_then_uuid("User not found: ", *id),
            MnemoError::SessionNotFound(id) => text_then_uuid("Session not found: ", *id),
            MnemoError::EpisodeNotFound(id) => text_then_uuid("Episode not found: ", *id),
            MnemoError::EntityNotFound(id) => text_then_uuid("Entity not found: ", *id),
            MnemoError::EdgeNotFound(id) => text_then_uuid("Edge not found: ", *id),
            MnemoError::NotFound { resource_type, id } => {
                let mut s = text_then("Resource not found: ", resource_type.as_str());
                push_str(&mut s, " ");
                push_str(&mut s, id.as_str());
                s
            },
            MnemoError::Validation(m) => text_then("Validation error: ", m.as_str()),
            MnemoError::Duplicate(m) => text_then("Duplicate resource: ", m.as_str()),
            MnemoError::Redis(m) => text_then("Redis error: ", m.as_str()),
            MnemoError::Qdrant(m) => text_then("Qdrant error: ", m.as_str()),
            MnemoError::Storage(m) => text_then("Storage error: ", m.as_str()),
            MnemoError::Serialization(m) => text_then("Serialization error: ", m.as_str()),
            MnemoError::LlmProvider { provider, message } => {
                let mut s = text_then("LLM provider error: ", provider.as_str());
                push_str(&mut s, " - ");
                push_str(&mut s, message.as_str());
                s
            },
            MnemoError::EmbeddingProvider { provider, message } => {
                let mut s = text_then("Embedding provider error: ", provider.as_str());
                push_str(&mut s, " - ");
                push_str(&mut s, message.as_str());
                s
            },
            MnemoError::ExtractionFailed(m) => text_then("LLM extraction failed: ", m.as_str()),
            MnemoError::RateLimited { retry_after_ms } => {
                let d = u64_to_decimal(*retry_after_ms);
                let mut s = text_then("LLM rate limited: retry after ", d.as_str());
                push_str(&mut s, "ms");
                s
            },
            MnemoError::AlreadyClaimed(id) => text_then_uuid("Episode already claimed for processing: ", *id),
            MnemoError::ProcessingTimeout(id) => text_then_uuid("Processing timeout for episode: ", *id),
            MnemoError::Unauthorized => owned("Authentication required"),
            MnemoError::Forbidden => owned("Insufficient permissions"),
            MnemoError::InvalidApiKey => owned("Invalid API key"),
            MnemoError::Config(m) => text_then("Configuration error: ", m.as_str()),
            MnemoError::Internal(m) => text_then("Internal error: ", m.as_str()),
        }
    }
}

} // verus!
