//! Gateway error kinds, their HTTP status and their log classification.
use vstd::prelude::*;
use vstd::string::*;
use crate::text::{decimal, push_str, u64_to_decimal};

verus! {

/// Errors raised by the gateway. Errors that originate in the storage layer,
/// the HTTP client, JSON handling or elsewhere carry their rendered message.
#[derive(Debug, Clone, PartialEq, Eq)]
pub enum GatewayError {
    Unauthorized,
    Forbidden(String),
    RateLimited,
    NotFound,
    BadRequest(String),
    ProviderUnknown(String),
    UpstreamTimeout,
    UpstreamError { status: u16, body: Option<String> },
    Internal(String),
    Storage(String),
    Http(String),
    Serde(String),
    Other(String),
}

pub open spec fn error_status(e: GatewayError) -> u16 {
    match e {
        GatewayError::Unauthorized => 401,
        GatewayError::Forbidden(_) => 403,
        GatewayError::RateLimited => 429,
        GatewayError::NotFound => 404,
        GatewayError::BadRequest(_) => 400,
        GatewayError::ProviderUnknown(_) => 400,
        GatewayError::UpstreamTimeout => 504,
        GatewayError::UpstreamError { status, .. } => status,
        _ => 500,
    }
}

pub open spec fn error_class(e: GatewayError) -> Seq<char> {
    match e {
        GatewayError::Unauthorized | GatewayError::Forbidden(_) => "auth"@,
        GatewayError::RateLimited => "rate_limited"@,
        GatewayError::BadRequest(_) | GatewayError::ProviderUnknown(_) => "bad_request"@,
        GatewayError::UpstreamTimeout => "timeout"@,
        GatewayError::UpstreamError { .. } => "upstream_error"@,
        _ => "gateway_error"@,
    }
}

impl GatewayError {
    /// HTTP status used when the error is returned to the client.
    pub fn status_code(&self) -> (r: u16)
        ensures
            r == error_status(*self),
    {
        match self {
            GatewayError::Unauthorized => 401,
            GatewayError::Forbidden(_) => 403,
            GatewayError::RateLimited => 429,
            GatewayError::NotFound => 404,
            GatewayError::BadRequest(_) => 400,
            GatewayError::ProviderUnknown(_) => 400,
            GatewayError::UpstreamTimeout => 504,
            GatewayError::UpstreamError { status, .. } => *status,
            _ => 500,
        }
    }

    /// Short class recorded in request logs and error bodies.
    pub fn classification(&self) -> (r: &'static str)
        ensures
            r@ == error_class(*self),
    {
        proof {
            reveal_strlit("auth");
            reveal_strlit("rate_limited");
            reveal_strlit("bad_request");
            reveal_strlit("timeout");
            reveal_strlit("upstream_error");
            reveal_strlit("gateway_error");
        }
        match self {
            GatewayError::Unauthorized | GatewayError::Forbidden(_) => "auth",
            GatewayError::RateLimited => "rate_limited",
            GatewayError::BadRequest(_) | GatewayError::ProviderUnknown(_) => "bad_request",
            GatewayError::UpstreamTimeout => "timeout",
            GatewayError::UpstreamError { .. } => "upstream_error",
            _ => "gateway_error",
        }
    }
}

/// How `{:?}` renders an optional text (`None`, or `Some` and the quoted,
/// escaped text).
pub uninterp spec fn debug_text(o: Option<Seq<char>>) -> Seq<char>;

/// Calls `format!("{:?}", ..)` on an optional text. Trusted: the rendering is
/// a function of the value alone.
#[verifier::external_body]
fn debug_option_text(o: &Option<String>) -> (r: String)
    ensures
        r@ == debug_text(
            match o {
                Some(s) => Some(s@),
                None => None,
            },
        ),
{
    format!("{:?}", o)
}

/// The message of an error, as shown to clients and in logs.
pub open spec fn error_message(e: GatewayError) -> Seq<char> {
    match e {
        GatewayError::Unauthorized => "unauthorized"@,
        GatewayError::Forbidden(m) => "forbidden: "@ + m@,
        GatewayError::RateLimited => "rate limited"@,
        GatewayError::NotFound => "not found"@,
        GatewayError::BadRequest(m) => "invalid request: "@ + m@,
        GatewayError::ProviderUnknown(m) => "provider not configured: "@ + m@,
        GatewayError::UpstreamTimeout => "upstream timeout"@,
        GatewayError::UpstreamError { status, body } => "upstream error: status="@ + decimal(
            status as nat,
        ) + ", body="@ + debug_text(
            match body {
                Some(b) => Some(b@),
                None => None,
            },
        ),
        GatewayError::Internal(m) => "internal: "@ + m@,
        GatewayError::Storage(m) => m@,
        GatewayError::Http(m) => m@,
        GatewayError::Serde(m) => m@,
        GatewayError::Other(m) => m@,
    }
}

fn prefixed(prefix: &str, m: &String) -> (r: String)
    ensures
        r@ == prefix@ + m@,
{
    let mut s = String::from_str(prefix);
    push_str(&mut s, m.as_str());
    s
}

impl GatewayError {
    /// The error's message.
    pub fn message(&self) -> (r: String)
        ensures
            r@ == error_message(*self),
    {
        match self {
            GatewayError::Unauthorized => String::from_str("unauthorized"),
            GatewayError::Forbidden(m) => prefixed("forbidden: ", m),
            GatewayError::RateLimited => String::from_str("rate limited"),
            GatewayError::NotFound => String::from_str("not found"),
            GatewayError::BadRequest(m) => prefixed("invalid request: ", m),
            GatewayError::ProviderUnknown(m) => prefixed("provider not configured: ", m),
            GatewayError::UpstreamTimeout => String::from_str("upstream timeout"),
            GatewayError::UpstreamError { status, body } => {
                let mut s = String::from_str("upstream error: status=");
                let d = u64_to_decimal(*status as u64);
                push_str(&mut s, d.as_str());
                push_str(&mut s, ", body=");
                let b = debug_option_text(body);
                push_str(&mut s, b.as_str());
                s
            },
            GatewayError::Internal(m) => prefixed("internal: ", m),
            GatewayError::Storage(m) => String::from_str(m.as_str()),
            GatewayError::Http(m) => String::from_str(m.as_str()),
            GatewayError::Serde(m) => String::from_str(m.as_str()),
            GatewayError::Other(m) => String::from_str(m.as_str()),
        }
    }
}

/// Errors returned by the HTTP API layer.
#[derive(Debug, Clone, PartialEq, Eq)]
pub enum ApiError {
    Gateway(GatewayError),
    Storage(String),
    BadRequest(String),
    Unauthorized,
}

pub open spec fn api_status(e: ApiError) -> u16 {
    match e {
        ApiError::Gateway(g) => {
            let s = error_status(g);
            if 100 <= s && s <= 999 {
                s
            } else {
                500
            }
        },
        ApiError::Storage(_) => 500,
        ApiError::BadRequest(_) => 400,
        ApiError::Unauthorized => 401,
    }
}

pub open spec fn api_code(e: ApiError) -> Seq<char> {
    match e {
        ApiError::Gateway(g) => error_class(g),
        ApiError::Storage(_) => "storage_error"@,
        ApiError::BadRequest(_) => "bad_request"@,
        ApiError::Unauthorized => "unauthorized"@,
    }
}

impl ApiError {
    /// Status and error code of the JSON error response
    /// (`{"error": {"code", "message"}}`). A status outside 100..=999 is not a
    /// valid HTTP status and becomes 500.
    pub fn status_and_code(&self) -> (r: (u16, &'static str))
        ensures
            r.0 == api_status(*self),
            r.1@ == api_code(*self),
    {
        proof {
            reveal_strlit("storage_error");
            reveal_strlit("bad_request");
            reveal_strlit("unauthorized");
        }
        match self {
            ApiError::Gateway(e) => {
                let s = e.status_code();
                let status = if 100 <= s && s <= 999 {
                    s
                } else {
                    500
                };
                (status, e.classification())
            },
            ApiError::Storage(_) => (500, "storage_error"),
            ApiError::BadRequest(_) => (400, "bad_request"),
            ApiError::Unauthorized => (401, "unauthorized"),
        }
    }
}

/// The message of an API error.
pub open spec fn api_message(e: ApiError) -> Seq<char> {
    match e {
        ApiError::Gateway(g) => error_message(g),
        ApiError::Storage(m) => m@,
        ApiError::BadRequest(m) => m@,
        ApiError::Unauthorized => "unauthorized"@,
    }
}

impl ApiError {
    pub fn message(&self) -> (r: String)
        ensures
            r@ == api_message(*self),
    {
        match self {
            ApiError::Gateway(g) => g.message(),
            ApiError::Storage(m) => String::from_str(m.as_str()),
            ApiError::BadRequest(m) => String::from_str(m.as_str()),
            ApiError::Unauthorized => String::from_str("unauthorized"),
        }
    }
}

} // verus!
