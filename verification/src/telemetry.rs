//! Optional tracing to a local Langfuse: which endpoint and credentials are used.
use vstd::prelude::*;

use crate::text::concat;

verus! {

/// Where traces go, when they are sent at all.
#[derive(Debug, Clone, PartialEq, Eq)]
pub struct ObservabilityConfig {
    pub enabled: bool,
    pub endpoint: String,
    pub public_key: Option<String>,
    pub secret_key: Option<String>,
}

/// The endpoint traces go to when the settings name none.
pub open spec fn default_endpoint() -> Seq<char> {
    "http://localhost:3000/api/public/otel/v1/traces"@
}

impl Default for ObservabilityConfig {
    fn default() -> (c: ObservabilityConfig)
        ensures
            !c.enabled,
            c.endpoint@ == default_endpoint(),
            c.public_key is None,
            c.secret_key is None,
    {
        ObservabilityConfig {
            enabled: false,
            endpoint: String::from_str("http://localhost:3000/api/public/otel/v1/traces"),
            public_key: None,
            secret_key: None,
        }
    }
}

/// The character of the standard base64 alphabet for the six bits `v`.
pub open spec fn base64_digit(v: int) -> char {
    if v < 26 {
        (65 + v) as char
    } else if v < 52 {
        (97 + v - 26) as char
    } else if v < 62 {
        (48 + v - 52) as char
    } else if v == 62 {
        '+'
    } else {
        '/'
    }
}

/// The standard base64 encoding, with `=` padding, of `bytes`: every three bytes give
/// four characters of six bits each; a last one or two bytes give two or three
/// characters and are padded to four.
pub open spec fn base64_bytes(bytes: Seq<u8>) -> Seq<char>
    decreases bytes.len(),
{
    if bytes.len() == 0 {
        seq![]
    } else {
        let b0 = bytes[0] as int;
        let b1 = if bytes.len() > 1 {
            bytes[1] as int
        } else {
            0
        };
        let b2 = if bytes.len() > 2 {
            bytes[2] as int
        } else {
            0
        };
        let first = base64_digit(b0 / 4);
        let second = base64_digit((b0 % 4) * 16 + b1 / 16);
        let third = if bytes.len() > 1 {
            base64_digit((b1 % 16) * 4 + b2 / 64)
        } else {
            '='
        };
        let fourth = if bytes.len() > 2 {
            base64_digit(b2 % 64)
        } else {
            '='
        };
        seq![first, second, third, fourth] + if bytes.len() > 3 {
            base64_bytes(bytes.skip(3))
        } else {
            seq![]
        }
    }
}

/// The standard base64 encoding, with padding, of the UTF-8 bytes of `text`.
pub open spec fn base64_of(text: Seq<char>) -> Seq<char> {
    base64_bytes(vstd::utf8::encode_utf8(text))
}

/// Calls `base64::Engine::encode` with the standard alphabet and padding
/// (`general_purpose::STANDARD`) on the UTF-8 bytes of `text`.
#[verifier::external_body]
fn encode_base64(text: &str) -> (s: String)
    ensures
        s@ == base64_of(text@),
{
    base64::Engine::encode(&base64::engine::general_purpose::STANDARD, text.as_bytes())
}

/// How to reach the trace collector.
#[derive(Debug, Clone, PartialEq, Eq)]
pub struct ExporterSettings {
    pub endpoint: String,
    /// Header names and values sent with every export.
    pub headers: Vec<(String, String)>,
}

/// The error when the public key is missing.
pub open spec fn missing_public_key() -> Seq<char> {
    "observability is enabled but LANGFUSE_PUBLIC_KEY/observability.public_key is missing"@
}

/// The error when the secret key is missing.
pub open spec fn missing_secret_key() -> Seq<char> {
    "observability is enabled but LANGFUSE_SECRET_KEY/observability.secret_key is missing"@
}

/// The first of two optional texts that is there.
pub open spec fn first_of(a: Option<String>, b: Option<String>) -> Option<Seq<char>> {
    match a {
        Some(x) => Some(x@),
        None => match b {
            Some(y) => Some(y@),
            None => None,
        },
    }
}

/// The first of two optional texts that is there.
fn first_present(a: Option<String>, b: &Option<String>) -> (r: Option<String>)
    ensures
        match r {
            Some(s) => first_of(a, *b) == Some(s@),
            None => first_of(a, *b) is None,
        },
{
    match a {
        Some(x) => Some(x),
        None => match b {
            Some(y) => Some(y.clone()),
            None => None,
        },
    }
}

/// Where traces go: nowhere when disabled; otherwise to the endpoint from the
/// environment or else the settings, with credentials from the environment or else
/// the settings, sent as a basic authorization header together with the ingestion
/// version `4`. A missing key is an error.
pub fn exporter_settings(
    config: &ObservabilityConfig,
    env_endpoint: Option<String>,
    env_public_key: Option<String>,
    env_secret_key: Option<String>,
) -> (r: Result<Option<ExporterSettings>, String>)
    ensures
        !config.enabled ==> r == Ok::<Option<ExporterSettings>, String>(None),
        config.enabled ==> match (
            first_of(env_public_key, config.public_key),
            first_of(env_secret_key, config.secret_key),
        ) {
            (None, _) => r matches Err(m) && m@ == missing_public_key(),
            (Some(_), None) => r matches Err(m) && m@ == missing_secret_key(),
            (Some(p), Some(k)) => r matches Ok(Some(s)) && s.endpoint@ == (match env_endpoint {
                Some(e) => e@,
                None => config.endpoint@,
            }) && s.headers@.len() == 2 && s.headers@[0].0@ == "Authorization"@
                && s.headers@[0].1@ == "Basic "@ + base64_of(p + ":"@ + k)
                && s.headers@[1].0@ == "x-langfuse-ingestion-version"@ && s.headers@[1].1@ == "4"@,
        },
{
    if !config.enabled {
        return Ok(None);
    }
    let endpoint = match env_endpoint {
        Some(e) => e,
        None => config.endpoint.clone(),
    };
    let public_key = match first_present(env_public_key, &config.public_key) {
        Some(k) => k,
        None => {
            return Err(
                String::from_str(
                    "observability is enabled but LANGFUSE_PUBLIC_KEY/observability.public_key is missing",
                ),
            );
        },
    };
    let secret_key = match first_present(env_secret_key, &config.secret_key) {
        Some(k) => k,
        None => {
            return Err(
                String::from_str(
                    "observability is enabled but LANGFUSE_SECRET_KEY/observability.secret_key is missing",
                ),
            );
        },
    };
    let mut credentials = concat(public_key.as_str(), ":");
    credentials.append(secret_key.as_str());
    let encoded = encode_base64(credentials.as_str());
    let authorization = concat("Basic ", encoded.as_str());
    let mut headers: Vec<(String, String)> = Vec::new();
    headers.push((String::from_str("Authorization"), authorization));
    headers.push((String::from_str("x-langfuse-ingestion-version"), String::from_str("4")));
    Ok(Some(ExporterSettings { endpoint, headers }))
}

} // verus!
