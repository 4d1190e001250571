//! What can go wrong with a request.

use crate::text;
use vstd::prelude::*;

verus! {

/// Why a request was not answered.
#[derive(Debug)]
pub enum ProxyError {
    Unauthorized,
    RateLimited { is_tps: bool },
    UpstreamError(String),
    NoHealthyNodes,
    AllUpstreamsFailed,
    BodyTooLarge,
    InvalidRequest(String),
    Internal(String),
}

impl ProxyError {
    /// What the error says.
    pub open spec fn text(self) -> Seq<char> {
        match self {
            ProxyError::Unauthorized => "Unauthorized"@,
            ProxyError::RateLimited { is_tps } => if is_tps {
                "TPS rate limit exceeded"@
            } else {
                "RPS rate limit exceeded"@
            },
            ProxyError::UpstreamError(e) => "Upstream error: "@ + e@,
            ProxyError::NoHealthyNodes => "No healthy upstream nodes"@,
            ProxyError::AllUpstreamsFailed => "All upstream nodes failed"@,
            ProxyError::BodyTooLarge => "Request body too large"@,
            ProxyError::InvalidRequest(e) => "Invalid request: "@ + e@,
            ProxyError::Internal(e) => "Internal error: "@ + e@,
        }
    }

    /// The error as a message.
    pub fn message(&self) -> (r: String)
        ensures
            r@ == self.text(),
    {
        match self {
            ProxyError::Unauthorized => "Unauthorized".to_string(),
            ProxyError::RateLimited { is_tps } => if *is_tps {
                "TPS rate limit exceeded".to_string()
            } else {
                "RPS rate limit exceeded".to_string()
            },
            ProxyError::UpstreamError(e) => text::concat("Upstream error: ", e.as_str()),
            ProxyError::NoHealthyNodes => "No healthy upstream nodes".to_string(),
            ProxyError::AllUpstreamsFailed => "All upstream nodes failed".to_string(),
            ProxyError::BodyTooLarge => "Request body too large".to_string(),
            ProxyError::InvalidRequest(e) => text::concat("Invalid request: ", e.as_str()),
            ProxyError::Internal(e) => text::concat("Internal error: ", e.as_str()),
        }
    }
}

/// What is said of a limit begins with the letter of the limit that was met, and what carries an error
/// ends with it, after words of its own for each kind.
pub proof fn law_message_tells_what_went_wrong(is_tps: bool, e: String)
    ensures
        (ProxyError::RateLimited { is_tps }).text()[0] == if is_tps {
            'T'
        } else {
            'R'
        },
        ({
            let of_upstream = ProxyError::UpstreamError(e).text();
            let of_request = ProxyError::InvalidRequest(e).text();
            let of_own = ProxyError::Internal(e).text();
            &&& of_upstream.len() == 16 + e@.len() && of_upstream.skip(16) == e@
            &&& of_request.len() == 17 + e@.len() && of_request.skip(17) == e@
            &&& of_own.len() == 16 + e@.len() && of_own.skip(16) == e@
            &&& of_upstream[0] == 'U' && of_own[0] == 'I'
        }),
{
    reveal_strlit("TPS rate limit exceeded");
    reveal_strlit("RPS rate limit exceeded");
    reveal_strlit("Upstream error: ");
    reveal_strlit("Invalid request: ");
    reveal_strlit("Internal error: ");
    assert(ProxyError::UpstreamError(e).text().skip(16) =~= e@);
    assert(ProxyError::InvalidRequest(e).text().skip(17) =~= e@);
    assert(ProxyError::Internal(e).text().skip(16) =~= e@);
}

} // verus!
