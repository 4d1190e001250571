//! How a gRPC call that is refused is answered.

use vstd::prelude::*;

verus! {

/// The codes with which calls are refused.
#[derive(Debug, Clone, Copy, PartialEq, Eq, Structural)]
pub enum GrpcCode {
    Internal,
    InvalidArgument,
    PermissionDenied,
    ResourceExhausted,
    Unavailable,
    DataLoss,
}

/// A code and a message.
#[derive(Debug)]
pub struct GrpcStatus {
    pub code: GrpcCode,
    pub message: String,
}

impl GrpcStatus {
    /// The status has this code and says this.
    pub open spec fn says(self, code: GrpcCode, message: Seq<char>) -> bool {
        self.code == code && self.message@ == message
    }

    pub fn new(code: GrpcCode, message: &str) -> (s: GrpcStatus)
        ensures
            s.says(code, message@),
    {
        GrpcStatus { code, message: message.to_string() }
    }

    pub fn of(code: GrpcCode, message: String) -> (s: GrpcStatus)
        ensures
            s.code == code,
            s.message == message,
    {
        GrpcStatus { code, message }
    }
}

/// A status says one thing: a single code with a single message.
pub proof fn law_status_says_one_thing(
    s: GrpcStatus,
    code: GrpcCode,
    message: Seq<char>,
    other: GrpcCode,
    another: Seq<char>,
)
    requires
        s.says(code, message),
    ensures
        s.code == code,
        s.message@ == message,
        s.says(other, another) <==> other == code && another == message,
{
}

} // verus!
