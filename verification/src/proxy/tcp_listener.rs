//! The options of the listening sockets, which accepted sockets inherit.

use vstd::prelude::*;

verus! {

/// How many connections may wait to be accepted.
pub const LISTEN_BACKLOG: i32 = 1024;

/// The options that are set on a listening socket.
#[derive(Debug, Clone, Copy, PartialEq, Eq, Structural)]
pub struct ListenerOptions {
    /// Seconds after which an idle connection is probed; not set where nothing is given.
    pub keepalive_secs: Option<u64>,
    /// Seconds that sent data may stay unacknowledged; not set where nothing is given.
    pub user_timeout_secs: Option<u64>,
}

/// The option that a number of seconds calls for: zero switches it off.
pub open spec fn option_of(secs: u64) -> Option<u64> {
    if secs > 0 {
        Some(secs)
    } else {
        None
    }
}

/// The options for keepalive and user timeout in seconds.
pub open spec fn options_for(keepalive_secs: u64, user_timeout_secs: u64) -> ListenerOptions {
    ListenerOptions {
        keepalive_secs: option_of(keepalive_secs),
        user_timeout_secs: option_of(user_timeout_secs),
    }
}

/// Each option is set to the seconds that are given for it, and is left alone exactly where they are
/// zero.
pub proof fn law_zero_switches_an_option_off(keepalive_secs: u64, user_timeout_secs: u64)
    ensures
        options_for(keepalive_secs, user_timeout_secs).keepalive_secs is None <==> keepalive_secs == 0,
        keepalive_secs > 0 ==> options_for(keepalive_secs, user_timeout_secs).keepalive_secs == Some(
            keepalive_secs,
        ),
        options_for(keepalive_secs, user_timeout_secs).user_timeout_secs is None <==> user_timeout_secs
            == 0,
        user_timeout_secs > 0 ==> options_for(keepalive_secs, user_timeout_secs).user_timeout_secs
            == Some(user_timeout_secs),
{
}

impl ListenerOptions {
    /// The options for keepalive and user timeout in seconds; pass 0 to disable either.
    pub fn new(tcp_keepalive_secs: u64, tcp_user_timeout_secs: u64) -> (o: ListenerOptions)
        ensures
            o == options_for(tcp_keepalive_secs, tcp_user_timeout_secs),
    {
        ListenerOptions {
            keepalive_secs: if tcp_keepalive_secs > 0 {
                Some(tcp_keepalive_secs)
            } else {
                None
            },
            user_timeout_secs: if tcp_user_timeout_secs > 0 {
                Some(tcp_user_timeout_secs)
            } else {
                None
            },
        }
    }
}

} // verus!
