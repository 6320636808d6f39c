//! Status of a monitored endpoint and classification of probe outcomes.

use vstd::prelude::*;
use vstd::string::StringExecFns;
use crate::text::dec_of;
use crate::text::push_dec;

verus! {

/// Reachability state of one monitored endpoint, as determined by the most
/// recent HTTP probe (or `Unchecked` before the first probe).
#[derive(Clone, Copy, PartialEq, Eq, Structural, Debug)]
pub enum ServerStatus {
    /// No probe has been attempted yet.
    Unchecked,
    /// The most recent probe returned a success-class HTTP status.
    Online,
    /// The most recent probe failed at the transport level: no HTTP
    /// response was obtained.
    Offline,
    /// The most recent probe obtained an HTTP response with the given
    /// non-success status code.
    Error(u16),
}

/// HTTP status codes that count as success: the 2xx class.
pub open spec fn is_success_code(code: u16) -> bool {
    200 <= code < 300
}

/// What `classify` returns for a given probe outcome.
pub open spec fn spec_classify(response: Option<u16>) -> ServerStatus {
    match response {
        None => ServerStatus::Offline,
        Some(code) => if is_success_code(code) {
            ServerStatus::Online
        } else {
            ServerStatus::Error(code)
        },
    }
}

/// The display label of a status, as the presentation layer shows it.
pub open spec fn status_label(st: ServerStatus) -> Seq<char> {
    match st {
        ServerStatus::Unchecked => "未检查"@,
        ServerStatus::Online => "✅ 在线"@,
        ServerStatus::Offline => "❌ 离线"@,
        ServerStatus::Error(code) => "⚠ 错误 ("@ + dec_of(code as nat) + ")"@,
    }
}

/// The display color of a status, as red, green and blue components.
pub open spec fn status_color(st: ServerStatus) -> (u8, u8, u8) {
    match st {
        ServerStatus::Unchecked => (160u8, 160u8, 160u8),
        ServerStatus::Online => (0u8, 150u8, 0u8),
        ServerStatus::Offline => (200u8, 0u8, 0u8),
        ServerStatus::Error(_) => (255u8, 165u8, 0u8),
    }
}

impl ServerStatus {
    /// The display label of this status.
    pub fn to_string(&self) -> (s: String)
        ensures
            s@ == status_label(*self),
    {
        match self {
            ServerStatus::Unchecked => String::from_str("未检查"),
            ServerStatus::Online => String::from_str("✅ 在线"),
            ServerStatus::Offline => String::from_str("❌ 离线"),
            ServerStatus::Error(code) => {
                let mut s = String::from_str("⚠ 错误 (");
                push_dec(&mut s, *code as u64);
                s.append(")");
                proof {
                    assert(s@ =~= status_label(*self));
                }
                s
            },
        }
    }

    /// The display color of this status.
    pub fn color(&self) -> (rgb: (u8, u8, u8))
        ensures
            rgb == status_color(*self),
    {
        match self {
            ServerStatus::Unchecked => (160, 160, 160),
            ServerStatus::Online => (0, 150, 0),
            ServerStatus::Offline => (200, 0, 0),
            ServerStatus::Error(_) => (255, 165, 0),
        }
    }
}

/// Classifies the outcome of one HTTP probe. `response` is `None` when no
/// HTTP response was obtained (connection refused, timeout, DNS failure,
/// and the like) and `Some(code)` when a response with status `code` came
/// back.
pub fn classify(response: Option<u16>) -> (st: ServerStatus)
    ensures
        st == spec_classify(response),
{
    match response {
        None => ServerStatus::Offline,
        Some(code) => {
            if 200 <= code && code < 300 {
                ServerStatus::Online
            } else {
                ServerStatus::Error(code)
            }
        },
    }
}

} // verus!
