//! Connections: where they go, and what comes of them.
use vstd::prelude::*;
use crate::text::{dec, digits};

verus! {

/// One probe: the round trip in nanoseconds, or nothing when it was lost.
#[derive(Clone, Copy, PartialEq, Eq, Structural, Debug)]
pub struct PingSample {
    pub rtt_ns: Option<u64>,
}

/// What came of an attempt to connect.
#[derive(Clone, Copy, PartialEq, Eq, Structural, Debug)]
pub enum Reply {
    Connected,
    Refused,
    Reset,
    Failed,
}

impl PingSample {
    /// The sample of an attempt that took `elapsed_ns`. A connection that was refused
    /// or reset was answered all the same: the path works.
    pub fn of(reply: Reply, elapsed_ns: u64) -> (s: Self)
        ensures
            s.rtt_ns == (if reply == Reply::Failed {
                None
            } else {
                Some(elapsed_ns)
            }),
    {
        match reply {
            Reply::Failed => PingSample { rtt_ns: None },
            _ => PingSample { rtt_ns: Some(elapsed_ns) },
        }
    }
}

/// A probe of a port by connecting to it.
#[derive(Clone)]
pub struct TcpPinger {
    pub addr: String,
    pub port: u16,
    pub timeout_ms: u64,
}

impl TcpPinger {
    /// "address:port"
    pub fn target(&self) -> (s: String)
        ensures
            s@ == self.addr@ + ":"@ + digits(self.port as nat),
    {
        let mut s = self.addr.clone();
        s.append(":");
        s.append(dec(self.port as u128).as_str());
        s
    }
}

/// The address of the name service of `ip`.
pub fn name_server(ip: &str) -> (s: String)
    ensures
        s@ == ip@ + ":53"@,
{
    let mut s = String::from_str(ip);
    s.append(":53");
    s
}

/// The answer time of a lookup: one that found no address is no answer.
pub fn lookup_answer(addresses: usize, elapsed_ns: u64) -> (r: Option<u64>)
    ensures
        r == (if addresses > 0 {
            Some(elapsed_ns)
        } else {
            None
        }),
{
    if addresses > 0 {
        Some(elapsed_ns)
    } else {
        None
    }
}

} // verus!
