//! Server role: a process is a leader (master) or a follower (replica)
//! of one leader, fixed once at startup and immutable thereafter.

use crate::codec::digits_value_acc;
use crate::text::is_decimal_upto;
use crate::text::parse_decimal;
use vstd::prelude::*;
use vstd::slice::slice_subrange;
use vstd::slice::slice_to_vec;

verus! {

/// Byte value of `':'`.
pub const COLON: u8 = 58;

/// The role a process serves in for its whole lifetime.
pub enum ServerRole {
    /// Leader: accepts writes and propagates them to its replicas.
    Master,
    /// Follower: replays the leader's write stream.
    Replica { master_host: Vec<u8>, master_port: u16 },
}

impl ServerRole {
    /// Whether this process leads.
    pub open spec fn is_master_spec(&self) -> bool {
        self is Master
    }

    /// Whether this process leads.
    pub fn is_master(&self) -> (r: bool)
        ensures
            r == self.is_master_spec(),
    {
        match self {
            ServerRole::Master => true,
            ServerRole::Replica { .. } => false,
        }
    }
}

/// Position of the first occurrence of `b` in `s` at or past `i`.
pub open spec fn find_byte(s: Seq<u8>, b: u8, i: int) -> Option<int>
    decreases s.len() - i,
{
    if i < 0 || i >= s.len() {
        None
    } else if s[i] == b {
        Some(i)
    } else {
        find_byte(s, b, i + 1)
    }
}

/// What a replication target argument means: split at its only colon
/// into a host and a decimal port that fits. An argument without a
/// colon, with more than one, or with a malformed port means nothing.
pub open spec fn spec_replica_target(s: Seq<u8>) -> Option<(Seq<u8>, u16)> {
    match find_byte(s, COLON, 0) {
        None => None,
        Some(p) => {
            let host = s.subrange(0, p);
            let port = s.subrange(p + 1, s.len() as int);
            if find_byte(s, COLON, p + 1) is Some {
                None
            } else if is_decimal_upto(port, 65535) {
                Some((host, digits_value_acc(port, 0) as u16))
            } else {
                None
            }
        },
    }
}

fn find_byte_from(s: &[u8], b: u8, start: usize) -> (r: Option<usize>)
    requires
        start <= s@.len(),
    ensures
        match r {
            Some(p) => start <= p < s@.len() && find_byte(s@, b, start as int) == Some(p as int),
            None => find_byte(s@, b, start as int) is None,
        },
{
    let mut i: usize = start;
    while i < s.len()
        invariant
            start <= i <= s@.len(),
            find_byte(s@, b, start as int) == find_byte(s@, b, i as int),
        decreases s@.len() - i,
    {
        if s[i] == b {
            return Some(i);
        }
        i = i + 1;
    }
    None
}

/// Decides the server's role from the replication target handed over at
/// startup, if any. No target means the process leads; a well-formed
/// `host:port` target means it follows that leader; a malformed target
/// means nothing and the caller must treat startup as failed.
pub fn get_role(replicaof: Option<Vec<u8>>) -> (r: Option<ServerRole>)
    ensures
        match replicaof {
            None => r == Some(ServerRole::Master),
            Some(s) => match spec_replica_target(s@) {
                Some((host, port)) => r matches Some(
                    ServerRole::Replica { master_host, master_port },
                ) && master_host@ == host && master_port == port,
                None => r is None,
            },
        },
{
    let s = match replicaof {
        None => {
            return Some(ServerRole::Master);
        },
        Some(s) => s,
    };
    let bytes = s.as_slice();
    let p = match find_byte_from(bytes, COLON, 0) {
        None => {
            return None;
        },
        Some(p) => p,
    };
    if let Some(_) = find_byte_from(bytes, COLON, p + 1) {
        return None;
    }
    let port_part = slice_subrange(bytes, p + 1, bytes.len());
    let port = match parse_decimal(port_part, 65535) {
        None => {
            return None;
        },
        Some(v) => v as u16,
    };
    let host = slice_to_vec(slice_subrange(bytes, 0, p));
    Some(ServerRole::Replica { master_host: host, master_port: port })
}

} // verus!
