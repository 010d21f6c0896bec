//! Connection handling, as a pure step function: from the bytes read
//! so far, the connection's kind and the shared state, decide the one
//! reply, the propagation and the follower registration that the frame
//! at the front of the buffer is owed. The caller performs every read
//! and write of sockets, and hands each outcome on.

use crate::codec::decode_frame;
use crate::codec::encode_reply;
use crate::codec::parse_frame;
use crate::codec::spec_encode_reply;
use crate::codec::Decoded;
use crate::codec::Parse;
use crate::codec::Reply;
use crate::codec::ReplyModel;
use crate::command::execute_command;
use crate::command::parse_command;
use crate::command::spec_is_full_psync;
use crate::command::spec_is_write;
use crate::command::spec_parse;
use crate::command::spec_reply;
use crate::command::spec_store_after;
use crate::command::Command;
use crate::replication::ReplicationState;
use crate::role::ServerRole;
use crate::store::KeyspaceStore;
use crate::text::ascii_bytes;
use crate::text::ascii_of;
use vstd::prelude::*;
use vstd::slice::slice_subrange;
use vstd::slice::slice_to_vec;

verus! {

/// Error text for bytes that cannot start a frame.
pub open spec fn err_protocol() -> Seq<u8> {
    ascii_of("ERR protocol error"@)
}

/// What kind of peer a connection serves: an ordinary client, or the
/// replication channel on which a follower receives its leader's write
/// stream. The kind is an explicit tag, never inferred from the peer's
/// address, and propagated traffic is never replied to.
pub enum ConnectionKind {
    Client,
    ReplicationChannel,
}

/// What one decoded frame obliges the caller to do.
pub struct StepOutcome {
    /// Bytes owed to the peer; nothing on the replication channel.
    pub reply: Option<Vec<u8>>,
    /// A FULLRESYNC was replied: the caller must now send the snapshot
    /// frame and register the socket as a follower.
    pub register_follower: bool,
    /// The frame's exact wire bytes, to forward to every streaming
    /// follower in registration order.
    pub propagate: Option<Vec<u8>>,
    /// How many bytes of the buffer the frame occupied; the caller
    /// drops them before the next step.
    pub consumed: usize,
}

/// Outcome of one step: the buffer must grow first, or a frame was
/// disposed of.
pub enum StepResult {
    NeedMore,
    Step(StepOutcome),
}

/// Runs the frame at the front of `buf`, if it is whole: decodes it,
/// validates it, executes it against the store, and decides the reply,
/// the propagation and the follower registration it is owed.
///
/// A buffer that stops short of its frame asks for more bytes and
/// changes nothing. Bytes that cannot start a frame are dropped whole
/// and answered with an error reply, and the connection goes on. A
/// malformed or unknown command is answered with its error text. A
/// valid command is executed; the reply goes to an ordinary client and
/// never onto the replication channel; a write executed at the leader
/// on a client connection is propagated byte for byte and advances the
/// replication offset by its exact wire length.
pub fn connection_step(
    buf: &Vec<u8>,
    kind: &ConnectionKind,
    store: &mut KeyspaceStore,
    role: &ServerRole,
    repl: &mut ReplicationState,
    now_ms: u64,
) -> (r: StepResult)
    ensures
        final(repl)@.replid == old(repl)@.replid,
        final(repl)@.followers == old(repl)@.followers,
        (r is NeedMore <==> parse_frame(buf@) is More),
        (r matches StepResult::Step(o) ==> 1 <= o.consumed <= buf@.len()),
        match parse_frame(buf@) {
            Parse::More => final(store)@ == old(store)@ && final(repl)@ == old(repl)@,
            Parse::Bad => {
                &&& r matches StepResult::Step(o)
                &&& o.consumed == buf@.len()
                &&& o.register_follower == false
                &&& o.propagate is None
                &&& final(store)@ == old(store)@
                &&& final(repl)@ == old(repl)@
                &&& match kind {
                    ConnectionKind::Client => o.reply matches Some(b) && b@ == spec_encode_reply(
                        ReplyModel::Error(err_protocol()),
                    ),
                    ConnectionKind::ReplicationChannel => o.reply is None,
                }
            },
            Parse::Found(args, n) => {
                &&& r matches StepResult::Step(o)
                &&& o.consumed == n
                &&& match spec_parse(args) {
                    Err(msg) => {
                        &&& o.register_follower == false
                        &&& o.propagate is None
                        &&& final(store)@ == old(store)@
                        &&& final(repl)@ == old(repl)@
                        &&& match kind {
                            ConnectionKind::Client => o.reply matches Some(b) && b@
                                == spec_encode_reply(ReplyModel::Error(msg)),
                            ConnectionKind::ReplicationChannel => o.reply is None,
                        }
                    },
                    Ok(m) => {
                        &&& final(store)@ == spec_store_after(m, old(store)@, now_ms)
                        &&& match kind {
                            ConnectionKind::Client => o.reply matches Some(b) && b@
                                == spec_encode_reply(
                                spec_reply(
                                    m,
                                    old(store)@,
                                    role.is_master_spec(),
                                    old(repl)@.replid,
                                    old(repl)@.offset,
                                    now_ms,
                                ),
                            ),
                            ConnectionKind::ReplicationChannel => o.reply is None,
                        }
                        &&& o.register_follower == (kind is Client && spec_is_full_psync(m))
                        &&& if role.is_master_spec() && kind is Client && spec_is_write(m) {
                            o.propagate matches Some(p) && p@ == buf@.subrange(0, n)
                                && final(repl)@.offset == (if old(repl)@.offset + n > u64::MAX {
                                u64::MAX
                            } else {
                                (old(repl)@.offset + n) as u64
                            })
                        } else {
                            o.propagate is None && final(repl)@.offset == old(repl)@.offset
                        }
                    },
                }
            },
        },
{
    let (args, consumed) = match decode_frame(buf.as_slice()) {
        Decoded::Incomplete => {
            return StepResult::NeedMore;
        },
        Decoded::Malformed => {
            let reply: Option<Vec<u8>> = match kind {
                ConnectionKind::Client => {
                    proof {
                        reveal_strlit("ERR protocol error");
                    }
                    Some(encode_reply(&Reply::Error(ascii_bytes("ERR protocol error"))))
                },
                ConnectionKind::ReplicationChannel => None,
            };
            return StepResult::Step(
                StepOutcome {
                    reply,
                    register_follower: false,
                    propagate: None,
                    consumed: buf.len(),
                },
            );
        },
        Decoded::Complete { args, consumed } => (args, consumed),
    };
    let cmd = match parse_command(&args) {
        Err(text) => {
            let reply: Option<Vec<u8>> = match kind {
                ConnectionKind::Client => Some(encode_reply(&Reply::Error(text))),
                ConnectionKind::ReplicationChannel => None,
            };
            return StepResult::Step(
                StepOutcome { reply, register_follower: false, propagate: None, consumed },
            );
        },
        Ok(cmd) => cmd,
    };
    let is_write = matches!(cmd, Command::SetKey { .. });
    let is_full_psync = matches!(cmd, Command::Psync { full: true });
    let replid = slice_to_vec(repl.replication_id().as_slice());
    let offset = repl.offset();
    let reply_value = execute_command(cmd, store, role, &replid, offset, now_ms);
    let reply: Option<Vec<u8>> = match kind {
        ConnectionKind::Client => Some(encode_reply(&reply_value)),
        ConnectionKind::ReplicationChannel => None,
    };
    let register_follower = match kind {
        ConnectionKind::Client => is_full_psync,
        ConnectionKind::ReplicationChannel => false,
    };
    let is_client = match kind {
        ConnectionKind::Client => true,
        ConnectionKind::ReplicationChannel => false,
    };
    let propagate: Option<Vec<u8>> = if role.is_master() && is_client && is_write {
        repl.record_propagation(consumed as u64);
        Some(slice_to_vec(slice_subrange(buf.as_slice(), 0, consumed)))
    } else {
        None
    };
    StepResult::Step(StepOutcome { reply, register_follower, propagate, consumed })
}

} // verus!
