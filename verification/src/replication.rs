//! Replication coordinator: the leader's replication identity and
//! offset, its ordered collection of streaming followers, the follower
//! side's handshake sequence, and the placeholder snapshot that a full
//! resync transfers.

use crate::codec::spec_encode_frame;
use crate::codec::spec_encode_reply;
use crate::codec::dec_rep;
use crate::codec::encode_frame;
use crate::codec::encode_reply;
use crate::codec::push_dec;
use crate::codec::Reply;
use crate::codec::ReplyModel;
use crate::codec::lemma_encode_decode_roundtrip;
use crate::codec::parse_frame;
use crate::codec::Parse;
use crate::command::fullresync_text;
use crate::command::spec_parse;
use crate::command::spec_store_after;
use crate::command::CommandModel;
use crate::store::live_at;
use crate::store::EntryModel;
use crate::text::ascii_bytes;
use crate::text::lower_bytes;
use crate::text::ascii_of;
use crate::text::hex_decode_spec;
use crate::text::is_hex_digit;
use crate::text::valid_hex;
use vstd::prelude::*;

verus! {

/// The replication id this process announces for its whole lifetime:
/// generated once per process in spirit, fixed here, never persisted.
pub open spec fn master_replid() -> Seq<u8> {
    ascii_of("8371b4fb1155b71f4a04d3e1bc3e18c4a990aeeb"@)
}

/// The replication id is forty hexadecimal characters.
pub proof fn lemma_replid_well_formed()
    ensures
        master_replid().len() == 40,
        forall|i: int| 0 <= i < 40 ==> is_hex_digit(#[trigger] master_replid()[i]),
{
    reveal_strlit("8371b4fb1155b71f4a04d3e1bc3e18c4a990aeeb");
}

/// The replication id, as bytes.
pub fn master_replid_bytes() -> (r: Vec<u8>)
    ensures
        r@ == master_replid(),
{
    proof {
        reveal_strlit("8371b4fb1155b71f4a04d3e1bc3e18c4a990aeeb");
    }
    ascii_bytes("8371b4fb1155b71f4a04d3e1bc3e18c4a990aeeb")
}

/// The mathematical shape of the replication state: the fixed id, the
/// cumulative byte count of propagated write traffic, and the streaming
/// followers' handles in registration order.
pub struct ReplModel {
    pub replid: Seq<u8>,
    pub offset: u64,
    pub followers: Seq<u64>,
}

/// Leader-side replication state. Followers appear here only once they
/// have received a FULLRESYNC and the snapshot; the handles are opaque
/// tokens the caller ties to its output sockets.
pub struct ReplicationState {
    replication_id: Vec<u8>,
    replication_offset: u64,
    followers: Vec<u64>,
}

impl View for ReplicationState {
    type V = ReplModel;

    closed spec fn view(&self) -> ReplModel {
        ReplModel {
            replid: self.replication_id@,
            offset: self.replication_offset,
            followers: self.followers@,
        }
    }
}

impl ReplicationState {
    /// Fresh state: the fixed replication id, offset zero, no follower.
    pub fn new() -> (s: Self)
        ensures
            s@.replid == master_replid(),
            s@.offset == 0,
            s@.followers == Seq::<u64>::empty(),
    {
        let s = ReplicationState {
            replication_id: master_replid_bytes(),
            replication_offset: 0,
            followers: Vec::new(),
        };
        proof {
            assert(s@.followers =~= Seq::<u64>::empty());
        }
        s
    }

    /// The replication id this process announces.
    pub fn replication_id(&self) -> (r: &Vec<u8>)
        ensures
            r@ == self@.replid,
    {
        &self.replication_id
    }

    /// The cumulative byte count of propagated write traffic.
    pub fn offset(&self) -> (r: u64)
        ensures
            r == self@.offset,
    {
        self.replication_offset
    }

    /// How many followers are streaming.
    pub fn follower_count(&self) -> (r: usize)
        ensures
            r == self@.followers.len(),
    {
        self.followers.len()
    }

    /// The handle of the follower at `i`, in registration order.
    pub fn follower_at(&self, i: usize) -> (r: u64)
        requires
            i < self@.followers.len(),
        ensures
            r == self@.followers[i as int],
    {
        self.followers[i]
    }

    /// Registers a follower that has just received FULLRESYNC and the
    /// snapshot: it joins the end of the streaming set; the id and the
    /// offset do not move.
    pub fn register_follower(&mut self, handle: u64)
        ensures
            final(self)@.followers == old(self)@.followers.push(handle),
            final(self)@.replid == old(self)@.replid,
            final(self)@.offset == old(self)@.offset,
    {
        self.followers.push(handle);
    }

    /// Removes every copy of a dead follower's handle: a write failure
    /// ends that follower for good, with no retry; the id and the
    /// offset do not move.
    pub fn remove_follower(&mut self, handle: u64)
        ensures
            final(self)@.followers == old(self)@.followers.filter(|h: u64| h != handle),
            final(self)@.replid == old(self)@.replid,
            final(self)@.offset == old(self)@.offset,
    {
        let ghost pred = |h: u64| h != handle;
        let mut kept: Vec<u64> = Vec::new();
        let mut i: usize = 0;
        proof {
            reveal(Seq::filter);
        }
        while i < self.followers.len()
            invariant
                i <= self.followers@.len(),
                kept@ == self.followers@.take(i as int).filter(|h: u64| h != handle),
            decreases self.followers@.len() - i,
        {
            let h = self.followers[i];
            proof {
                reveal(Seq::filter);
                let t = self.followers@.take(i as int);
                let t2 = self.followers@.take(i + 1);
                assert(t2.drop_last() =~= t);
                assert(t2.last() == self.followers@[i as int]);
            }
            if h != handle {
                kept.push(h);
            }
            i = i + 1;
        }
        proof {
            assert(self.followers@.take(self.followers@.len() as int) =~= self.followers@);
        }
        self.followers = kept;
    }

    /// Advances the offset by the exact byte length of a write command
    /// just forwarded to the followers, held at the top of the counter's
    /// range where the sum would not fit. The offset never decreases;
    /// the id and the followers do not move.
    pub fn record_propagation(&mut self, n: u64)
        ensures
            final(self)@.offset == if old(self)@.offset + n > u64::MAX {
                u64::MAX
            } else {
                (old(self)@.offset + n) as u64
            },
            final(self)@.offset >= old(self)@.offset,
            final(self)@.replid == old(self)@.replid,
            final(self)@.followers == old(self)@.followers,
    {
        if n > u64::MAX - self.replication_offset {
            self.replication_offset = u64::MAX;
        } else {
            self.replication_offset = self.replication_offset + n;
        }
    }
}

/// Relies on hex::decode: it succeeds exactly on an even-length run of
/// hexadecimal digits (either case), and yields one byte per digit
/// pair, high digit first.
#[verifier::external_body]
fn decode_hex(s: &[u8]) -> (r: Option<Vec<u8>>)
    ensures
        r is Some <==> valid_hex(s@),
        (r matches Some(v) ==> v@ == hex_decode_spec(s@)),
{
    match hex::decode(s) {
        Ok(v) => Some(v),
        Err(_) => None,
    }
}

/// The hexadecimal writing of the placeholder snapshot: a fixed image
/// of an empty keyspace. It does not serialize the store's contents.
pub open spec fn snapshot_hex() -> Seq<u8> {
    ascii_of(
        "524544495330303131fa0972656469732d76657205372e322e30fa0a72656469732d62697473c040fa056374696d65c26d08bc65fa08757365642d6d656dc2b0c41000fa08616f662d62617365c000fff06e3bfec0ff5aa2"@,
    )
}

/// The bytes of the placeholder snapshot: the fixed image where its
/// hexadecimal writing is well formed, the empty image otherwise.
pub open spec fn snapshot_payload() -> Seq<u8> {
    if valid_hex(snapshot_hex()) {
        hex_decode_spec(snapshot_hex())
    } else {
        Seq::empty()
    }
}

/// The placeholder snapshot a full resync transfers.
pub fn snapshot_bytes() -> (r: Vec<u8>)
    ensures
        r@ == snapshot_payload(),
{
    proof {
        reveal_strlit(
            "524544495330303131fa0972656469732d76657205372e322e30fa0a72656469732d62697473c040fa056374696d65c26d08bc65fa08757365642d6d656dc2b0c41000fa08616f662d62617365c000fff06e3bfec0ff5aa2",
        );
    }
    let hex_text = ascii_bytes(
        "524544495330303131fa0972656469732d76657205372e322e30fa0a72656469732d62697473c040fa056374696d65c26d08bc65fa08757365642d6d656dc2b0c41000fa08616f662d62617365c000fff06e3bfec0ff5aa2",
    );
    match decode_hex(hex_text.as_slice()) {
        Some(v) => v,
        None => Vec::new(),
    }
}

/// The snapshot transfer as it goes over the wire: the raw-payload
/// framing, with no trailing line terminator.
pub fn empty_snapshot_frame() -> (r: Vec<u8>)
    ensures
        r@ == spec_encode_reply(ReplyModel::Raw(snapshot_payload())),
{
    let payload = snapshot_bytes();
    encode_reply(&Reply::Raw(payload))
}

/// Where the follower's handshake stands: which message has been sent
/// and acknowledged so far.
pub enum HandshakeState {
    /// Nothing sent yet.
    Start,
    /// PING sent.
    SentPing,
    /// REPLCONF listening-port sent.
    SentPort,
    /// REPLCONF capa sent.
    SentCapa,
    /// PSYNC sent; the FULLRESYNC line and the snapshot follow, and the
    /// same socket then carries the leader's write stream.
    SentPsync,
}

/// The follower's handshake, one step at a time: for the state reached
/// so far, the exact frame to send next and the state that sending it
/// reaches; nothing after PSYNC. The caller performs the sends and
/// reads each acknowledgement in between.
pub fn handshake_next(state: &HandshakeState, own_port: u16) -> (r: Option<(
    Vec<u8>,
    HandshakeState,
)>)
    ensures
        match state {
            HandshakeState::Start => r matches Some((m, s2)) && m@ == spec_encode_frame(
                seq![ascii_of("PING"@)],
            ) && s2 is SentPing,
            HandshakeState::SentPing => r matches Some((m, s2)) && m@ == spec_encode_frame(
                seq![
                    ascii_of("REPLCONF"@),
                    ascii_of("listening-port"@),
                    dec_rep(own_port as nat),
                ],
            ) && s2 is SentPort,
            HandshakeState::SentPort => r matches Some((m, s2)) && m@ == spec_encode_frame(
                seq![ascii_of("REPLCONF"@), ascii_of("capa"@), ascii_of("psync2"@)],
            ) && s2 is SentCapa,
            HandshakeState::SentCapa => r matches Some((m, s2)) && m@ == spec_encode_frame(
                seq![ascii_of("PSYNC"@), ascii_of("?"@), ascii_of("-1"@)],
            ) && s2 is SentPsync,
            HandshakeState::SentPsync => r is None,
        },
{
    match state {
        HandshakeState::Start => {
            proof {
                reveal_strlit("PING");
            }
            let mut args: Vec<Vec<u8>> = Vec::new();
            args.push(ascii_bytes("PING"));
            proof {
                assert(args.deep_view() =~~= seq![ascii_of("PING"@)]);
            }
            Some((encode_frame(&args), HandshakeState::SentPing))
        },
        HandshakeState::SentPing => {
            proof {
                reveal_strlit("REPLCONF");
                reveal_strlit("listening-port");
            }
            let mut args: Vec<Vec<u8>> = Vec::new();
            args.push(ascii_bytes("REPLCONF"));
            args.push(ascii_bytes("listening-port"));
            let mut port: Vec<u8> = Vec::new();
            push_dec(&mut port, own_port as u64);
            args.push(port);
            proof {
                assert(args.deep_view() =~~= seq![
                    ascii_of("REPLCONF"@),
                    ascii_of("listening-port"@),
                    dec_rep(own_port as nat),
                ]);
            }
            Some((encode_frame(&args), HandshakeState::SentPort))
        },
        HandshakeState::SentPort => {
            proof {
                reveal_strlit("REPLCONF");
                reveal_strlit("capa");
                reveal_strlit("psync2");
            }
            let mut args: Vec<Vec<u8>> = Vec::new();
            args.push(ascii_bytes("REPLCONF"));
            args.push(ascii_bytes("capa"));
            args.push(ascii_bytes("psync2"));
            proof {
                assert(args.deep_view() =~~= seq![
                    ascii_of("REPLCONF"@),
                    ascii_of("capa"@),
                    ascii_of("psync2"@),
                ]);
            }
            Some((encode_frame(&args), HandshakeState::SentCapa))
        },
        HandshakeState::SentCapa => {
            proof {
                reveal_strlit("PSYNC");
                reveal_strlit("?");
                reveal_strlit("-1");
            }
            let mut args: Vec<Vec<u8>> = Vec::new();
            args.push(ascii_bytes("PSYNC"));
            args.push(ascii_bytes("?"));
            args.push(ascii_bytes("-1"));
            proof {
                assert(args.deep_view() =~~= seq![
                    ascii_of("PSYNC"@),
                    ascii_of("?"@),
                    ascii_of("-1"@),
                ]);
            }
            Some((encode_frame(&args), HandshakeState::SentPsync))
        },
        HandshakeState::SentPsync => None,
    }
}

/// Law: a write the leader propagates reaches the follower whole. The
/// exact wire bytes of `SET key value`, forwarded byte for byte,
/// decode on the follower to the same command and nothing else; and
/// applying that command to the follower's keyspace leaves a GET of
/// the key returning the value, at any instant whatever.
pub proof fn lemma_propagated_set_applies(
    key: Seq<u8>,
    value: Seq<u8>,
    m: Map<Seq<u8>, EntryModel>,
    now: u64,
    later: u64,
)
    requires
        key.len() <= usize::MAX,
        value.len() <= usize::MAX,
    ensures
        ({
            let args = seq![ascii_of("set"@), key, value];
            let wire = spec_encode_frame(args);
            let cmd = CommandModel::SetKey { key: key, value: value, ttl_ms: None };
            let after = spec_store_after(cmd, m, now);
            &&& parse_frame(wire) == Parse::<Seq<Seq<u8>>>::Found(args, wire.len() as int)
            &&& spec_parse(args) == Ok::<CommandModel, Seq<u8>>(cmd)
            &&& after.contains_key(key)
            &&& after[key].value == value
            &&& live_at(after[key], later)
        }),
{
    reveal_strlit("set");
    reveal_strlit("ping");
    reveal_strlit("echo");
    let args = seq![ascii_of("set"@), key, value];
    let wire = spec_encode_frame(args);
    assert(args[0].len() == 3);
    lemma_encode_decode_roundtrip(args, Seq::empty());
    assert(wire + Seq::<u8>::empty() =~= wire);
    assert(lower_bytes(args[0]) =~= ascii_of("set"@));
    assert(lower_bytes(args[0]) != ascii_of("ping"@));
    assert(lower_bytes(args[0]) != ascii_of("echo"@));
}

/// Law: the FULLRESYNC line names the replication id in a fixed place,
/// so two handshakes against the same leader read the same id whatever
/// the offsets were when each arrived.
pub proof fn lemma_fullresync_same_id(replid: Seq<u8>, o1: u64, o2: u64)
    requires
        replid.len() == 40,
    ensures
        fullresync_text(replid, o1).subrange(11, 51) == replid,
        fullresync_text(replid, o1).subrange(11, 51) == fullresync_text(replid, o2).subrange(
            11,
            51,
        ),
{
    reveal_strlit("FULLRESYNC ");
    assert(fullresync_text(replid, o1).subrange(11, 51) =~= replid);
    assert(fullresync_text(replid, o2).subrange(11, 51) =~= replid);
}

} // verus!
