//! Command table: the fixed set of commands the server understands,
//! the parsing step that validates name, arity and option syntax once,
//! and the handlers that run each command against the store and the
//! replication state.

use crate::codec::dec_rep;
use crate::codec::crlf;
use crate::codec::digits_value_acc;
use crate::codec::push_bytes;
use crate::codec::push_crlf;
use crate::codec::push_dec;
use crate::codec::Reply;
use crate::codec::ReplyModel;
use crate::role::ServerRole;
use crate::store::live_at;
use crate::store::spec_expiry;
use crate::store::EntryModel;
use crate::store::KeyspaceStore;
use crate::text::ascii_bytes;
use crate::text::ascii_of;
use crate::text::bytes_eq;
use crate::text::is_decimal_upto;
use crate::text::lower_bytes;
use crate::text::parse_decimal;
use crate::text::to_lower;
use vstd::prelude::*;
use vstd::slice::slice_to_vec;

verus! {

/// Byte value of `'?'`, the full-resync target of PSYNC.
pub const QUESTION: u8 = 63;

/// Byte value of `' '`.
pub const SPACE: u8 = 32;

/// A command of the fixed set, already validated: each variant carries
/// its typed fields, so no handler re-checks argument counts.
pub enum Command {
    /// `PING`
    Ping,
    /// `ECHO message`
    Echo { message: Vec<u8> },
    /// `SET key value [PX milliseconds]`
    SetKey { key: Vec<u8>, value: Vec<u8>, ttl_ms: Option<u64> },
    /// `GET key`
    Get { key: Vec<u8> },
    /// `INFO replication`
    Info,
    /// `REPLCONF listening-port <port>` or `REPLCONF capa <cap>`
    Replconf,
    /// `PSYNC replicationid offset`; `full` holds where the target is `?`
    Psync { full: bool },
}

/// The mathematical shape of a validated command.
pub enum CommandModel {
    Ping,
    Echo(Seq<u8>),
    SetKey { key: Seq<u8>, value: Seq<u8>, ttl_ms: Option<u64> },
    Get(Seq<u8>),
    Info,
    Replconf,
    Psync { full: bool },
}

impl View for Command {
    type V = CommandModel;

    open spec fn view(&self) -> CommandModel {
        match self {
            Command::Ping => CommandModel::Ping,
            Command::Echo { message } => CommandModel::Echo(message@),
            Command::SetKey { key, value, ttl_ms } => CommandModel::SetKey {
                key: key@,
                value: value@,
                ttl_ms: *ttl_ms,
            },
            Command::Get { key } => CommandModel::Get(key@),
            Command::Info => CommandModel::Info,
            Command::Replconf => CommandModel::Replconf,
            Command::Psync { full } => CommandModel::Psync { full: *full },
        }
    }
}

/// Error text for a frame that holds no command name at all.
pub open spec fn err_empty() -> Seq<u8> {
    ascii_of("ERR empty command"@)
}

/// Error text for a wrong argument count.
pub open spec fn arity_err(name: Seq<u8>) -> Seq<u8> {
    ascii_of("ERR wrong number of arguments for '"@) + name + ascii_of("' command"@)
}

/// Error text for a lifetime that is not a decimal number in range.
pub open spec fn err_not_integer() -> Seq<u8> {
    ascii_of("ERR value is not an integer or out of range"@)
}

/// Error text for options that fit no clause of the SET grammar.
pub open spec fn err_syntax() -> Seq<u8> {
    ascii_of("ERR syntax error"@)
}

/// Error text for an INFO section other than replication.
pub open spec fn err_info_section() -> Seq<u8> {
    ascii_of("ERR unsupported INFO section"@)
}

/// Error text for a REPLCONF option that is not recognized.
pub open spec fn err_replconf_option() -> Seq<u8> {
    ascii_of("ERR Unsupported REPLCONF option"@)
}

/// Error text for a command name outside the fixed set.
pub open spec fn err_unknown() -> Seq<u8> {
    ascii_of("ERR unknown command"@)
}

/// What parsing a SET command yields: `SET key value` bare, or with
/// exactly the `PX milliseconds` option; a count under three is an
/// arity error, a malformed lifetime is a value error, and any other
/// shape is a syntax error.
pub open spec fn spec_parse_set(args: Seq<Seq<u8>>) -> Result<CommandModel, Seq<u8>> {
    if args.len() < 3 {
        Err(arity_err(ascii_of("set"@)))
    } else if args.len() == 3 {
        Ok(CommandModel::SetKey { key: args[1], value: args[2], ttl_ms: None })
    } else if args.len() == 5 && lower_bytes(args[3]) == ascii_of("px"@) {
        if is_decimal_upto(args[4], u64::MAX) {
            Ok(
                CommandModel::SetKey {
                    key: args[1],
                    value: args[2],
                    ttl_ms: Some(digits_value_acc(args[4], 0) as u64),
                },
            )
        } else {
            Err(err_not_integer())
        }
    } else {
        Err(err_syntax())
    }
}

/// What parsing a whole argument vector yields: the command names are
/// matched case-insensitively against the fixed set, arities and
/// options are validated here and nowhere else, and every failure is a
/// definite error text.
pub open spec fn spec_parse(args: Seq<Seq<u8>>) -> Result<CommandModel, Seq<u8>> {
    if args.len() == 0 {
        Err(err_empty())
    } else {
        let name = lower_bytes(args[0]);
        if name == ascii_of("ping"@) {
            Ok(CommandModel::Ping)
        } else if name == ascii_of("echo"@) {
            if args.len() == 2 {
                Ok(CommandModel::Echo(args[1]))
            } else {
                Err(arity_err(ascii_of("echo"@)))
            }
        } else if name == ascii_of("set"@) {
            spec_parse_set(args)
        } else if name == ascii_of("get"@) {
            if args.len() >= 2 {
                Ok(CommandModel::Get(args[1]))
            } else {
                Err(arity_err(ascii_of("get"@)))
            }
        } else if name == ascii_of("info"@) {
            if args.len() < 2 {
                Err(arity_err(ascii_of("info"@)))
            } else if lower_bytes(args[1]) == ascii_of("replication"@) {
                Ok(CommandModel::Info)
            } else {
                Err(err_info_section())
            }
        } else if name == ascii_of("replconf"@) {
            if args.len() < 2 {
                Err(arity_err(ascii_of("replconf"@)))
            } else if lower_bytes(args[1]) == ascii_of("listening-port"@) || lower_bytes(args[1])
                == ascii_of("capa"@) {
                Ok(CommandModel::Replconf)
            } else {
                Err(err_replconf_option())
            }
        } else if name == ascii_of("psync"@) {
            if args.len() < 3 {
                Err(arity_err(ascii_of("psync"@)))
            } else {
                Ok(CommandModel::Psync { full: args[1] == seq![QUESTION] })
            }
        } else {
            Err(err_unknown())
        }
    }
}

/// Builds the wrong-arity error text for the named command.
fn arity_err_bytes(name: &str) -> (r: Vec<u8>)
    requires
        name.is_ascii(),
    ensures
        r@ == arity_err(ascii_of(name@)),
{
    proof {
        reveal_strlit("ERR wrong number of arguments for '");
        reveal_strlit("' command");
    }
    let mut out = ascii_bytes("ERR wrong number of arguments for '");
    let mid = ascii_bytes(name);
    push_bytes(&mut out, mid.as_slice());
    let tail = ascii_bytes("' command");
    push_bytes(&mut out, tail.as_slice());
    out
}

/// Validates an argument vector into a command of the fixed set, or
/// the error text owed to the client for it.
pub fn parse_command(args: &Vec<Vec<u8>>) -> (r: Result<Command, Vec<u8>>)
    ensures
        (r matches Ok(c) ==> spec_parse(args.deep_view()) matches Ok(m) && c@ == m),
        (r matches Err(t) ==> spec_parse(args.deep_view()) matches Err(msg) && t@ == msg),
{
    proof {
        assert forall|i: int| 0 <= i < args@.len() implies args.deep_view()[i] == args@[i]@ by {
            assert(args.deep_view()[i] =~= args@[i]@);
        }
    }
    if args.len() == 0 {
        proof {
            reveal_strlit("ERR empty command");
        }
        return Err(ascii_bytes("ERR empty command"));
    }
    let name = to_lower(args[0].as_slice());
    proof {
        reveal_strlit("ping");
        reveal_strlit("echo");
        reveal_strlit("set");
        reveal_strlit("get");
        reveal_strlit("info");
        reveal_strlit("replconf");
        reveal_strlit("psync");
        reveal_strlit("px");
        reveal_strlit("replication");
        reveal_strlit("listening-port");
        reveal_strlit("capa");
    }
    if bytes_eq(name.as_slice(), ascii_bytes("ping").as_slice()) {
        Ok(Command::Ping)
    } else if bytes_eq(name.as_slice(), ascii_bytes("echo").as_slice()) {
        if args.len() == 2 {
            Ok(Command::Echo { message: slice_to_vec(args[1].as_slice()) })
        } else {
            Err(arity_err_bytes("echo"))
        }
    } else if bytes_eq(name.as_slice(), ascii_bytes("set").as_slice()) {
        if args.len() < 3 {
            Err(arity_err_bytes("set"))
        } else if args.len() == 3 {
            Ok(
                Command::SetKey {
                    key: slice_to_vec(args[1].as_slice()),
                    value: slice_to_vec(args[2].as_slice()),
                    ttl_ms: None,
                },
            )
        } else if args.len() == 5 && {
            let opt = to_lower(args[3].as_slice());
            bytes_eq(opt.as_slice(), ascii_bytes("px").as_slice())
        } {
            match parse_decimal(args[4].as_slice(), u64::MAX) {
                Some(ttl) => Ok(
                    Command::SetKey {
                        key: slice_to_vec(args[1].as_slice()),
                        value: slice_to_vec(args[2].as_slice()),
                        ttl_ms: Some(ttl),
                    },
                ),
                None => {
                    proof {
                        reveal_strlit("ERR value is not an integer or out of range");
                    }
                    Err(ascii_bytes("ERR value is not an integer or out of range"))
                },
            }
        } else {
            proof {
                reveal_strlit("ERR syntax error");
            }
            Err(ascii_bytes("ERR syntax error"))
        }
    } else if bytes_eq(name.as_slice(), ascii_bytes("get").as_slice()) {
        if args.len() >= 2 {
            Ok(Command::Get { key: slice_to_vec(args[1].as_slice()) })
        } else {
            Err(arity_err_bytes("get"))
        }
    } else if bytes_eq(name.as_slice(), ascii_bytes("info").as_slice()) {
        if args.len() < 2 {
            Err(arity_err_bytes("info"))
        } else {
            let section = to_lower(args[1].as_slice());
            if bytes_eq(section.as_slice(), ascii_bytes("replication").as_slice()) {
                Ok(Command::Info)
            } else {
                proof {
                    reveal_strlit("ERR unsupported INFO section");
                }
                Err(ascii_bytes("ERR unsupported INFO section"))
            }
        }
    } else if bytes_eq(name.as_slice(), ascii_bytes("replconf").as_slice()) {
        if args.len() < 2 {
            Err(arity_err_bytes("replconf"))
        } else {
            let option = to_lower(args[1].as_slice());
            if bytes_eq(option.as_slice(), ascii_bytes("listening-port").as_slice()) || bytes_eq(
                option.as_slice(),
                ascii_bytes("capa").as_slice(),
            ) {
                Ok(Command::Replconf)
            } else {
                proof {
                    reveal_strlit("ERR Unsupported REPLCONF option");
                }
                Err(ascii_bytes("ERR Unsupported REPLCONF option"))
            }
        }
    } else if bytes_eq(name.as_slice(), ascii_bytes("psync").as_slice()) {
        if args.len() < 3 {
            Err(arity_err_bytes("psync"))
        } else {
            let qmark = vec![QUESTION];
            proof {
                assert(qmark@ =~= seq![QUESTION]);
            }
            let full = bytes_eq(args[1].as_slice(), qmark.as_slice());
            Ok(Command::Psync { full })
        }
    } else {
        proof {
            reveal_strlit("ERR unknown command");
        }
        Err(ascii_bytes("ERR unknown command"))
    }
}

/// The PONG text.
pub open spec fn pong_text() -> Seq<u8> {
    ascii_of("PONG"@)
}

/// The OK text.
pub open spec fn ok_text() -> Seq<u8> {
    ascii_of("OK"@)
}

/// The CONTINUE text, sent for a partial-resync target; partial resync
/// is accepted syntactically but no partial deltas are ever sent.
pub open spec fn continue_text() -> Seq<u8> {
    ascii_of("CONTINUE"@)
}

/// The FULLRESYNC line's text: the word, the replication id, the offset.
pub open spec fn fullresync_text(replid: Seq<u8>, offset: u64) -> Seq<u8> {
    ascii_of("FULLRESYNC "@) + replid + seq![SPACE] + dec_rep(offset as nat)
}

/// The replication section of INFO, framed as one text: the role line,
/// the replication id line, the offset line.
pub open spec fn info_payload(master: bool, replid: Seq<u8>, offset: u64) -> Seq<u8> {
    ascii_of("role:"@) + (if master {
        ascii_of("master"@)
    } else {
        ascii_of("slave"@)
    }) + crlf() + ascii_of("master_replid:"@) + replid + crlf() + ascii_of("master_repl_offset:"@)
        + dec_rep(offset as nat) + crlf()
}

/// PING: replies PONG, always.
pub fn ping_command() -> (r: Reply)
    ensures
        r@ == ReplyModel::Simple(pong_text()),
{
    proof {
        reveal_strlit("PONG");
    }
    Reply::Simple(ascii_bytes("PONG"))
}

/// ECHO: returns the message exactly, byte for byte, as a bulk string.
pub fn echo_command(message: Vec<u8>) -> (r: Reply)
    ensures
        r@ == ReplyModel::Bulk(message@),
{
    Reply::Bulk(message)
}

/// SET: inserts or overwrites the key with the value and the optional
/// lifetime, and acknowledges with OK. Always succeeds.
pub fn set_command(
    store: &mut KeyspaceStore,
    key: Vec<u8>,
    value: Vec<u8>,
    ttl_ms: Option<u64>,
    now_ms: u64,
) -> (r: Reply)
    ensures
        final(store)@ == old(store)@.insert(
            key@,
            EntryModel { value: value@, expire_at: spec_expiry(now_ms, ttl_ms) },
        ),
        r@ == ReplyModel::Simple(ok_text()),
{
    store.set(key, value, ttl_ms, now_ms);
    proof {
        reveal_strlit("OK");
    }
    Reply::Simple(ascii_bytes("OK"))
}

/// GET: the value as a bulk string exactly where the key exists and is
/// alive at `now_ms`; the null bulk reply where it is absent or
/// expired, never an error.
pub fn get_command(store: &KeyspaceStore, key: &Vec<u8>, now_ms: u64) -> (r: Reply)
    ensures
        r@ == if store@.contains_key(key@) && live_at(store@[key@], now_ms) {
            ReplyModel::Bulk(store@[key@].value)
        } else {
            ReplyModel::NullBulk
        },
{
    match store.get(key.as_slice(), now_ms) {
        Some(v) => Reply::Bulk(v),
        None => Reply::NullBulk,
    }
}

/// INFO replication: one bulk string holding the role, the replication
/// id and the replication offset.
pub fn info_command(role: &ServerRole, replid: &Vec<u8>, repl_offset: u64) -> (r: Reply)
    ensures
        r@ == ReplyModel::Bulk(info_payload(role.is_master_spec(), replid@, repl_offset)),
{
    proof {
        reveal_strlit("role:");
        reveal_strlit("master");
        reveal_strlit("slave");
        reveal_strlit("master_replid:");
        reveal_strlit("master_repl_offset:");
    }
    let mut out = ascii_bytes("role:");
    let role_text = if role.is_master() {
        ascii_bytes("master")
    } else {
        ascii_bytes("slave")
    };
    push_bytes(&mut out, role_text.as_slice());
    push_crlf(&mut out);
    let replid_label = ascii_bytes("master_replid:");
    push_bytes(&mut out, replid_label.as_slice());
    push_bytes(&mut out, replid.as_slice());
    push_crlf(&mut out);
    let offset_label = ascii_bytes("master_repl_offset:");
    push_bytes(&mut out, offset_label.as_slice());
    push_dec(&mut out, repl_offset);
    push_crlf(&mut out);
    proof {
        assert(out@ =~= info_payload(role.is_master_spec(), replid@, repl_offset));
    }
    Reply::Bulk(out)
}

/// REPLCONF with a recognized option: acknowledges with OK.
pub fn replconf_command() -> (r: Reply)
    ensures
        r@ == ReplyModel::Simple(ok_text()),
{
    proof {
        reveal_strlit("OK");
    }
    Reply::Simple(ascii_bytes("OK"))
}

/// PSYNC: for the full-resync target `?`, the FULLRESYNC line carrying
/// this process's replication id and current offset; for any other
/// target, CONTINUE.
pub fn psync_command(full: bool, replid: &Vec<u8>, repl_offset: u64) -> (r: Reply)
    ensures
        r@ == ReplyModel::Simple(
            if full {
                fullresync_text(replid@, repl_offset)
            } else {
                continue_text()
            },
        ),
{
    if full {
        proof {
            reveal_strlit("FULLRESYNC ");
        }
        let mut out = ascii_bytes("FULLRESYNC ");
        push_bytes(&mut out, replid.as_slice());
        out.push(SPACE);
        push_dec(&mut out, repl_offset);
        proof {
            assert(out@ =~= fullresync_text(replid@, repl_offset));
        }
        Reply::Simple(out)
    } else {
        proof {
            reveal_strlit("CONTINUE");
        }
        Reply::Simple(ascii_bytes("CONTINUE"))
    }
}

/// Whether a command name, folded to lower case, names a command that
/// mutates the keyspace; only such commands are ever propagated to
/// followers.
pub fn is_write_command(name: &[u8]) -> (r: bool)
    ensures
        r == (lower_bytes(name@) == ascii_of("set"@)),
{
    proof {
        reveal_strlit("set");
    }
    let lowered = to_lower(name);
    bytes_eq(lowered.as_slice(), ascii_bytes("set").as_slice())
}

/// The names of the fixed command set, in the order the table lists
/// them.
pub fn get_commands() -> (r: Vec<Vec<u8>>)
    ensures
        r.deep_view() == seq![
            ascii_of("ping"@),
            ascii_of("echo"@),
            ascii_of("set"@),
            ascii_of("get"@),
            ascii_of("info"@),
            ascii_of("replconf"@),
            ascii_of("psync"@),
        ],
{
    proof {
        reveal_strlit("ping");
        reveal_strlit("echo");
        reveal_strlit("set");
        reveal_strlit("get");
        reveal_strlit("info");
        reveal_strlit("replconf");
        reveal_strlit("psync");
    }
    let mut out: Vec<Vec<u8>> = Vec::new();
    out.push(ascii_bytes("ping"));
    out.push(ascii_bytes("echo"));
    out.push(ascii_bytes("set"));
    out.push(ascii_bytes("get"));
    out.push(ascii_bytes("info"));
    out.push(ascii_bytes("replconf"));
    out.push(ascii_bytes("psync"));
    proof {
        assert(out.deep_view() =~~= seq![
            ascii_of("ping"@),
            ascii_of("echo"@),
            ascii_of("set"@),
            ascii_of("get"@),
            ascii_of("info"@),
            ascii_of("replconf"@),
            ascii_of("psync"@),
        ]);
    }
    out
}

/// Whether a command mutates the keyspace; only such commands are
/// propagated.
pub open spec fn spec_is_write(m: CommandModel) -> bool {
    m is SetKey
}

/// Whether a command is a PSYNC with the full-resync target, the one
/// reply after which the snapshot and follower registration follow.
pub open spec fn spec_is_full_psync(m: CommandModel) -> bool {
    m matches CommandModel::Psync { full: true }
}

/// The reply each command of the fixed set is owed, over the store as
/// it stood when the command ran.
pub open spec fn spec_reply(
    m: CommandModel,
    store: Map<Seq<u8>, EntryModel>,
    master: bool,
    replid: Seq<u8>,
    offset: u64,
    now_ms: u64,
) -> ReplyModel {
    match m {
        CommandModel::Ping => ReplyModel::Simple(pong_text()),
        CommandModel::Echo(t) => ReplyModel::Bulk(t),
        CommandModel::SetKey { .. } => ReplyModel::Simple(ok_text()),
        CommandModel::Get(k) => if store.contains_key(k) && live_at(store[k], now_ms) {
            ReplyModel::Bulk(store[k].value)
        } else {
            ReplyModel::NullBulk
        },
        CommandModel::Info => ReplyModel::Bulk(info_payload(master, replid, offset)),
        CommandModel::Replconf => ReplyModel::Simple(ok_text()),
        CommandModel::Psync { full } => ReplyModel::Simple(
            if full {
                fullresync_text(replid, offset)
            } else {
                continue_text()
            },
        ),
    }
}

/// What a command leaves in the store: a SET inserts its entry; every
/// other command leaves the store as it was.
pub open spec fn spec_store_after(
    m: CommandModel,
    store: Map<Seq<u8>, EntryModel>,
    now_ms: u64,
) -> Map<Seq<u8>, EntryModel> {
    match m {
        CommandModel::SetKey { key, value, ttl_ms } => store.insert(
            key,
            EntryModel { value: value, expire_at: spec_expiry(now_ms, ttl_ms) },
        ),
        _ => store,
    }
}

/// Runs one validated command against the store, the role and the
/// replication identity, and returns the one reply owed for it.
pub fn execute_command(
    cmd: Command,
    store: &mut KeyspaceStore,
    role: &ServerRole,
    replid: &Vec<u8>,
    repl_offset: u64,
    now_ms: u64,
) -> (r: Reply)
    ensures
        r@ == spec_reply(
            cmd@,
            old(store)@,
            role.is_master_spec(),
            replid@,
            repl_offset,
            now_ms,
        ),
        final(store)@ == spec_store_after(cmd@, old(store)@, now_ms),
{
    match cmd {
        Command::Ping => ping_command(),
        Command::Echo { message } => echo_command(message),
        Command::SetKey { key, value, ttl_ms } => set_command(store, key, value, ttl_ms, now_ms),
        Command::Get { key } => get_command(store, &key, now_ms),
        Command::Info => info_command(role, replid, repl_offset),
        Command::Replconf => replconf_command(),
        Command::Psync { full } => psync_command(full, replid, repl_offset),
    }
}

} // verus!
