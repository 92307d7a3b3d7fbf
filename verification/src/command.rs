//! The command layer: from a decoded request array to a reply and a
//! store effect.
//!
//! A request is an array of scalar strings. The first element, read
//! ASCII-uppercased, names the command; a registry maps that name to a
//! command kind, and a central switch applies it. Arity and option
//! errors become RESP error replies and leave the store alone.

use vstd::prelude::*;
use vstd::string::StringSliceAdditionalSpecFns;

pub mod append;
pub mod del;
pub mod exists_cmd;
pub mod expire;
pub mod get;
pub mod getex;
pub mod persist;
pub mod ping;
pub mod set;
pub mod ttl;

verus! {

use crate::resp::{Data, Parser, Val, ArgError, arg_bytes, ascii_bytes, ascii_upper};

// ------------------------------------------------------------------
// Error replies
// ------------------------------------------------------------------

pub open spec fn wrong_args_msg() -> Seq<u8> {
    "wrong number of arguments for command".spec_bytes()
}

pub open spec fn syntax_msg() -> Seq<u8> {
    "syntax error".spec_bytes()
}

pub open spec fn not_integer_msg() -> Seq<u8> {
    "value is not an integer or out of range".spec_bytes()
}

pub open spec fn protocol_msg() -> Seq<u8> {
    "protocol error".spec_bytes()
}

pub open spec fn too_large_msg() -> Seq<u8> {
    "string exceeds maximum allowed size".spec_bytes()
}

pub open spec fn unknown_msg(name: Seq<u8>) -> Seq<u8> {
    "Unknown or disabled command '".spec_bytes() + name + "'".spec_bytes()
}

pub fn err_wrong_args() -> (r: Data)
    ensures
        r@ == Val::Error(wrong_args_msg()),
{
    Data::error("wrong number of arguments for command")
}

pub fn err_syntax() -> (r: Data)
    ensures
        r@ == Val::Error(syntax_msg()),
{
    Data::error("syntax error")
}

pub fn err_not_integer() -> (r: Data)
    ensures
        r@ == Val::Error(not_integer_msg()),
{
    Data::error("value is not an integer or out of range")
}

pub fn err_protocol() -> (r: Data)
    ensures
        r@ == Val::Error(protocol_msg()),
{
    Data::error("protocol error")
}

pub fn err_too_large() -> (r: Data)
    ensures
        r@ == Val::Error(too_large_msg()),
{
    Data::error("string exceeds maximum allowed size")
}

/// The message a failed cursor pull maps to.
pub open spec fn arg_error_msg(e: ArgError) -> Seq<u8> {
    match e {
        ArgError::NotScalar => protocol_msg(),
        ArgError::NotInteger => not_integer_msg(),
    }
}

pub fn arg_error_reply(e: ArgError) -> (r: Data)
    ensures
        r@ == Val::Error(arg_error_msg(e)),
{
    match e {
        ArgError::NotScalar => err_protocol(),
        ArgError::NotInteger => err_not_integer(),
    }
}

// ------------------------------------------------------------------
// Shared pieces
// ------------------------------------------------------------------

/// Whether a time argument counts seconds or milliseconds.
#[derive(Debug, PartialEq, Eq, Structural, Clone, Copy)]
pub enum TimeUnit {
    Second,
    Millisecond,
}

/// One registered command.
#[derive(Debug, PartialEq, Eq, Structural, Clone, Copy)]
pub enum CommandKind {
    Get,
    SetCmd,
    Ttl(TimeUnit),
    Del,
    Exists,
    Ping,
    Persist,
    Append,
    GetEx,
    Expire(TimeUnit),
}

pub open spec fn unit_factor(unit: TimeUnit) -> int {
    match unit {
        TimeUnit::Second => 1000,
        TimeUnit::Millisecond => 1,
    }
}

/// The absolute instant `n` units after `now`, saturating at the far
/// end of the clock.
pub open spec fn expiry_at(now: u64, n: u64, unit: TimeUnit) -> u64 {
    if now + n * unit_factor(unit) > u64::MAX {
        u64::MAX
    } else {
        (now + n * unit_factor(unit)) as u64
    }
}

pub fn expiry_from(now: u64, n: u64, unit: TimeUnit) -> (r: u64)
    ensures
        r == expiry_at(now, n, unit),
{
    let scaled: Option<u64> = match unit {
        TimeUnit::Second => n.checked_mul(1000),
        TimeUnit::Millisecond => Some(n),
    };
    match scaled {
        Some(s) => match now.checked_add(s) {
            Some(t) => t,
            None => u64::MAX,
        },
        None => u64::MAX,
    }
}

/// An integer reply saturates at the largest wire integer.
pub open spec fn cap_i64(n: int) -> int {
    if n > i64::MAX {
        i64::MAX as int
    } else {
        n
    }
}

/// The error a trailing-argument check reports: one more scalar is too
/// many arguments; one more non-scalar is a protocol error.
pub open spec fn end_check_msg(args: Seq<Val>, i: int) -> Seq<u8> {
    if arg_bytes(args[i]) is Some {
        wrong_args_msg()
    } else {
        protocol_msg()
    }
}

/// Demand that the cursor has reached the end of the request.
pub fn check_end(p: &mut Parser) -> (r: Option<Data>)
    requires
        old(p).wf(),
    ensures
        final(p).wf(),
        final(p).args() == old(p).args(),
        match r {
            None => old(p).at() >= old(p).args().len(),
            Some(d) => old(p).at() < old(p).args().len() && d@ == Val::Error(
                end_check_msg(old(p).args(), old(p).at()),
            ),
        },
{
    match p.next_bytes() {
        Ok(None) => None,
        Ok(Some(_)) => Some(err_wrong_args()),
        Err(_) => Some(err_protocol()),
    }
}

// ------------------------------------------------------------------
// The registry and the switch
// ------------------------------------------------------------------

use crate::db::{Db, DbView};

/// Which command an uppercased name stands for.
pub open spec fn spec_lookup(name: Seq<u8>) -> Option<CommandKind> {
    if name == "GET".spec_bytes() {
        Some(CommandKind::Get)
    } else if name == "SET".spec_bytes() {
        Some(CommandKind::SetCmd)
    } else if name == "TTL".spec_bytes() {
        Some(CommandKind::Ttl(TimeUnit::Second))
    } else if name == "PTTL".spec_bytes() {
        Some(CommandKind::Ttl(TimeUnit::Millisecond))
    } else if name == "DEL".spec_bytes() {
        Some(CommandKind::Del)
    } else if name == "EXISTS".spec_bytes() {
        Some(CommandKind::Exists)
    } else if name == "PING".spec_bytes() {
        Some(CommandKind::Ping)
    } else if name == "PERSIST".spec_bytes() {
        Some(CommandKind::Persist)
    } else if name == "APPEND".spec_bytes() {
        Some(CommandKind::Append)
    } else if name == "GETEX".spec_bytes() {
        Some(CommandKind::GetEx)
    } else if name == "EXPIRE".spec_bytes() {
        Some(CommandKind::Expire(TimeUnit::Second))
    } else if name == "PEXPIRE".spec_bytes() {
        Some(CommandKind::Expire(TimeUnit::Millisecond))
    } else {
        None
    }
}

/// Find a command by its uppercased name, through the registry
/// entries of the command modules.
pub fn lookup(name: &Vec<u8>) -> (r: Option<CommandKind>)
    ensures
        r == spec_lookup(name@),
{
    let (n, k) = get::command();
    if crate::db::bytes_eq(name, &n) {
        return Some(k);
    }
    let (n, k) = set::command();
    if crate::db::bytes_eq(name, &n) {
        return Some(k);
    }
    let (n, k) = ttl::command(TimeUnit::Second);
    if crate::db::bytes_eq(name, &n) {
        return Some(k);
    }
    let (n, k) = ttl::command(TimeUnit::Millisecond);
    if crate::db::bytes_eq(name, &n) {
        return Some(k);
    }
    let (n, k) = del::command();
    if crate::db::bytes_eq(name, &n) {
        return Some(k);
    }
    let (n, k) = exists_cmd::command();
    if crate::db::bytes_eq(name, &n) {
        return Some(k);
    }
    let (n, k) = ping::command();
    if crate::db::bytes_eq(name, &n) {
        return Some(k);
    }
    let (n, k) = persist::command();
    if crate::db::bytes_eq(name, &n) {
        return Some(k);
    }
    let (n, k) = append::command();
    if crate::db::bytes_eq(name, &n) {
        return Some(k);
    }
    let (n, k) = getex::command();
    if crate::db::bytes_eq(name, &n) {
        return Some(k);
    }
    let (n, k) = expire::command(TimeUnit::Second);
    if crate::db::bytes_eq(name, &n) {
        return Some(k);
    }
    let (n, k) = expire::command(TimeUnit::Millisecond);
    if crate::db::bytes_eq(name, &n) {
        return Some(k);
    }
    None
}

/// What one request does to the store and answers: a malformed or
/// empty request earns a protocol error, an unknown name says so, and
/// each command keeps its own word.
pub open spec fn dispatch_spec(v: Val, pre: DbView, post: DbView, reply: Val, now: u64) -> bool {
    if !(v is Array) || v->Array_0.len() == 0 {
        post == pre && reply == Val::Error(protocol_msg())
    } else {
        let args = v->Array_0;
        match arg_bytes(args[0]) {
            None => post == pre && reply == Val::Error(protocol_msg()),
            Some(nb) => {
                let name = ascii_upper(nb);
                match spec_lookup(name) {
                    None => post == pre && reply == Val::Error(unknown_msg(name)),
                    Some(kind) => match kind {
                        CommandKind::Get => get::spec_get(args, pre, post, reply, now),
                        CommandKind::SetCmd => set::spec_set(args, pre, post, reply, now),
                        CommandKind::Ttl(u) => ttl::spec_ttl(args, pre, post, reply, now, u),
                        CommandKind::Del => del::spec_del(args, pre, post, reply, now),
                        CommandKind::Exists => exists_cmd::spec_exists(args, pre, post, reply, now),
                        CommandKind::Ping => ping::spec_ping(args, pre, post, reply),
                        CommandKind::Persist => persist::spec_persist(args, pre, post, reply, now),
                        CommandKind::Append => append::spec_append(args, pre, post, reply, now),
                        CommandKind::GetEx => getex::spec_getex(args, pre, post, reply, now),
                        CommandKind::Expire(u) => expire::spec_expire(
                            args,
                            pre,
                            post,
                            reply,
                            now,
                            u,
                        ),
                    },
                }
            },
        }
    }
}

/// Apply one decoded request to the store at the given instant.
pub fn execute(cmd: Data, db: &mut Db, now: u64) -> (r: Data)
    requires
        old(db).wf(),
    ensures
        final(db).wf(),
        dispatch_spec(cmd@, old(db)@, final(db)@, r@, now),
{
    let ghost v = cmd@;
    let mut p = match Parser::new(cmd) {
        Some(p) => p,
        None => {
            return err_protocol();
        },
    };
    let name = match p.next_upper() {
        Ok(Some(nb)) => nb,
        Ok(None) => vstd::pervasive::unreached(),
        Err(e) => {
            return arg_error_reply(e);
        },
    };
    match lookup(&name) {
        None => {
            let mut msg = ascii_bytes("Unknown or disabled command '");
            crate::resp::push_all(&mut msg, &name);
            let tail = ascii_bytes("'");
            crate::resp::push_all(&mut msg, &tail);
            proof {
                assert(msg@ =~= unknown_msg(name@));
            }
            Data::Error(msg)
        },
        Some(kind) => match kind {
            CommandKind::Get => get::execute(&mut p, db, now),
            CommandKind::SetCmd => set::execute(&mut p, db, now),
            CommandKind::Ttl(u) => ttl::execute(&mut p, db, now, u),
            CommandKind::Del => del::execute(&mut p, db, now),
            CommandKind::Exists => exists_cmd::execute(&mut p, db, now),
            CommandKind::Ping => ping::execute(&mut p),
            CommandKind::Persist => persist::execute(&mut p, db, now),
            CommandKind::Append => append::execute(&mut p, db, now),
            CommandKind::GetEx => getex::execute(&mut p, db, now),
            CommandKind::Expire(u) => expire::execute(&mut p, db, now, u),
        },
    }
}

} // verus!
