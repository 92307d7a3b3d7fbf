//! APPEND: concatenate onto one key's value.

use vstd::prelude::*;
use vstd::string::StringSliceAdditionalSpecFns;

verus! {

use crate::db::{Db, DbView, EntryModel, live};
use crate::resp::{Data, Parser, Val, arg_bytes};

/// The registry entry.
pub fn command() -> (r: (Vec<u8>, super::CommandKind))
    ensures
        r.0@ == "APPEND".spec_bytes(),
        r.1 == super::CommandKind::Append,
{
    (crate::resp::ascii_bytes("APPEND"), super::CommandKind::Append)
}

pub open spec fn append_args_ok(args: Seq<Val>) -> bool {
    args.len() >= 3 && arg_bytes(args[1]) is Some && arg_bytes(args[2]) is Some
}

pub open spec fn append_arg_error(args: Seq<Val>) -> Val {
    if args.len() < 2 {
        Val::Error(super::wrong_args_msg())
    } else if arg_bytes(args[1]) is None {
        Val::Error(super::protocol_msg())
    } else if args.len() < 3 {
        Val::Error(super::wrong_args_msg())
    } else {
        Val::Error(super::protocol_msg())
    }
}

/// Whether the joined value would no longer fit in memory.
pub open spec fn append_too_large(
    k: Seq<u8>,
    v: Seq<u8>,
    m: Map<Seq<u8>, EntryModel>,
    now: u64,
) -> bool {
    live(m, k, now) && m[k].value.len() + v.len() > usize::MAX
}

/// APPEND concatenates onto a live value, keeping its time-to-live, or
/// starts the key afresh with none; it answers the new length.
pub open spec fn spec_append(
    args: Seq<Val>,
    pre: DbView,
    post: DbView,
    reply: Val,
    now: u64,
) -> bool {
    if !append_args_ok(args) {
        post == pre && reply == append_arg_error(args)
    } else {
        let k = arg_bytes(args[1])->0;
        let v = arg_bytes(args[2])->0;
        &&& post.index == pre.index
        &&& post.next_id == pre.next_id
        &&& if append_too_large(k, v, pre.entries, now) {
            post.entries == pre.entries && reply == Val::Error(super::too_large_msg())
        } else if live(pre.entries, k, now) {
            post.entries == pre.entries.insert(
                k,
                EntryModel {
                    value: pre.entries[k].value + v,
                    expiration: pre.entries[k].expiration,
                },
            ) && reply == Val::Integer(super::cap_i64(pre.entries[k].value.len() + v.len() as int))
        } else {
            post.entries == pre.entries.insert(k, EntryModel { value: v, expiration: None })
                && reply == Val::Integer(super::cap_i64(v.len() as int))
        }
    }
}

pub fn execute(p: &mut Parser, db: &mut Db, now: u64) -> (r: Data)
    requires
        old(p).wf(),
        old(p).at() == 1,
        old(db).wf(),
    ensures
        final(p).wf(),
        final(db).wf(),
        spec_append(old(p).args(), old(db)@, final(db)@, r@, now),
{
    let key = match p.next_bytes() {
        Ok(Some(k)) => k,
        Ok(None) => {
            return super::err_wrong_args();
        },
        Err(e) => {
            return super::arg_error_reply(e);
        },
    };
    let value = match p.next_bytes() {
        Ok(Some(v)) => v,
        Ok(None) => {
            return super::err_wrong_args();
        },
        Err(e) => {
            return super::arg_error_reply(e);
        },
    };
    // The joined length must fit; a value that would not is refused
    // before the store is touched.
    match db.get(&key, now) {
        Some(e) => {
            if e.value.len() > usize::MAX - value.len() {
                return super::err_too_large();
            }
        },
        None => {},
    }
    let n = db.append(key, value, now);
    if n as u64 > i64::MAX as u64 {
        Data::Integer(i64::MAX)
    } else {
        Data::Integer(n as i64)
    }
}

} // verus!
