//! PERSIST: clear one key's time-to-live.

use vstd::prelude::*;
use vstd::string::StringSliceAdditionalSpecFns;

verus! {

use crate::db::{Db, DbView, EntryModel, live};
use crate::resp::{Data, Parser, Val, arg_bytes};

/// The registry entry.
pub fn command() -> (r: (Vec<u8>, super::CommandKind))
    ensures
        r.0@ == "PERSIST".spec_bytes(),
        r.1 == super::CommandKind::Persist,
{
    (crate::resp::ascii_bytes("PERSIST"), super::CommandKind::Persist)
}

/// Whether PERSIST clears anything: a live entry that has an instant.
pub open spec fn persist_clears(args: Seq<Val>, m: Map<Seq<u8>, EntryModel>, now: u64) -> bool {
    let k = arg_bytes(args[1])->0;
    live(m, k, now) && m[k].expiration is Some
}

pub open spec fn persist_args_ok(args: Seq<Val>) -> bool {
    args.len() == 2 && arg_bytes(args[1]) is Some
}

pub open spec fn persist_arg_error(args: Seq<Val>) -> Val {
    if args.len() < 2 {
        Val::Error(super::wrong_args_msg())
    } else if arg_bytes(args[1]) is None {
        Val::Error(super::protocol_msg())
    } else {
        Val::Error(super::end_check_msg(args, 2))
    }
}

/// PERSIST answers 1 and drops the instant exactly when the key is
/// live with a time-to-live; otherwise 0 and no change.
pub open spec fn spec_persist(
    args: Seq<Val>,
    pre: DbView,
    post: DbView,
    reply: Val,
    now: u64,
) -> bool {
    if !persist_args_ok(args) {
        post == pre && reply == persist_arg_error(args)
    } else {
        let k = arg_bytes(args[1])->0;
        &&& post.index == pre.index
        &&& post.next_id == pre.next_id
        &&& if persist_clears(args, pre.entries, now) {
            reply == Val::Integer(1) && post.entries == pre.entries.insert(
                k,
                EntryModel { value: pre.entries[k].value, expiration: None },
            )
        } else {
            reply == Val::Integer(0) && post.entries == pre.entries
        }
    }
}

pub fn execute(p: &mut Parser, db: &mut Db, now: u64) -> (r: Data)
    requires
        old(p).wf(),
        old(p).at() == 1,
        old(db).wf(),
    ensures
        final(p).wf(),
        final(db).wf(),
        spec_persist(old(p).args(), old(db)@, final(db)@, r@, now),
{
    let key = match p.next_bytes() {
        Ok(Some(k)) => k,
        Ok(None) => {
            return super::err_wrong_args();
        },
        Err(e) => {
            return super::arg_error_reply(e);
        },
    };
    if let Some(d) = super::check_end(p) {
        return d;
    }
    if db.persist(&key, now) {
        Data::Integer(1)
    } else {
        Data::Integer(0)
    }
}

} // verus!
