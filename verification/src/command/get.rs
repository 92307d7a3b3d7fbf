//! GET: read one key's value.

use vstd::prelude::*;
use vstd::string::StringSliceAdditionalSpecFns;

verus! {

use crate::db::{Db, DbView, EntryModel, live};
use crate::resp::{Data, Parser, Val, arg_bytes};

/// The registry entry.
pub fn command() -> (r: (Vec<u8>, super::CommandKind))
    ensures
        r.0@ == "GET".spec_bytes(),
        r.1 == super::CommandKind::Get,
{
    (crate::resp::ascii_bytes("GET"), super::CommandKind::Get)
}

/// What GET answers: the live value as a bulk, a null bulk when the
/// key is absent or expired, and the arity and shape errors otherwise.
pub open spec fn get_reply(args: Seq<Val>, m: Map<Seq<u8>, EntryModel>, now: u64) -> Val {
    if args.len() < 2 {
        Val::Error(super::wrong_args_msg())
    } else if arg_bytes(args[1]) is None {
        Val::Error(super::protocol_msg())
    } else if args.len() > 2 {
        Val::Error(super::end_check_msg(args, 2))
    } else {
        let k = arg_bytes(args[1])->0;
        if live(m, k, now) {
            Val::Bulk(m[k].value)
        } else {
            Val::NullBulk
        }
    }
}

/// GET reads and answers as `get_reply` says.
pub open spec fn spec_get(args: Seq<Val>, pre: DbView, post: DbView, reply: Val, now: u64) -> bool {
    post == pre && reply == get_reply(args, pre.entries, now)
}

pub fn execute(p: &mut Parser, db: &Db, now: u64) -> (r: Data)
    requires
        old(p).wf(),
        old(p).at() == 1,
        db.wf(),
    ensures
        final(p).wf(),
        r@ == get_reply(old(p).args(), db.entries(), now),
{
    let key = match p.next_bytes() {
        Ok(Some(k)) => k,
        Ok(None) => {
            return super::err_wrong_args();
        },
        Err(e) => {
            return super::arg_error_reply(e);
        },
    };
    if let Some(d) = super::check_end(p) {
        return d;
    }
    match db.get_value(&key, now) {
        Some(v) => Data::Bulk(v),
        None => Data::NullBulk,
    }
}

} // verus!
