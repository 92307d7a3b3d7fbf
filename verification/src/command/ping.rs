//! PING: answer `PONG`, or echo the one given message.

use vstd::prelude::*;
use vstd::string::StringSliceAdditionalSpecFns;

verus! {

use crate::db::DbView;
use crate::resp::{Data, Parser, Val, arg_bytes, pong_bytes};

/// The registry entry.
pub fn command() -> (r: (Vec<u8>, super::CommandKind))
    ensures
        r.0@ == "PING".spec_bytes(),
        r.1 == super::CommandKind::Ping,
{
    (crate::resp::ascii_bytes("PING"), super::CommandKind::Ping)
}

/// What PING answers: `PONG` bare, the message echoed as a bulk, and
/// the usual arity and shape errors otherwise.
pub open spec fn ping_reply(args: Seq<Val>) -> Val {
    if args.len() < 2 {
        Val::SimpleString(pong_bytes())
    } else if arg_bytes(args[1]) is None {
        Val::Error(super::protocol_msg())
    } else if args.len() > 2 {
        Val::Error(super::end_check_msg(args, 2))
    } else {
        Val::Bulk(arg_bytes(args[1])->0)
    }
}

/// PING touches nothing and answers as `ping_reply` says.
pub open spec fn spec_ping(args: Seq<Val>, pre: DbView, post: DbView, reply: Val) -> bool {
    post == pre && reply == ping_reply(args)
}

pub fn execute(p: &mut Parser) -> (r: Data)
    requires
        old(p).wf(),
        old(p).at() == 1,
    ensures
        final(p).wf(),
        r@ == ping_reply(old(p).args()),
{
    match p.next_bytes() {
        Ok(None) => Data::pong(),
        Ok(Some(echo)) => {
            match super::check_end(p) {
                Some(d) => d,
                None => Data::Bulk(echo),
            }
        },
        Err(e) => super::arg_error_reply(e),
    }
}

} // verus!
