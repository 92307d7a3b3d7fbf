//! TTL and PTTL: how long one key has left to live.

use vstd::prelude::*;
use vstd::string::StringSliceAdditionalSpecFns;

verus! {

use crate::db::{Db, DbView, EntryModel, live};
use crate::resp::{Data, Parser, Val, arg_bytes};
use super::TimeUnit;

/// The registry entry: TTL answers in seconds, PTTL in milliseconds.
pub fn command(unit: TimeUnit) -> (r: (Vec<u8>, super::CommandKind))
    ensures
        match unit {
            TimeUnit::Second => r.0@ == "TTL".spec_bytes(),
            TimeUnit::Millisecond => r.0@ == "PTTL".spec_bytes(),
        },
        r.1 == super::CommandKind::Ttl(unit),
{
    match unit {
        TimeUnit::Second => (crate::resp::ascii_bytes("TTL"), super::CommandKind::Ttl(unit)),
        TimeUnit::Millisecond => (crate::resp::ascii_bytes("PTTL"), super::CommandKind::Ttl(unit)),
    }
}

/// The remaining time of a live instant, in the given unit, capped at
/// the largest wire integer.
pub open spec fn remaining(when: u64, now: u64, unit: TimeUnit) -> int {
    super::cap_i64((when - now) / super::unit_factor(unit))
}

/// What TTL answers: the remaining time, -1 for a live key with no
/// time-to-live, -2 for an absent or expired key.
pub open spec fn ttl_reply(
    args: Seq<Val>,
    m: Map<Seq<u8>, EntryModel>,
    now: u64,
    unit: TimeUnit,
) -> Val {
    if args.len() < 2 {
        Val::Error(super::wrong_args_msg())
    } else if arg_bytes(args[1]) is None {
        Val::Error(super::protocol_msg())
    } else if args.len() > 2 {
        Val::Error(super::end_check_msg(args, 2))
    } else {
        let k = arg_bytes(args[1])->0;
        if !live(m, k, now) {
            Val::Integer(-2)
        } else {
            match m[k].expiration {
                None => Val::Integer(-1),
                Some(when) => Val::Integer(remaining(when, now, unit)),
            }
        }
    }
}

/// TTL reads and answers as `ttl_reply` says.
pub open spec fn spec_ttl(
    args: Seq<Val>,
    pre: DbView,
    post: DbView,
    reply: Val,
    now: u64,
    unit: TimeUnit,
) -> bool {
    post == pre && reply == ttl_reply(args, pre.entries, now, unit)
}

pub fn execute(p: &mut Parser, db: &Db, now: u64, unit: TimeUnit) -> (r: Data)
    requires
        old(p).wf(),
        old(p).at() == 1,
        db.wf(),
    ensures
        final(p).wf(),
        r@ == ttl_reply(old(p).args(), db.entries(), now, unit),
{
    let key = match p.next_bytes() {
        Ok(Some(k)) => k,
        Ok(None) => {
            return super::err_wrong_args();
        },
        Err(e) => {
            return super::arg_error_reply(e);
        },
    };
    if let Some(d) = super::check_end(p) {
        return d;
    }
    match db.get(&key, now) {
        None => Data::Integer(-2),
        Some(e) => match e.expiration {
            None => Data::Integer(-1),
            Some(when) => {
                let left = when - now;
                let scaled = match unit {
                    TimeUnit::Second => left / 1000,
                    TimeUnit::Millisecond => left,
                };
                if scaled > i64::MAX as u64 {
                    Data::Integer(i64::MAX)
                } else {
                    Data::Integer(scaled as i64)
                }
            },
        },
    }
}

} // verus!
