//! EXPIRE and PEXPIRE: give one key a time-to-live, measured from now,
//! under an optional condition.

use vstd::prelude::*;
use vstd::string::StringSliceAdditionalSpecFns;

verus! {

use crate::db::{Db, DbView, EntryModel, ExpModel, SetCondition, expire_applies, live};
use crate::db::bytes_eq;
use crate::resp::{Data, Parser, Val, arg_bytes, ascii_upper};
use super::TimeUnit;

/// The registry entry: EXPIRE takes seconds, PEXPIRE milliseconds.
pub fn command(unit: TimeUnit) -> (r: (Vec<u8>, super::CommandKind))
    ensures
        match unit {
            TimeUnit::Second => r.0@ == "EXPIRE".spec_bytes(),
            TimeUnit::Millisecond => r.0@ == "PEXPIRE".spec_bytes(),
        },
        r.1 == super::CommandKind::Expire(unit),
{
    match unit {
        TimeUnit::Second => (crate::resp::ascii_bytes("EXPIRE"), super::CommandKind::Expire(unit)),
        TimeUnit::Millisecond => (
            crate::resp::ascii_bytes("PEXPIRE"),
            super::CommandKind::Expire(unit),
        ),
    }
}

/// The parsed condition token, or the error it earns: no token means
/// no condition; an unknown one is a syntax error; anything after it
/// is too much.
pub open spec fn expire_cond(args: Seq<Val>) -> Result<SetCondition, Val> {
    if args.len() == 3 {
        Ok(SetCondition::NONE)
    } else {
        match arg_bytes(args[3]) {
            None => Err(Val::Error(super::protocol_msg())),
            Some(cb) => {
                let u = ascii_upper(cb);
                if !(u == "NX".spec_bytes() || u == "XX".spec_bytes() || u == "GT".spec_bytes()
                    || u == "LT".spec_bytes()) {
                    Err(Val::Error(super::syntax_msg()))
                } else if args.len() > 4 {
                    Err(Val::Error(super::end_check_msg(args, 4)))
                } else if u == "NX".spec_bytes() {
                    Ok(SetCondition::NX)
                } else if u == "XX".spec_bytes() {
                    Ok(SetCondition::XX)
                } else if u == "GT".spec_bytes() {
                    Ok(SetCondition::GT)
                } else {
                    Ok(SetCondition::LT)
                }
            },
        }
    }
}

pub open spec fn expire_arg_error(args: Seq<Val>) -> Option<Val> {
    if args.len() < 2 {
        Some(Val::Error(super::wrong_args_msg()))
    } else if arg_bytes(args[1]) is None {
        Some(Val::Error(super::protocol_msg()))
    } else if args.len() < 3 {
        Some(Val::Error(super::wrong_args_msg()))
    } else if arg_bytes(args[2]) is None {
        Some(Val::Error(super::protocol_msg()))
    } else if crate::num::parse_u64_spec(arg_bytes(args[2])->0) is None {
        Some(Val::Error(super::not_integer_msg()))
    } else {
        None
    }
}

/// EXPIRE gives a live key the instant `now + n` units under its
/// condition, indexes it, and answers 1; otherwise 0 and no change.
pub open spec fn spec_expire(
    args: Seq<Val>,
    pre: DbView,
    post: DbView,
    reply: Val,
    now: u64,
    unit: TimeUnit,
) -> bool {
    match expire_arg_error(args) {
        Some(e) => post == pre && reply == e,
        None => match expire_cond(args) {
            Err(e) => post == pre && reply == e,
            Ok(cond) => {
                let k = arg_bytes(args[1])->0;
                let n = crate::num::parse_u64_spec(arg_bytes(args[2])->0)->0;
                let when = super::expiry_at(now, n, unit);
                let applied = live(pre.entries, k, now) && expire_applies(
                    pre.entries[k].expiration,
                    Some(when),
                    cond,
                );
                if applied {
                    &&& reply == Val::Integer(1)
                    &&& post.entries == pre.entries.insert(
                        k,
                        EntryModel { value: pre.entries[k].value, expiration: Some(when) },
                    )
                    &&& post.index == pre.index.push(
                        ExpModel { when, id: pre.next_id, key: k },
                    )
                    &&& post.next_id == pre.next_id.wrapping_add(1)
                } else {
                    post == pre && reply == Val::Integer(0)
                }
            },
        },
    }
}

pub fn execute(p: &mut Parser, db: &mut Db, now: u64, unit: TimeUnit) -> (r: Data)
    requires
        old(p).wf(),
        old(p).at() == 1,
        old(db).wf(),
    ensures
        final(p).wf(),
        final(db).wf(),
        spec_expire(old(p).args(), old(db)@, final(db)@, r@, now, unit),
{
    let key = match p.next_bytes() {
        Ok(Some(k)) => k,
        Ok(None) => {
            return super::err_wrong_args();
        },
        Err(e) => {
            return super::arg_error_reply(e);
        },
    };
    let n = match p.next_u64() {
        Ok(Some(n)) => n,
        Ok(None) => {
            return super::err_wrong_args();
        },
        Err(e) => {
            return super::arg_error_reply(e);
        },
    };
    let cond = match p.next_upper() {
        Ok(None) => SetCondition::NONE,
        Err(e) => {
            return super::arg_error_reply(e);
        },
        Ok(Some(tok)) => {
            let c = if bytes_eq(&tok, &crate::resp::ascii_bytes("NX")) {
                SetCondition::NX
            } else if bytes_eq(&tok, &crate::resp::ascii_bytes("XX")) {
                SetCondition::XX
            } else if bytes_eq(&tok, &crate::resp::ascii_bytes("GT")) {
                SetCondition::GT
            } else if bytes_eq(&tok, &crate::resp::ascii_bytes("LT")) {
                SetCondition::LT
            } else {
                return super::err_syntax();
            };
            if let Some(d) = super::check_end(p) {
                return d;
            }
            c
        },
    };
    let when = super::expiry_from(now, n, unit);
    if db.expire(&key, Some(when), cond, now) {
        Data::Integer(1)
    } else {
        Data::Integer(0)
    }
}

} // verus!
