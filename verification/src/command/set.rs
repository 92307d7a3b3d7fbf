//! SET: write one key's value, with expiration, condition, KEEPTTL
//! and GET options in any order.

use vstd::prelude::*;
use vstd::string::StringSliceAdditionalSpecFns;

verus! {

use crate::db::{
    Db,
    DbView,
    ExpModel,
    SetCondition,
    bytes_eq,
    live,
    set_entries,
    set_registers,
    set_returned,
};
use crate::resp::{Data, Parser, Val, arg_bytes, ascii_upper, ok_bytes};
use super::TimeUnit;

/// The registry entry.
pub fn command() -> (r: (Vec<u8>, super::CommandKind))
    ensures
        r.0@ == "SET".spec_bytes(),
        r.1 == super::CommandKind::SetCmd,
{
    (crate::resp::ascii_bytes("SET"), super::CommandKind::SetCmd)
}

/// Walk the option tokens from position `i`. `EX n`, `PX n` and
/// `KEEPTTL` exclude one another; `NX` and `XX` exclude one another;
/// `GET` may come once; anything else is a syntax error.
pub open spec fn parse_set(
    args: Seq<Val>,
    i: int,
    exp: Option<u64>,
    cond: SetCondition,
    keep: bool,
    get: bool,
    now: u64,
) -> Result<(Option<u64>, SetCondition, bool, bool), Val>
    decreases args.len() - i,
{
    if i < 0 || i >= args.len() {
        Ok((exp, cond, keep, get))
    } else {
        match arg_bytes(args[i]) {
            None => Err(Val::Error(super::protocol_msg())),
            Some(b) => {
                let u = ascii_upper(b);
                if u == "EX".spec_bytes() || u == "PX".spec_bytes() {
                    if exp is Some || keep {
                        Err(Val::Error(super::syntax_msg()))
                    } else if i + 1 >= args.len() {
                        Err(Val::Error(super::wrong_args_msg()))
                    } else {
                        match arg_bytes(args[i + 1]) {
                            None => Err(Val::Error(super::protocol_msg())),
                            Some(nb) => match crate::num::parse_u64_spec(nb) {
                                None => Err(Val::Error(super::not_integer_msg())),
                                Some(n) => {
                                    let unit = if u == "EX".spec_bytes() {
                                        TimeUnit::Second
                                    } else {
                                        TimeUnit::Millisecond
                                    };
                                    parse_set(
                                        args,
                                        i + 2,
                                        Some(super::expiry_at(now, n, unit)),
                                        cond,
                                        keep,
                                        get,
                                        now,
                                    )
                                },
                            },
                        }
                    }
                } else if u == "KEEPTTL".spec_bytes() {
                    if exp is Some || keep {
                        Err(Val::Error(super::syntax_msg()))
                    } else {
                        parse_set(args, i + 1, exp, cond, true, get, now)
                    }
                } else if u == "NX".spec_bytes() {
                    if cond != SetCondition::NONE {
                        Err(Val::Error(super::syntax_msg()))
                    } else {
                        parse_set(args, i + 1, exp, SetCondition::NX, keep, get, now)
                    }
                } else if u == "XX".spec_bytes() {
                    if cond != SetCondition::NONE {
                        Err(Val::Error(super::syntax_msg()))
                    } else {
                        parse_set(args, i + 1, exp, SetCondition::XX, keep, get, now)
                    }
                } else if u == "GET".spec_bytes() {
                    if get {
                        Err(Val::Error(super::syntax_msg()))
                    } else {
                        parse_set(args, i + 1, exp, cond, keep, true, now)
                    }
                } else {
                    Err(Val::Error(super::syntax_msg()))
                }
            },
        }
    }
}

/// Whether the condition blocked the write.
pub open spec fn set_blocked(
    m: Map<Seq<u8>, crate::db::EntryModel>,
    k: Seq<u8>,
    cond: SetCondition,
    now: u64,
) -> bool {
    if live(m, k, now) {
        cond == SetCondition::NX
    } else {
        cond == SetCondition::XX
    }
}

/// What SET answers: the prior value when GET asked for one, a null
/// bulk when GET found none or the condition blocked, OK otherwise.
pub open spec fn set_reply(
    m: Map<Seq<u8>, crate::db::EntryModel>,
    k: Seq<u8>,
    cond: SetCondition,
    get: bool,
    now: u64,
) -> Val {
    match set_returned(m, k, get, now) {
        Some(v) => Val::Bulk(v),
        None => if get || set_blocked(m, k, cond, now) {
            Val::NullBulk
        } else {
            Val::SimpleString(ok_bytes())
        },
    }
}

/// SET parses its options, then writes under the condition, keeps or
/// replaces the instant, indexes any new one, and answers as
/// `set_reply` says.
pub open spec fn spec_set(args: Seq<Val>, pre: DbView, post: DbView, reply: Val, now: u64) -> bool {
    if args.len() < 2 {
        post == pre && reply == Val::Error(super::wrong_args_msg())
    } else if arg_bytes(args[1]) is None {
        post == pre && reply == Val::Error(super::protocol_msg())
    } else if args.len() < 3 {
        post == pre && reply == Val::Error(super::wrong_args_msg())
    } else if arg_bytes(args[2]) is None {
        post == pre && reply == Val::Error(super::protocol_msg())
    } else {
        match parse_set(args, 3, None, SetCondition::NONE, false, false, now) {
            Err(e) => post == pre && reply == e,
            Ok((exp, cond, keep, get)) => {
                let k = arg_bytes(args[1])->0;
                let v = arg_bytes(args[2])->0;
                &&& post.entries == set_entries(pre.entries, k, v, exp, cond, keep, now)
                &&& reply == set_reply(pre.entries, k, cond, get, now)
                &&& if set_registers(pre.entries, k, exp, cond, keep, now) {
                    exp is Some && post.index == pre.index.push(
                        ExpModel { when: exp->0, id: pre.next_id, key: k },
                    ) && post.next_id == pre.next_id.wrapping_add(1)
                } else {
                    post.index == pre.index && post.next_id == pre.next_id
                }
            },
        }
    }
}

pub fn execute(p: &mut Parser, db: &mut Db, now: u64) -> (r: Data)
    requires
        old(p).wf(),
        old(p).at() == 1,
        old(db).wf(),
    ensures
        final(p).wf(),
        final(db).wf(),
        spec_set(old(p).args(), old(db)@, final(db)@, r@, now),
{
    let ghost args = old(p).args();
    let key = match p.next_bytes() {
        Ok(Some(k)) => k,
        Ok(None) => {
            return super::err_wrong_args();
        },
        Err(e) => {
            return super::arg_error_reply(e);
        },
    };
    let value = match p.next_bytes() {
        Ok(Some(v)) => v,
        Ok(None) => {
            return super::err_wrong_args();
        },
        Err(e) => {
            return super::arg_error_reply(e);
        },
    };
    let mut exp: Option<u64> = None;
    let mut cond = SetCondition::NONE;
    let mut keep = false;
    let mut get = false;
    loop
        invariant
            p.wf(),
            db.wf(),
            db@ == old(db)@,
            args == old(p).args(),
            p.args() == args,
            3 <= p.at(),
            args.len() >= 3,
            arg_bytes(args[1]) is Some,
            key@ == arg_bytes(args[1])->0,
            arg_bytes(args[2]) is Some,
            value@ == arg_bytes(args[2])->0,
            parse_set(args, 3, None, SetCondition::NONE, false, false, now) == parse_set(
                args,
                p.at(),
                exp,
                cond,
                keep,
                get,
                now,
            ),
        ensures
            p.wf(),
            db.wf(),
            db@ == old(db)@,
            key@ == arg_bytes(args[1])->0,
            value@ == arg_bytes(args[2])->0,
            parse_set(args, 3, None, SetCondition::NONE, false, false, now) == Ok::<
                (Option<u64>, SetCondition, bool, bool),
                Val,
            >((exp, cond, keep, get)),
        decreases args.len() - p.at() + 1,
    {
        let ghost at_pre = p.at();
        let ghost exp_pre = exp;
        let tok = match p.next_upper() {
            Ok(None) => {
                break ;
            },
            Err(e) => {
                return super::arg_error_reply(e);
            },
            Ok(Some(t)) => t,
        };
        let is_ex = bytes_eq(&tok, &crate::resp::ascii_bytes("EX"));
        let is_px = bytes_eq(&tok, &crate::resp::ascii_bytes("PX"));
        if is_ex || is_px {
            if exp.is_some() || keep {
                return super::err_syntax();
            }
            let n = match p.next_u64() {
                Ok(Some(n)) => n,
                Ok(None) => {
                    return super::err_wrong_args();
                },
                Err(e) => {
                    return super::arg_error_reply(e);
                },
            };
            let unit = if is_ex {
                TimeUnit::Second
            } else {
                TimeUnit::Millisecond
            };
            exp = Some(super::expiry_from(now, n, unit));
            proof {
                assert(parse_set(args, at_pre, exp_pre, cond, keep, get, now) == parse_set(
                    args,
                    at_pre + 2,
                    exp,
                    cond,
                    keep,
                    get,
                    now,
                ));
            }
        } else if bytes_eq(&tok, &crate::resp::ascii_bytes("KEEPTTL")) {
            if exp.is_some() || keep {
                return super::err_syntax();
            }
            keep = true;
        } else if bytes_eq(&tok, &crate::resp::ascii_bytes("NX")) {
            if !matches!(cond, SetCondition::NONE) {
                return super::err_syntax();
            }
            cond = SetCondition::NX;
        } else if bytes_eq(&tok, &crate::resp::ascii_bytes("XX")) {
            if !matches!(cond, SetCondition::NONE) {
                return super::err_syntax();
            }
            cond = SetCondition::XX;
        } else if bytes_eq(&tok, &crate::resp::ascii_bytes("GET")) {
            if get {
                return super::err_syntax();
            }
            get = true;
        } else {
            return super::err_syntax();
        }
    }
    let blocked = match cond {
        SetCondition::NX => db.get(&key, now).is_some(),
        SetCondition::XX => db.get(&key, now).is_none(),
        _ => false,
    };
    match db.set(key, value, exp, cond, keep, get, now) {
        Some(v) => Data::Bulk(v),
        None => {
            if get || blocked {
                Data::NullBulk
            } else {
                Data::ok()
            }
        },
    }
}

} // verus!
