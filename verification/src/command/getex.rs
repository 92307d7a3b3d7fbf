//! GETEX: read one key's value and, on the side, adjust its
//! time-to-live.

use vstd::prelude::*;
use vstd::string::StringSliceAdditionalSpecFns;

verus! {

use crate::db::{Db, DbView, EntryModel, ExpModel, bytes_eq, live};
use crate::resp::{Data, Parser, Val, arg_bytes, ascii_upper};
use super::TimeUnit;

/// The registry entry.
pub fn command() -> (r: (Vec<u8>, super::CommandKind))
    ensures
        r.0@ == "GETEX".spec_bytes(),
        r.1 == super::CommandKind::GetEx,
{
    (crate::resp::ascii_bytes("GETEX"), super::CommandKind::GetEx)
}

/// Walk the option tokens from position `i`: `EX n` or `PX n` sets the
/// instant, `PERSIST` clears it; the three exclude one another and
/// each may come once.
pub open spec fn parse_getex(
    args: Seq<Val>,
    i: int,
    exp: Option<u64>,
    persist: bool,
    now: u64,
) -> Result<(Option<u64>, bool), Val>
    decreases args.len() - i,
{
    if i < 0 || i >= args.len() {
        Ok((exp, persist))
    } else {
        match arg_bytes(args[i]) {
            None => Err(Val::Error(super::protocol_msg())),
            Some(b) => {
                let u = ascii_upper(b);
                if u == "EX".spec_bytes() || u == "PX".spec_bytes() {
                    if exp is Some || persist {
                        Err(Val::Error(super::syntax_msg()))
                    } else if i + 1 >= args.len() {
                        Err(Val::Error(super::wrong_args_msg()))
                    } else {
                        match arg_bytes(args[i + 1]) {
                            None => Err(Val::Error(super::protocol_msg())),
                            Some(nb) => match crate::num::parse_u64_spec(nb) {
                                None => Err(Val::Error(super::not_integer_msg())),
                                Some(n) => {
                                    let unit = if u == "EX".spec_bytes() {
                                        TimeUnit::Second
                                    } else {
                                        TimeUnit::Millisecond
                                    };
                                    parse_getex(
                                        args,
                                        i + 2,
                                        Some(super::expiry_at(now, n, unit)),
                                        persist,
                                        now,
                                    )
                                },
                            },
                        }
                    }
                } else if u == "PERSIST".spec_bytes() {
                    if exp is Some || persist {
                        Err(Val::Error(super::syntax_msg()))
                    } else {
                        parse_getex(args, i + 1, exp, true, now)
                    }
                } else {
                    Err(Val::Error(super::syntax_msg()))
                }
            },
        }
    }
}

/// GETEX reads a live value; `PERSIST` clears its instant, a new one
/// is set and indexed, and with no option the entry stays untouched.
pub open spec fn spec_getex(
    args: Seq<Val>,
    pre: DbView,
    post: DbView,
    reply: Val,
    now: u64,
) -> bool {
    if args.len() < 2 {
        post == pre && reply == Val::Error(super::wrong_args_msg())
    } else if arg_bytes(args[1]) is None {
        post == pre && reply == Val::Error(super::protocol_msg())
    } else {
        match parse_getex(args, 2, None, false, now) {
            Err(e) => post == pre && reply == e,
            Ok((exp, persist)) => {
                let k = arg_bytes(args[1])->0;
                if !live(pre.entries, k, now) {
                    post == pre && reply == Val::NullBulk
                } else {
                    &&& reply == Val::Bulk(pre.entries[k].value)
                    &&& if persist {
                        post.entries == pre.entries.insert(
                            k,
                            EntryModel { value: pre.entries[k].value, expiration: None },
                        ) && post.index == pre.index && post.next_id == pre.next_id
                    } else if exp is Some {
                        post.entries == pre.entries.insert(
                            k,
                            EntryModel { value: pre.entries[k].value, expiration: exp },
                        ) && post.index == pre.index.push(
                            ExpModel { when: exp->0, id: pre.next_id, key: k },
                        ) && post.next_id == pre.next_id.wrapping_add(1)
                    } else {
                        post == pre
                    }
                }
            },
        }
    }
}

pub fn execute(p: &mut Parser, db: &mut Db, now: u64) -> (r: Data)
    requires
        old(p).wf(),
        old(p).at() == 1,
        old(db).wf(),
    ensures
        final(p).wf(),
        final(db).wf(),
        spec_getex(old(p).args(), old(db)@, final(db)@, r@, now),
{
    let ghost args = old(p).args();
    let key = match p.next_bytes() {
        Ok(Some(k)) => k,
        Ok(None) => {
            return super::err_wrong_args();
        },
        Err(e) => {
            return super::arg_error_reply(e);
        },
    };
    let mut exp: Option<u64> = None;
    let mut persist = false;
    loop
        invariant
            p.wf(),
            db.wf(),
            db@ == old(db)@,
            args == old(p).args(),
            p.args() == args,
            2 <= p.at(),
            args.len() >= 2,
            arg_bytes(args[1]) is Some,
            key@ == arg_bytes(args[1])->0,
            parse_getex(args, 2, None, false, now) == parse_getex(
                args,
                p.at(),
                exp,
                persist,
                now,
            ),
        ensures
            p.wf(),
            db.wf(),
            db@ == old(db)@,
            key@ == arg_bytes(args[1])->0,
            parse_getex(args, 2, None, false, now) == Ok::<(Option<u64>, bool), Val>(
                (exp, persist),
            ),
        decreases args.len() - p.at() + 1,
    {
        let ghost at_pre = p.at();
        let ghost exp_pre = exp;
        let ghost persist_pre = persist;
        let tok = match p.next_upper() {
            Ok(None) => {
                break ;
            },
            Err(e) => {
                return super::arg_error_reply(e);
            },
            Ok(Some(t)) => t,
        };
        let is_ex = bytes_eq(&tok, &crate::resp::ascii_bytes("EX"));
        let is_px = bytes_eq(&tok, &crate::resp::ascii_bytes("PX"));
        if is_ex || is_px {
            if exp.is_some() || persist {
                return super::err_syntax();
            }
            let n = match p.next_u64() {
                Ok(Some(n)) => n,
                Ok(None) => {
                    return super::err_wrong_args();
                },
                Err(e) => {
                    return super::arg_error_reply(e);
                },
            };
            let unit = if is_ex {
                TimeUnit::Second
            } else {
                TimeUnit::Millisecond
            };
            exp = Some(super::expiry_from(now, n, unit));
            proof {
                assert(parse_getex(args, at_pre, exp_pre, persist_pre, now) == parse_getex(
                    args,
                    at_pre + 2,
                    exp,
                    persist,
                    now,
                ));
            }
        } else if bytes_eq(&tok, &crate::resp::ascii_bytes("PERSIST")) {
            if exp.is_some() || persist {
                return super::err_syntax();
            }
            persist = true;
        } else {
            return super::err_syntax();
        }
    }
    match db.getex(&key, exp, persist, now) {
        Some(v) => Data::Bulk(v),
        None => Data::NullBulk,
    }
}

} // verus!
