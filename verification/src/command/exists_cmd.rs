//! EXISTS: count how many of the named keys are live. A key named
//! twice counts twice.

use vstd::prelude::*;
use vstd::string::StringSliceAdditionalSpecFns;

verus! {

use crate::db::{Db, DbView, EntryModel, live};
use crate::resp::{Data, Parser, Val, arg_bytes};

/// The registry entry.
pub fn command() -> (r: (Vec<u8>, super::CommandKind))
    ensures
        r.0@ == "EXISTS".spec_bytes(),
        r.1 == super::CommandKind::Exists,
{
    (crate::resp::ascii_bytes("EXISTS"), super::CommandKind::Exists)
}

/// One pass over the keys from position `i`: the count of live ones,
/// and whether a non-scalar element stopped the walk.
pub open spec fn exists_steps(args: Seq<Val>, i: int, m: Map<Seq<u8>, EntryModel>, now: u64) -> (
    int,
    bool,
)
    decreases args.len() - i,
{
    if i < 0 || i >= args.len() {
        (0, false)
    } else {
        match arg_bytes(args[i]) {
            None => (0, true),
            Some(k) => {
                let c: int = if live(m, k, now) {
                    1
                } else {
                    0
                };
                let (rest, failed) = exists_steps(args, i + 1, m, now);
                (c + rest, failed)
            },
        }
    }
}

/// EXISTS reads only; it answers the count of live keys among its
/// arguments, or errors on no keys or a non-scalar one.
pub open spec fn spec_exists(
    args: Seq<Val>,
    pre: DbView,
    post: DbView,
    reply: Val,
    now: u64,
) -> bool {
    &&& post == pre
    &&& if args.len() < 2 {
        reply == Val::Error(super::wrong_args_msg())
    } else {
        let (count, failed) = exists_steps(args, 1, pre.entries, now);
        reply == (if failed {
            Val::Error(super::protocol_msg())
        } else {
            Val::Integer(super::cap_i64(count))
        })
    }
}

pub fn execute(p: &mut Parser, db: &Db, now: u64) -> (r: Data)
    requires
        old(p).wf(),
        old(p).at() == 1,
        db.wf(),
    ensures
        final(p).wf(),
        ({
            let args = old(p).args();
            if args.len() < 2 {
                r@ == Val::Error(super::wrong_args_msg())
            } else {
                let (count, failed) = exists_steps(args, 1, db.entries(), now);
                r@ == (if failed {
                    Val::Error(super::protocol_msg())
                } else {
                    Val::Integer(super::cap_i64(count))
                })
            }
        }),
{
    let ghost args = old(p).args();
    let mut count: i64 = 0;
    let ghost mut exact: int = 0int;
    let mut any = false;
    loop
        invariant
            p.wf(),
            db.wf(),
            args == old(p).args(),
            p.args() == args,
            1 <= p.at(),
            any <==> p.at() > 1,
            count == super::cap_i64(exact),
            exact >= 0,
            ({
                let (cw, fw) = exists_steps(args, 1, db.entries(), now);
                let (cr, fr) = exists_steps(args, p.at(), db.entries(), now);
                cw == exact + cr && fw == fr
            }),
        ensures
            p.wf(),
            p.args() == args,
            p.at() >= args.len(),
            any <==> p.at() > 1,
            count == super::cap_i64(exact),
            ({
                let (cw, fw) = exists_steps(args, 1, db.entries(), now);
                cw == exact && fw == false
            }),
        decreases args.len() - p.at() + 1,
    {
        let ghost at_pre = p.at();
        let key = match p.next_bytes() {
            Ok(Some(k)) => k,
            Ok(None) => {
                break ;
            },
            Err(e) => {
                return super::arg_error_reply(e);
            },
        };
        any = true;
        let present = match db.get(&key, now) {
            Some(_) => true,
            None => false,
        };
        if present {
            if count < i64::MAX {
                count = count + 1;
            }
            proof {
                exact = exact + 1;
            }
        }
    }
    proof {
        p.lemma_at_in_range();
    }
    if any {
        Data::Integer(count)
    } else {
        super::err_wrong_args()
    }
}

} // verus!
