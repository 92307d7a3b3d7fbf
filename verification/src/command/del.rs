//! DEL: remove any number of keys; count the live ones removed.

use vstd::prelude::*;
use vstd::string::StringSliceAdditionalSpecFns;

verus! {

use crate::db::{Db, DbView, EntryModel, live};
use crate::resp::{Data, Parser, Val, arg_bytes};

/// The registry entry.
pub fn command() -> (r: (Vec<u8>, super::CommandKind))
    ensures
        r.0@ == "DEL".spec_bytes(),
        r.1 == super::CommandKind::Del,
{
    (crate::resp::ascii_bytes("DEL"), super::CommandKind::Del)
}

/// One pass over the keys from position `i`: the map left behind, the
/// count of live entries removed, and whether a non-scalar element
/// stopped the walk. A key named twice counts once: its second
/// removal finds it gone.
pub open spec fn del_steps(args: Seq<Val>, i: int, m: Map<Seq<u8>, EntryModel>, now: u64) -> (
    Map<Seq<u8>, EntryModel>,
    int,
    bool,
)
    decreases args.len() - i,
{
    if i < 0 || i >= args.len() {
        (m, 0, false)
    } else {
        match arg_bytes(args[i]) {
            None => (m, 0, true),
            Some(k) => {
                let c: int = if live(m, k, now) {
                    1
                } else {
                    0
                };
                let (m2, rest, failed) = del_steps(args, i + 1, m.remove(k), now);
                (m2, c + rest, failed)
            },
        }
    }
}

/// DEL walks its keys in order, removing each; it answers the count of
/// live entries removed, or errors on no keys or a non-scalar one.
/// Keys walked before a bad element are removed all the same.
pub open spec fn spec_del(args: Seq<Val>, pre: DbView, post: DbView, reply: Val, now: u64) -> bool {
    &&& post.index == pre.index
    &&& post.next_id == pre.next_id
    &&& if args.len() < 2 {
        post.entries == pre.entries && reply == Val::Error(super::wrong_args_msg())
    } else {
        let (m2, count, failed) = del_steps(args, 1, pre.entries, now);
        post.entries == m2 && reply == (if failed {
            Val::Error(super::protocol_msg())
        } else {
            Val::Integer(super::cap_i64(count))
        })
    }
}

pub fn execute(p: &mut Parser, db: &mut Db, now: u64) -> (r: Data)
    requires
        old(p).wf(),
        old(p).at() == 1,
        old(db).wf(),
    ensures
        final(p).wf(),
        final(db).wf(),
        spec_del(old(p).args(), old(db)@, final(db)@, r@, now),
{
    let ghost args = old(p).args();
    let ghost m0 = old(db).entries();
    let mut count: i64 = 0;
    let ghost mut exact: int = 0int;
    let mut any = false;
    loop
        invariant
            p.wf(),
            db.wf(),
            args == old(p).args(),
            m0 == old(db).entries(),
            p.args() == args,
            1 <= p.at(),
            any <==> p.at() > 1,
            db.index() == old(db).index(),
            db.next_id() == old(db).next_id(),
            count == super::cap_i64(exact),
            exact >= 0,
            ({
                let (mw, cw, fw) = del_steps(args, 1, m0, now);
                let (mr, cr, fr) = del_steps(args, p.at(), db.entries(), now);
                mw == mr && cw == exact + cr && fw == fr
            }),
        ensures
            p.wf(),
            db.wf(),
            p.args() == args,
            p.at() >= args.len(),
            any <==> p.at() > 1,
            db.index() == old(db).index(),
            db.next_id() == old(db).next_id(),
            count == super::cap_i64(exact),
            ({
                let (mw, cw, fw) = del_steps(args, 1, m0, now);
                mw == db.entries() && cw == exact && fw == false
            }),
        decreases args.len() - p.at() + 1,
    {
        let ghost at_pre = p.at();
        let key = match p.next_bytes() {
            Ok(Some(k)) => k,
            Ok(None) => {
                break ;
            },
            Err(e) => {
                return super::arg_error_reply(e);
            },
        };
        any = true;
        let ghost m_pre = db.entries();
        let removed_live = db.del(&key, now);
        if removed_live {
            proof {
                assert(del_steps(args, at_pre, m_pre, now) == {
                    let (m2, rest, failed) = del_steps(args, at_pre + 1, m_pre.remove(key@), now);
                    (m2, 1int + rest, failed)
                });
            }
            if count < i64::MAX {
                count = count + 1;
            }
            proof {
                exact = exact + 1;
            }
        } else {
            proof {
                assert(del_steps(args, at_pre, m_pre, now) == {
                    let (m2, rest, failed) = del_steps(args, at_pre + 1, m_pre.remove(key@), now);
                    (m2, 0int + rest, failed)
                });
            }
        }
    }
    proof {
        p.lemma_at_in_range();
    }
    if any {
        Data::Integer(count)
    } else {
        super::err_wrong_args()
    }
}

} // verus!
