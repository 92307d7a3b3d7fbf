//! The store's laws: what the command transitions promise when they
//! are chained, stated over the same spec functions the operations'
//! contracts use, and proved once for all keys, values and instants.

use vstd::prelude::*;

verus! {

use crate::command::set::set_reply;
use crate::command::ttl::ttl_reply;
use crate::command::exists_cmd::exists_steps;
use crate::db::{
    EntryModel,
    SetCondition,
    entry_expired,
    expire_applies,
    live,
    set_entries,
    set_registers,
};
use crate::resp::{Val, arg_bytes};

/// After a plain SET, the key is live and reads back the written
/// value; after a removal, it reads as absent.
pub proof fn lemma_set_then_get(
    m: Map<Seq<u8>, EntryModel>,
    k: Seq<u8>,
    v: Seq<u8>,
    now: u64,
)
    ensures
        ({
            let m2 = set_entries(m, k, v, None, SetCondition::NONE, false, now);
            live(m2, k, now) && m2[k].value == v
        }),
        !live(m.remove(k), k, now),
{
}

/// EXISTS on one key answers 1 exactly when the key is live.
pub proof fn lemma_exists_tracks_presence(
    args: Seq<Val>,
    m: Map<Seq<u8>, EntryModel>,
    now: u64,
)
    requires
        args.len() == 2,
        arg_bytes(args[1]) is Some,
    ensures
        exists_steps(args, 1, m, now) == (
            if live(m, arg_bytes(args[1])->0, now) {
                1int
            } else {
                0int
            },
            false,
        ),
{
    assert(exists_steps(args, 2, m, now) == (0int, false));
}

/// A SET with an expiration makes the key live up to that instant and
/// absent past it, before any reaper runs.
pub proof fn lemma_set_with_expiry(
    m: Map<Seq<u8>, EntryModel>,
    k: Seq<u8>,
    v: Seq<u8>,
    when: u64,
    now: u64,
    later: u64,
)
    ensures
        ({
            let m2 = set_entries(m, k, v, Some(when), SetCondition::NONE, false, now);
            &&& later <= when ==> live(m2, k, later) && m2[k].value == v
            &&& later > when ==> !live(m2, k, later)
        }),
{
}

/// SET NX on a live key changes neither the value nor the
/// time-to-live, and pushes nothing onto the index.
pub proof fn lemma_set_nx_blocked(
    m: Map<Seq<u8>, EntryModel>,
    k: Seq<u8>,
    v: Seq<u8>,
    exp: Option<u64>,
    keep_ttl: bool,
    now: u64,
)
    requires
        live(m, k, now),
    ensures
        set_entries(m, k, v, exp, SetCondition::NX, keep_ttl, now) == m,
        !set_registers(m, k, exp, SetCondition::NX, keep_ttl, now),
{
}

/// SET XX on an absent or expired key leaves the map as it was.
pub proof fn lemma_set_xx_absent(
    m: Map<Seq<u8>, EntryModel>,
    k: Seq<u8>,
    v: Seq<u8>,
    exp: Option<u64>,
    keep_ttl: bool,
    now: u64,
)
    requires
        !live(m, k, now),
    ensures
        set_entries(m, k, v, exp, SetCondition::XX, keep_ttl, now) == m,
        !set_registers(m, k, exp, SetCondition::XX, keep_ttl, now),
{
}

/// SET KEEPTTL on a live key writes the value and keeps the old
/// expiration, whatever new one rode along.
pub proof fn lemma_set_keepttl(
    m: Map<Seq<u8>, EntryModel>,
    k: Seq<u8>,
    v: Seq<u8>,
    exp: Option<u64>,
    now: u64,
)
    requires
        live(m, k, now),
    ensures
        ({
            let m2 = set_entries(m, k, v, exp, SetCondition::NONE, true, now);
            m2[k].value == v && m2[k].expiration == m[k].expiration
        }),
{
}

/// SET with GET answers the prior value of a live key as a bulk, and
/// a null bulk on a key not yet set.
pub proof fn lemma_set_get_prior(
    m: Map<Seq<u8>, EntryModel>,
    k: Seq<u8>,
    cond: SetCondition,
    now: u64,
)
    ensures
        live(m, k, now) ==> set_reply(m, k, cond, true, now) == Val::Bulk(m[k].value),
        !live(m, k, now) ==> set_reply(m, k, cond, true, now) == Val::NullBulk,
{
}

/// Two APPENDs in a row onto a fresh key leave the concatenation, no
/// time-to-live, and report the running lengths.
pub proof fn lemma_append_twice(
    m: Map<Seq<u8>, EntryModel>,
    k: Seq<u8>,
    v1: Seq<u8>,
    v2: Seq<u8>,
    now: u64,
)
    requires
        !live(m, k, now),
    ensures
        ({
            let m1 = m.insert(k, EntryModel { value: v1, expiration: None });
            let m2 = m1.insert(
                k,
                EntryModel { value: m1[k].value + v2, expiration: m1[k].expiration },
            );
            &&& live(m1, k, now) && m1[k].value == v1 && m1[k].value.len() == v1.len()
            &&& m2[k].value == v1 + v2 && m2[k].value.len() == v1.len() + v2.len()
            &&& m2[k].expiration is None
        }),
{
}

/// EXPIRE XX applies to a live key exactly when it already has an
/// instant; NX exactly when it has none.
pub proof fn lemma_expire_xx_nx(current: Option<u64>, when: u64)
    ensures
        expire_applies(current, Some(when), SetCondition::XX) <==> current is Some,
        expire_applies(current, Some(when), SetCondition::NX) <==> current is None,
{
}

/// EXPIRE LT applies exactly when the new instant is strictly lower,
/// a missing one standing highest; applying it lowers the stored
/// instant to the new one.
pub proof fn lemma_expire_lt(
    m: Map<Seq<u8>, EntryModel>,
    k: Seq<u8>,
    e_old: u64,
    e_new: u64,
    now: u64,
)
    requires
        live(m, k, now),
        m[k].expiration == Some(e_old),
    ensures
        expire_applies(m[k].expiration, Some(e_new), SetCondition::LT) <==> e_new < e_old,
        ({
            let m2 = m.insert(k, EntryModel { value: m[k].value, expiration: Some(e_new) });
            m2[k].expiration == Some(e_new)
        }),
{
}

/// PERSIST on a live key with an instant leaves it live with none,
/// and TTL then answers -1.
pub proof fn lemma_persist_clears(
    args: Seq<Val>,
    m: Map<Seq<u8>, EntryModel>,
    k: Seq<u8>,
    now: u64,
    unit: crate::command::TimeUnit,
)
    requires
        live(m, k, now),
        m[k].expiration is Some,
        args.len() == 2,
        arg_bytes(args[1]) == Some(k),
    ensures
        ({
            let m2 = m.insert(k, EntryModel { value: m[k].value, expiration: None });
            &&& live(m2, k, now)
            &&& m2[k].expiration is None
            &&& ttl_reply(args, m2, now, unit) == Val::Integer(-1)
        }),
{
}

/// An expired entry reads as absent at any instant past its own,
/// whether or not the reaper has run.
pub proof fn lemma_lazy_expiry(e: EntryModel, when: u64, now: u64)
    requires
        e.expiration == Some(when),
    ensures
        entry_expired(e, now) <==> when < now,
{
}

} // verus!
