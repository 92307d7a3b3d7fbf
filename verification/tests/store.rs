use drill_redis::db::{Db, SetCondition};

fn k(s: &str) -> Vec<u8> {
    s.as_bytes().to_vec()
}

#[test]
fn set_then_get_returns_value() {
    let mut db = Db::new();
    db.set(k("k"), k("v"), None, SetCondition::NONE, false, false, 10);
    assert_eq!(db.get_value(&k("k"), 10), Some(k("v")));
}

#[test]
fn del_removes_and_reports_live() {
    let mut db = Db::new();
    db.set(k("k"), k("v"), None, SetCondition::NONE, false, false, 10);
    assert!(db.del(&k("k"), 10));
    assert_eq!(db.get_value(&k("k"), 10), None);
    assert!(!db.del(&k("k"), 10));
}

#[test]
fn expired_entry_reads_as_absent_before_reaper() {
    let mut db = Db::new();
    db.set(k("k"), k("v"), Some(2000), SetCondition::NONE, false, false, 1000);
    assert_eq!(db.get_value(&k("k"), 1500), Some(k("v")));
    assert_eq!(db.get_value(&k("k"), 2000), Some(k("v")));
    assert_eq!(db.get_value(&k("k"), 2001), None);
}

#[test]
fn set_nx_on_live_key_changes_nothing() {
    let mut db = Db::new();
    db.set(k("k"), k("v"), Some(5000), SetCondition::NONE, false, false, 10);
    db.set(k("k"), k("w"), None, SetCondition::NX, false, false, 10);
    assert_eq!(db.get_value(&k("k"), 10), Some(k("v")));
    // The instant survives too: past it the key reads as absent.
    assert_eq!(db.get_value(&k("k"), 5001), None);
}

#[test]
fn set_xx_on_absent_key_leaves_it_absent() {
    let mut db = Db::new();
    db.set(k("k"), k("v"), None, SetCondition::XX, false, false, 10);
    assert_eq!(db.get_value(&k("k"), 10), None);
}

#[test]
fn set_keepttl_preserves_instant() {
    let mut db = Db::new();
    db.set(k("k"), k("w"), Some(100000), SetCondition::NONE, false, false, 10);
    db.set(k("k"), k("v"), None, SetCondition::NONE, true, false, 10);
    assert_eq!(db.get_value(&k("k"), 99999), Some(k("v")));
    assert_eq!(db.get_value(&k("k"), 100001), None);
}

#[test]
fn set_get_returns_prior_value() {
    let mut db = Db::new();
    let first = db.set(k("k"), k("v"), None, SetCondition::NONE, false, true, 10);
    assert_eq!(first, None);
    let second = db.set(k("k"), k("w"), None, SetCondition::NONE, false, true, 10);
    assert_eq!(second, Some(k("v")));
}

#[test]
fn append_concatenates_and_reports_lengths() {
    let mut db = Db::new();
    assert_eq!(db.append(k("k"), k("v1"), 10), 2);
    assert_eq!(db.append(k("k"), k("v2"), 10), 4);
    assert_eq!(db.get_value(&k("k"), 10), Some(k("v1v2")));
}

#[test]
fn append_never_touches_live_ttl() {
    let mut db = Db::new();
    db.set(k("k"), k("v"), Some(5000), SetCondition::NONE, false, false, 10);
    db.append(k("k"), k("w"), 10);
    assert_eq!(db.get_value(&k("k"), 5001), None);
}

#[test]
fn persist_clears_instant_once() {
    let mut db = Db::new();
    db.set(k("k"), k("v"), Some(5000), SetCondition::NONE, false, false, 10);
    assert!(db.persist(&k("k"), 10));
    assert!(!db.persist(&k("k"), 10));
    assert_eq!(db.get_value(&k("k"), 9999999), Some(k("v")));
}

#[test]
fn expire_nx_only_without_instant() {
    let mut db = Db::new();
    db.set(k("k"), k("v"), None, SetCondition::NONE, false, false, 10);
    assert!(db.expire(&k("k"), Some(5000), SetCondition::NX, 10));
    assert!(!db.expire(&k("k"), Some(9000), SetCondition::NX, 10));
}

#[test]
fn expire_xx_only_with_instant() {
    let mut db = Db::new();
    db.set(k("k"), k("v"), None, SetCondition::NONE, false, false, 10);
    assert!(!db.expire(&k("k"), Some(5000), SetCondition::XX, 10));
    db.expire(&k("k"), Some(5000), SetCondition::NONE, 10);
    assert!(db.expire(&k("k"), Some(9000), SetCondition::XX, 10));
}

#[test]
fn expire_lt_lowers_and_refuses_higher() {
    let mut db = Db::new();
    db.set(k("k"), k("v"), None, SetCondition::NONE, false, false, 10);
    assert!(db.expire(&k("k"), Some(10000), SetCondition::NONE, 10));
    assert!(db.expire(&k("k"), Some(5000), SetCondition::LT, 10));
    assert!(!db.expire(&k("k"), Some(20000), SetCondition::LT, 10));
    // The instant now stands at the lower value.
    assert_eq!(db.get_value(&k("k"), 5001), None);
}

#[test]
fn expire_gt_against_no_instant_is_refused() {
    let mut db = Db::new();
    db.set(k("k"), k("v"), None, SetCondition::NONE, false, false, 10);
    assert!(!db.expire(&k("k"), Some(5000), SetCondition::GT, 10));
    // LT against no instant applies: none stands greatest.
    assert!(db.expire(&k("k"), Some(5000), SetCondition::LT, 10));
}

#[test]
fn expire_on_absent_key_is_refused() {
    let mut db = Db::new();
    assert!(!db.expire(&k("missing"), Some(5000), SetCondition::NONE, 10));
}

#[test]
fn getex_persist_clears_and_returns_value() {
    let mut db = Db::new();
    db.set(k("k"), k("v"), Some(5000), SetCondition::NONE, false, false, 10);
    assert_eq!(db.getex(&k("k"), None, true, 10), Some(k("v")));
    assert_eq!(db.get_value(&k("k"), 9999999), Some(k("v")));
}

#[test]
fn getex_sets_new_instant() {
    let mut db = Db::new();
    db.set(k("k"), k("v"), None, SetCondition::NONE, false, false, 10);
    assert_eq!(db.getex(&k("k"), Some(5000), false, 10), Some(k("v")));
    assert_eq!(db.get_value(&k("k"), 5001), None);
}

#[test]
fn getex_with_no_options_reads_only() {
    let mut db = Db::new();
    db.set(k("k"), k("v"), Some(5000), SetCondition::NONE, false, false, 10);
    assert_eq!(db.getex(&k("k"), None, false, 10), Some(k("v")));
    assert_eq!(db.get_value(&k("k"), 4999), Some(k("v")));
    assert_eq!(db.get_value(&k("k"), 5001), None);
}

#[test]
fn reaper_removes_expired_and_spares_fresh() {
    let mut db = Db::new();
    db.set(k("old"), k("v"), Some(1000), SetCondition::NONE, false, false, 10);
    db.set(k("fresh"), k("w"), Some(9000), SetCondition::NONE, false, false, 10);
    assert!(db.check_expired(2000));
    db.remove_expired(2000);
    assert_eq!(db.get_value(&k("old"), 2000), None);
    assert_eq!(db.get_value(&k("fresh"), 2000), Some(k("w")));
    assert!(!db.check_expired(2000));
}

#[test]
fn reaper_tolerates_stale_index_tuples() {
    let mut db = Db::new();
    // The first instant is superseded; its stale tuple must not take
    // the entry with it.
    db.set(k("k"), k("v"), Some(1000), SetCondition::NONE, false, false, 10);
    db.expire(&k("k"), Some(9000), SetCondition::NONE, 10);
    db.remove_expired(2000);
    assert_eq!(db.get_value(&k("k"), 2000), Some(k("v")));
}
