use redis_lite::pool::Pool;
use redis_lite::resp::Resp;
use redis_lite::store::{does_time_hold, InMem};

const MS: i128 = 1_000_000;

#[test]
fn read_own_write() {
    let mut store = InMem::new();
    assert_eq!(store.get("k"), None);
    assert_eq!(store.set("k".to_string(), Resp::BulkStr("v".to_string()), None), Ok(()));
    assert_eq!(store.get("k"), Some(Resp::BulkStr("v".to_string())));
    assert_eq!(store.get("other"), None);
    store.set("k".to_string(), Resp::Num(2), None).unwrap();
    assert_eq!(store.get("k"), Some(Resp::Num(2)));
}

#[test]
fn entries_expire() {
    let mut store = InMem::new();
    store.set_at("k".to_string(), Resp::BulkStr("v".to_string()), Some(100), 1_000 * MS).unwrap();
    assert_eq!(store.get_at("k", 1_000 * MS), Some(Resp::BulkStr("v".to_string())));
    assert_eq!(store.get_at("k", 1_099 * MS + MS - 1), Some(Resp::BulkStr("v".to_string())));
    assert_eq!(store.get_at("k", 1_100 * MS), None);
    assert_eq!(store.get_at("k", 5_000 * MS), None);
    assert_eq!(store.get_at("k", 999 * MS), None);
}

#[test]
fn zero_ttl_is_expired_at_once() {
    let mut store = InMem::new();
    store.set_at("k".to_string(), Resp::Nil, Some(0), 10).unwrap();
    assert_eq!(store.get_at("k", 10), None);
}

#[test]
fn live_entry_by_clock() {
    let mut store = InMem::new();
    store.set("k".to_string(), Resp::Nil, Some(60_000)).unwrap();
    assert_eq!(store.get("k"), Some(Resp::Nil));
}

#[test]
fn time_holds() {
    assert!(does_time_hold(None, 0));
    assert!(does_time_hold(Some(&(10, 1)), 10 + MS - 1));
    assert!(!does_time_hold(Some(&(10, 1)), 10 + MS));
    assert!(!does_time_hold(Some(&(10, 5)), 9));
}

#[test]
fn pool_hands_out_each_worker_once() {
    let mut pool = Pool::new();
    for i in 0..10 {
        assert_eq!(pool.execute(), Some(i));
    }
    assert_eq!(pool.execute(), None);
    assert_eq!(pool.execute(), None);
}

#[test]
fn entries_expire_before_the_epoch() {
    let mut store = InMem::new();
    store.set_at("k".to_string(), Resp::Nil, Some(5), -10 * MS).unwrap();
    assert_eq!(store.get_at("k", -10 * MS), Some(Resp::Nil));
    assert_eq!(store.get_at("k", -6 * MS + 1), Some(Resp::Nil));
    assert_eq!(store.get_at("k", -5 * MS), None);
    assert_eq!(store.get_at("k", 3 * MS), None);
    assert_eq!(store.get_at("k", -11 * MS), None);
    assert!(does_time_hold(Some(&(i128::MIN, u128::MAX)), i128::MAX));
    assert!(!does_time_hold(Some(&(i128::MIN, 1)), i128::MAX));
}
