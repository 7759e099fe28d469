use rusd_token::{Address, DataKey, Store};

#[test]
fn empty_store_holds_nothing() {
    let store = Store::new();
    assert!(!store.has(&DataKey::TotalShares));
    assert_eq!(store.get(&DataKey::TotalShares), None);
    assert_eq!(store.get(&DataKey::Shares(Address::new(1))), None);
}

#[test]
fn set_then_get_returns_the_value() {
    let mut store = Store::new();
    store.set(DataKey::TotalShares, 7);
    store.set(DataKey::Shares(Address::new(1)), 3);
    store.set(DataKey::Shares(Address::new(2)), 4);
    store.set(DataKey::Allowance(Address::new(1), Address::new(2)), 9);
    assert_eq!(store.get(&DataKey::TotalShares), Some(7));
    assert_eq!(store.get(&DataKey::Shares(Address::new(1))), Some(3));
    assert_eq!(store.get(&DataKey::Shares(Address::new(2))), Some(4));
    assert_eq!(store.get(&DataKey::Allowance(Address::new(1), Address::new(2))), Some(9));
    assert_eq!(store.get(&DataKey::Allowance(Address::new(2), Address::new(1))), None);
    assert!(store.has(&DataKey::Shares(Address::new(2))));
    assert!(!store.has(&DataKey::Shares(Address::new(3))));
}

#[test]
fn set_replaces_and_keeps_zero() {
    let mut store = Store::new();
    store.set(DataKey::TotalShares, 7);
    store.set(DataKey::TotalShares, 0);
    assert_eq!(store.get(&DataKey::TotalShares), Some(0));
    assert!(store.has(&DataKey::TotalShares));
    store.set(DataKey::TotalShares, i128::MAX);
    assert_eq!(store.get(&DataKey::TotalShares), Some(i128::MAX));
}

#[test]
fn remove_drops_one_key_only() {
    let mut store = Store::new();
    for id in 0..10u64 {
        store.set(DataKey::Shares(Address::new(id)), 100 + id as i128);
    }
    store.remove(&DataKey::Shares(Address::new(0)));
    store.remove(&DataKey::Shares(Address::new(4)));
    store.remove(&DataKey::Shares(Address::new(9)));
    store.remove(&DataKey::Shares(Address::new(77)));
    for id in 0..10u64 {
        let expected = if id == 0 || id == 4 || id == 9 { None } else { Some(100 + id as i128) };
        assert_eq!(store.get(&DataKey::Shares(Address::new(id))), expected);
    }
    store.set(DataKey::Shares(Address::new(4)), 1);
    assert_eq!(store.get(&DataKey::Shares(Address::new(4))), Some(1));
}
