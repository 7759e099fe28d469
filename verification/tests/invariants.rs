use rusd_token::{Address, DataKey, Error, Event, RUsdToken};

const RESERVE_ASSET: u64 = 900;

fn ledger() -> RUsdToken {
    let mut ledger = RUsdToken::new();
    ledger
        .init(Address::new(RESERVE_ASSET), "rUSD".to_string(), "rUSD".to_string(), 7)
        .unwrap();
    ledger
}

fn holders() -> Vec<Address> {
    (1..=5u64).map(Address::new).collect()
}

fn held_shares(ledger: &RUsdToken) -> i128 {
    holders().iter().map(|h| ledger.read_shares(*h)).sum()
}

fn held_value(ledger: &RUsdToken, underlying: i128) -> i128 {
    holders().iter().map(|h| ledger.balance(*h, underlying).unwrap()).sum()
}

/// Deposits `amount` for `to` into a reserve of `reserve` units and returns
/// what the reserve holds afterwards.
fn deposit(ledger: &mut RUsdToken, to: Address, amount: i128, reserve: i128) -> i128 {
    ledger.mint(to, amount, reserve + amount).unwrap();
    reserve + amount
}

#[test]
fn new_ledger_is_empty_and_unconfigured() {
    let ledger = RUsdToken::new();
    assert!(!ledger.has(&DataKey::Config));
    assert!(!ledger.has(&DataKey::TotalShares));
    assert_eq!(ledger.read_total_shares(), 0);
    assert_eq!(ledger.read_shares(Address::new(1)), 0);
    assert_eq!(ledger.allowance(Address::new(1), Address::new(2)), 0);
    assert_eq!(ledger.name(), Err(Error::NotInitialized));
    assert_eq!(ledger.symbol(), Err(Error::NotInitialized));
    assert_eq!(ledger.decimals(), Err(Error::NotInitialized));
    assert_eq!(ledger.usdc_contract_id(), Err(Error::NotInitialized));
    assert!(ledger.read_config().is_err());
}

#[test]
fn init_twice_is_refused_and_keeps_the_first_configuration() {
    let mut ledger = ledger();
    assert!(ledger.has(&DataKey::Config));
    assert_eq!(
        ledger.init(Address::new(1), "other".to_string(), "OTH".to_string(), 2),
        Err(Error::AlreadyInitialized)
    );
    assert_eq!(ledger.name(), Ok("rUSD".to_string()));
    assert_eq!(ledger.symbol(), Ok("rUSD".to_string()));
    assert_eq!(ledger.decimals(), Ok(7));
    assert_eq!(ledger.usdc_contract_id(), Ok(Address::new(RESERVE_ASSET)));
    let config = ledger.read_config().unwrap().clone();
    assert_eq!(config.name, "rUSD");
    assert_eq!(config.decimals, 7);
}

#[test]
fn queries_on_an_empty_ledger_are_zero_even_before_init() {
    let ledger = RUsdToken::new();
    assert_eq!(ledger.balance(Address::new(1), 0), Ok(0));
    assert_eq!(ledger.balance(Address::new(1), 500), Ok(0));
    assert_eq!(ledger.total_supply(500), Ok(0));
}

#[test]
fn operations_before_init_are_refused() {
    let mut ledger = RUsdToken::new();
    let (a, b) = (Address::new(1), Address::new(2));
    assert_eq!(ledger.mint(a, 10, 10), Err(Error::NotInitialized));
    assert_eq!(ledger.burn(a, 10, 10), Err(Error::NotInitialized));
    assert_eq!(ledger.transfer(a, b, 10, 10), Err(Error::NotInitialized));
    assert_eq!(ledger.approve(a, b, 10), Err(Error::NotInitialized));
    assert_eq!(ledger.approve(a, b, 0), Err(Error::NotInitialized));
    assert_eq!(ledger.allowance(a, b), 0);
    assert!(!ledger.has(&DataKey::Allowance(a, b)));
    assert_eq!(ledger.transfer_from(b, a, b, 11, 10), Err(Error::InsufficientAllowance));
    assert_eq!(ledger.transfer_from(b, a, b, 10, 10), Err(Error::InsufficientAllowance));
    assert_eq!(ledger.read_total_shares(), 0);
}

#[test]
fn approve_after_init_is_accepted() {
    let mut ledger = RUsdToken::new();
    let (a, b) = (Address::new(1), Address::new(2));
    assert_eq!(ledger.approve(a, b, 10), Err(Error::NotInitialized));
    ledger.init(Address::new(RESERVE_ASSET), "rUSD".to_string(), "rUSD".to_string(), 7).unwrap();
    assert_eq!(ledger.approve(a, b, 10), Ok(()));
    assert_eq!(ledger.allowance(a, b), 10);
    assert_eq!(ledger.transfer_from(b, a, b, 10, 10), Err(Error::InsufficientShares));
}

#[test]
fn rounding_leaves_less_than_a_unit_per_holder() {
    let mut ledger = ledger();
    let h = holders();
    ledger.mint(h[0], 1, 1).unwrap();
    ledger.mint(h[1], 1, 2).unwrap();
    ledger.mint(h[2], 1, 3).unwrap();
    assert_eq!(held_value(&ledger, 11), 9);
    for reserve in 0..100 {
        let dust = reserve - held_value(&ledger, reserve);
        assert!(0 <= dust && dust < 3);
    }
}

#[test]
fn non_positive_amounts_are_refused_first() {
    let mut ledger = RUsdToken::new();
    let (a, b) = (Address::new(1), Address::new(2));
    assert_eq!(ledger.mint(a, 0, 0), Err(Error::ZeroAmount));
    assert_eq!(ledger.burn(a, -1, 0), Err(Error::ZeroAmount));
    assert_eq!(ledger.transfer(a, b, 0, 0), Err(Error::ZeroAmount));
    assert_eq!(ledger.transfer_from(b, a, b, 0, 0), Err(Error::ZeroAmount));
    assert_eq!(ledger.approve(a, b, -1), Err(Error::ZeroAmount));
}

#[test]
fn first_mint_yields_one_share_per_unit() {
    let mut ledger = ledger();
    let a = Address::new(1);
    assert_eq!(ledger.mint(a, 200, 200), Ok(Event::Mint { to: a, amount: 200 }));
    assert_eq!(ledger.read_shares(a), 200);
    assert_eq!(ledger.read_total_shares(), 200);
    assert_eq!(ledger.balance(a, 200), Ok(200));
    assert_eq!(ledger.total_supply(200), Ok(200));
}

#[test]
fn first_mint_into_a_reserve_that_holds_more_owns_all_of_it() {
    let mut ledger = ledger();
    let a = Address::new(1);
    ledger.mint(a, 10, 15).unwrap();
    assert_eq!(ledger.read_shares(a), 10);
    assert_eq!(ledger.balance(a, 15), Ok(15));
}

#[test]
fn inflow_raises_a_sole_holder_by_the_whole_inflow() {
    let mut ledger = ledger();
    let (a, b) = (Address::new(1), Address::new(2));
    ledger.mint(a, 100, 100).unwrap();
    let before = ledger.balance(a, 100).unwrap();
    let after = ledger.balance(a, 115).unwrap();
    assert_eq!(after - before, 15);
    assert_eq!(ledger.balance(b, 115), Ok(0));
}

#[test]
fn inflow_is_shared_in_proportion_rounded_down() {
    let mut ledger = ledger();
    let (a, b) = (Address::new(1), Address::new(2));
    let reserve = deposit(&mut ledger, a, 100, 0);
    let reserve = deposit(&mut ledger, b, 50, reserve);
    assert_eq!(reserve, 150);
    assert_eq!(ledger.read_total_shares(), 150);
    for inflow in 0..40 {
        let gain_a = ledger.balance(a, reserve + inflow).unwrap() - ledger.balance(a, reserve).unwrap();
        let gain_b = ledger.balance(b, reserve + inflow).unwrap() - ledger.balance(b, reserve).unwrap();
        assert_eq!(gain_a, 100 * inflow / 150);
        assert_eq!(gain_b, 50 * inflow / 150);
    }
}

#[test]
fn inflow_can_complete_a_unit_that_rounding_had_cut_off() {
    let mut ledger = ledger();
    let (a, b) = (Address::new(1), Address::new(2));
    ledger.mint(a, 1, 1).unwrap();
    ledger.mint(b, 1, 2).unwrap();
    assert_eq!(ledger.read_total_shares(), 2);
    let (shares, total, inflow) = (ledger.read_shares(a), ledger.read_total_shares(), 1);
    let gain = ledger.balance(a, 1 + inflow).unwrap() - ledger.balance(a, 1).unwrap();
    assert_eq!(gain, 1);
    assert_eq!(shares * inflow / total, 0);
}

#[test]
fn transfer_converts_exactly_and_reports_the_units() {
    let mut ledger = ledger();
    let (a, b) = (Address::new(1), Address::new(2));
    ledger.mint(a, 100, 100).unwrap();
    assert_eq!(
        ledger.transfer(a, b, 40, 100),
        Ok(Event::Transfer { from: a, to: b, amount: 40 })
    );
    assert_eq!(ledger.read_shares(a), 60);
    assert_eq!(ledger.read_shares(b), 40);
    assert_eq!(ledger.read_total_shares(), 100);
}

#[test]
fn transfer_is_priced_at_the_reserve_of_the_moment() {
    let mut ledger = ledger();
    let (a, b) = (Address::new(1), Address::new(2));
    ledger.mint(a, 100, 200).unwrap();
    assert_eq!(ledger.balance(a, 200), Ok(200));
    assert_eq!(ledger.transfer(a, b, 60, 50), Err(Error::InsufficientShares));
    assert_eq!(ledger.read_shares(a), 100);
    assert_eq!(ledger.read_shares(b), 0);
    assert_eq!(
        ledger.transfer(a, b, 60, 200),
        Ok(Event::Transfer { from: a, to: b, amount: 60 })
    );
    assert_eq!(ledger.read_shares(a), 70);
    assert_eq!(ledger.read_shares(b), 30);
}

#[test]
fn transfer_to_oneself_keeps_the_balance() {
    let mut ledger = ledger();
    let a = Address::new(1);
    ledger.mint(a, 100, 100).unwrap();
    assert_eq!(ledger.transfer(a, a, 40, 100), Ok(Event::Transfer { from: a, to: a, amount: 40 }));
    assert_eq!(ledger.read_shares(a), 100);
    assert_eq!(ledger.transfer(a, a, 101, 100), Err(Error::InsufficientShares));
}

#[test]
fn shares_over_an_empty_reserve_refuse_to_be_priced() {
    let mut ledger = ledger();
    let (a, b) = (Address::new(1), Address::new(2));
    ledger.mint(a, 100, 100).unwrap();
    assert_eq!(ledger.transfer(a, b, 1, 0), Err(Error::DivisionByZero));
    assert_eq!(ledger.burn(a, 1, 0), Err(Error::DivisionByZero));
    assert_eq!(ledger.mint(b, 5, 5), Err(Error::DivisionByZero));
    assert_eq!(ledger.balance(a, 0), Ok(0));
    assert_eq!(ledger.total_supply(0), Ok(0));
}

#[test]
fn overflow_is_reported_and_changes_nothing() {
    let mut ledger = ledger();
    let (a, b) = (Address::new(1), Address::new(2));
    ledger.mint(a, i128::MAX, i128::MAX).unwrap();
    assert_eq!(ledger.read_total_shares(), i128::MAX);
    assert_eq!(ledger.balance(a, 2), Err(Error::Overflow));
    assert_eq!(ledger.total_supply(2), Err(Error::Overflow));
    assert_eq!(ledger.balance(a, 1), Ok(1));
    assert_eq!(ledger.transfer(a, b, 2, 2), Err(Error::Overflow));
    assert_eq!(ledger.mint(b, 1, 2), Err(Error::Overflow));
    assert_eq!(ledger.mint(b, 3, 2), Err(Error::Overflow));
    assert_eq!(ledger.read_shares(a), i128::MAX);
    assert_eq!(ledger.read_shares(b), 0);
    assert_eq!(ledger.read_total_shares(), i128::MAX);
}

#[test]
fn approve_sets_replaces_and_clears() {
    let mut ledger = ledger();
    let (a, s) = (Address::new(1), Address::new(2));
    assert_eq!(ledger.approve(a, s, 50), Ok(()));
    assert_eq!(ledger.allowance(a, s), 50);
    assert_eq!(ledger.allowance(s, a), 0);
    assert!(ledger.has(&DataKey::Allowance(a, s)));
    assert_eq!(ledger.approve(a, s, 7), Ok(()));
    assert_eq!(ledger.allowance(a, s), 7);
    assert_eq!(ledger.approve(a, s, 0), Ok(()));
    assert_eq!(ledger.allowance(a, s), 0);
    assert!(!ledger.has(&DataKey::Allowance(a, s)));
    assert_eq!(ledger.approve(a, s, -3), Err(Error::ZeroAmount));
    assert_eq!(ledger.allowance(a, s), 0);
    let mut fresh = RUsdToken::new();
    assert_eq!(fresh.approve(a, s, -3), Err(Error::ZeroAmount));
}

#[test]
fn transfer_from_spends_the_allowance_in_units() {
    let mut ledger = ledger();
    let (a, b, s) = (Address::new(1), Address::new(2), Address::new(3));
    ledger.mint(a, 100, 100).unwrap();
    ledger.approve(a, s, 50).unwrap();
    assert_eq!(ledger.transfer_from(s, a, b, 20, 200), Ok(()));
    assert_eq!(ledger.allowance(a, s), 30);
    assert_eq!(ledger.read_shares(a), 90);
    assert_eq!(ledger.read_shares(b), 10);
    assert_eq!(ledger.transfer_from(s, a, b, 31, 200), Err(Error::InsufficientAllowance));
    assert_eq!(ledger.transfer_from(b, a, b, 1, 200), Err(Error::InsufficientAllowance));
    assert_eq!(ledger.transfer_from(s, a, b, 30, 200), Ok(()));
    assert_eq!(ledger.allowance(a, s), 0);
    assert!(!ledger.has(&DataKey::Allowance(a, s)));
    assert_eq!(ledger.read_shares(a), 75);
    assert_eq!(ledger.read_shares(b), 25);
}

#[test]
fn transfer_from_needs_the_shares_too() {
    let mut ledger = ledger();
    let (a, b, s) = (Address::new(1), Address::new(2), Address::new(3));
    ledger.mint(a, 10, 10).unwrap();
    ledger.approve(a, s, 50).unwrap();
    assert_eq!(ledger.transfer_from(s, a, b, 11, 10), Err(Error::InsufficientShares));
    assert_eq!(ledger.allowance(a, s), 50);
    assert_eq!(ledger.read_shares(a), 10);
    assert_eq!(ledger.read_shares(b), 0);
}

#[test]
fn burn_returns_the_payout_and_forgets_empty_holders() {
    let mut ledger = ledger();
    let a = Address::new(1);
    ledger.mint(a, 100, 100).unwrap();
    assert_eq!(ledger.burn(a, 40, 100), Ok(40));
    assert_eq!(ledger.read_shares(a), 60);
    assert_eq!(ledger.read_total_shares(), 60);
    assert_eq!(ledger.burn(a, 61, 60), Err(Error::InsufficientShares));
    assert_eq!(ledger.burn(a, 60, 60), Ok(60));
    assert_eq!(ledger.read_shares(a), 0);
    assert!(!ledger.has(&DataKey::Shares(a)));
    assert!(ledger.has(&DataKey::TotalShares));
    assert_eq!(ledger.read_total_shares(), 0);
    assert_eq!(ledger.total_supply(0), Ok(0));
}

#[test]
fn burn_payout_follows_the_rounding() {
    let mut ledger = ledger();
    let (a, b) = (Address::new(1), Address::new(2));
    ledger.mint(a, 2, 2).unwrap();
    ledger.mint(b, 1, 3).unwrap();
    assert_eq!(ledger.read_total_shares(), 3);
    assert_eq!(ledger.burn(a, 4, 10), Ok(6));
    assert_eq!(ledger.read_shares(a), 0);
    assert_eq!(ledger.read_total_shares(), 1);
}

#[test]
fn shares_add_up_to_the_total_after_every_operation() {
    let mut ledger = ledger();
    let h = holders();
    let spender = Address::new(50);
    let mut reserve: i128 = 0;
    assert_eq!(held_shares(&ledger), ledger.read_total_shares());
    for round in 0..30i128 {
        let who = h[(round % 5) as usize];
        let other = h[((round * 3 + 1) % 5) as usize];
        if ledger.mint(who, 17 + round * 3, reserve + 17 + round * 3).is_ok() {
            reserve += 17 + round * 3;
        }
        assert_eq!(held_shares(&ledger), ledger.read_total_shares());
        reserve += round % 4;
        let _ = ledger.transfer(who, other, 5 + round, reserve);
        assert_eq!(held_shares(&ledger), ledger.read_total_shares());
        let _ = ledger.approve(who, spender, 9 + round);
        let _ = ledger.transfer_from(spender, who, other, 9, reserve);
        assert_eq!(held_shares(&ledger), ledger.read_total_shares());
        if let Ok(payout) = ledger.burn(other, 3 + round, reserve) {
            assert!(payout <= reserve);
            reserve -= payout;
        }
        assert_eq!(held_shares(&ledger), ledger.read_total_shares());
        assert!(held_value(&ledger, reserve) <= reserve);
        assert_eq!(
            ledger.total_supply(reserve),
            Ok(if ledger.read_total_shares() == 0 { 0 } else { reserve })
        );
    }
    assert!(ledger.read_total_shares() > 0);
}

#[test]
fn balances_never_exceed_the_reserve() {
    let mut ledger = ledger();
    let h = holders();
    ledger.mint(h[0], 1, 1).unwrap();
    ledger.mint(h[1], 1, 2).unwrap();
    ledger.mint(h[2], 1, 3).unwrap();
    assert_eq!(ledger.read_total_shares(), 3);
    assert_eq!(held_value(&ledger, 10), 9);
    assert_eq!(held_value(&ledger, 11), 9);
    assert_eq!(held_value(&ledger, 12), 12);
    for reserve in 0..100 {
        assert!(held_value(&ledger, reserve) <= reserve);
    }
}

#[test]
fn queries_repeat_and_change_nothing() {
    let mut ledger = ledger();
    let (a, b) = (Address::new(1), Address::new(2));
    ledger.mint(a, 100, 100).unwrap();
    ledger.mint(b, 37, 137).unwrap();
    for reserve in [0, 1, 137, 1000] {
        let first = ledger.balance(a, reserve);
        let second = ledger.balance(a, reserve);
        assert_eq!(first, second);
        assert_eq!(ledger.total_supply(reserve), ledger.total_supply(reserve));
        assert_eq!(ledger.allowance(a, b), ledger.allowance(a, b));
    }
    assert_eq!(ledger.read_shares(a), 100);
    assert_eq!(ledger.read_shares(b), 37);
    assert_eq!(ledger.read_total_shares(), 137);
}

#[test]
fn refused_operations_leave_the_ledger_as_it_was() {
    let mut ledger = ledger();
    let (a, b, s) = (Address::new(1), Address::new(2), Address::new(3));
    ledger.mint(a, 100, 100).unwrap();
    ledger.approve(a, s, 10).unwrap();
    assert!(ledger.transfer(a, b, 101, 100).is_err());
    assert!(ledger.transfer_from(s, a, b, 11, 100).is_err());
    assert!(ledger.burn(b, 1, 100).is_err());
    assert!(ledger.mint(b, 0, 100).is_err());
    assert!(ledger.mint(b, 10, 5).is_err());
    assert!(ledger.approve(a, s, -1).is_err());
    assert_eq!(ledger.read_shares(a), 100);
    assert_eq!(ledger.read_shares(b), 0);
    assert_eq!(ledger.read_total_shares(), 100);
    assert_eq!(ledger.allowance(a, s), 10);
    assert!(!ledger.has(&DataKey::Shares(b)));
}

#[test]
fn transfer_raises_the_receiver_by_at_least_the_amount() {
    let mut ledger = ledger();
    let (a, b) = (Address::new(1), Address::new(2));
    ledger.mint(a, 7, 7).unwrap();
    ledger.mint(b, 3, 10).unwrap();
    let reserve = 23;
    for amount in 1..=4 {
        let before = ledger.balance(b, reserve).unwrap();
        ledger.transfer(a, b, amount, reserve).unwrap();
        let after = ledger.balance(b, reserve).unwrap();
        assert!(after >= before + amount);
        assert_eq!(ledger.read_total_shares(), 10);
    }
    assert_eq!(ledger.read_shares(a), 1);
    assert_eq!(ledger.read_shares(b), 9);
}

#[test]
fn mint_raises_the_depositor_by_at_least_the_amount() {
    let mut ledger = ledger();
    let (a, b) = (Address::new(1), Address::new(2));
    ledger.mint(a, 7, 7).unwrap();
    let mut reserve = 23;
    for amount in 1..=20 {
        let before = ledger.balance(b, reserve).unwrap();
        ledger.mint(b, amount, reserve + amount).unwrap();
        reserve += amount;
        let after = ledger.balance(b, reserve).unwrap();
        assert!(after >= before + amount);
    }
    assert_eq!(ledger.read_shares(a), 7);
    assert_eq!(ledger.read_shares(a) + ledger.read_shares(b), ledger.read_total_shares());
}

#[test]
fn burn_pays_at_least_the_amount_and_keeps_the_others_whole() {
    let mut ledger = ledger();
    let (a, b) = (Address::new(1), Address::new(2));
    ledger.mint(a, 7, 7).unwrap();
    ledger.mint(b, 3, 10).unwrap();
    let mut reserve = 23;
    for amount in 1..=4 {
        let other = ledger.balance(b, reserve).unwrap();
        let payout = ledger.burn(a, amount, reserve).unwrap();
        assert!(payout >= amount);
        assert!(payout <= reserve);
        reserve -= payout;
        assert!(ledger.balance(b, reserve).unwrap() >= other);
    }
    assert_eq!(ledger.read_shares(b), 3);
    assert_eq!(ledger.read_shares(a) + 3, ledger.read_total_shares());
}
