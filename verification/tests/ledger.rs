use staking_engine::decimal::Decimal;
use staking_engine::keeper::StakeKeeper;
use staking_engine::ledger::{AddrSet, Shares, ValidatorInfo};
use staking_engine::storage::StakingStorage;
use staking_engine::table::Table;
use staking_engine::types::{coin, BlockInfo, StakingError, StakingInfo, Timestamp, Validator};

const ONE: u128 = 1_000_000_000_000_000_000;

fn mock_block() -> BlockInfo {
    BlockInfo {
        height: 12_345,
        time: Timestamp::from_nanos(1_571_797_419_879_305_533),
        chain_id: "cosmos-testnet-14002".to_string(),
    }
}

fn register(stake: &StakeKeeper, store: &mut StakingStorage, block: &BlockInfo, address: &str) {
    let v = Validator {
        address: address.to_string(),
        commission: Decimal::percent(10),
        max_commission: Decimal::percent(20),
        max_change_rate: Decimal::percent(1),
    };
    stake.add_validator(store, block, v).unwrap();
}

fn pool(stake: u128, shares: u128) -> ValidatorInfo {
    let mut info = ValidatorInfo::new(Timestamp::from_nanos(0));
    info.stake = stake;
    info.total_shares = Decimal::raw(shares);
    info
}

#[test]
fn first_staker_gets_one_share_per_token() {
    let info = ValidatorInfo::new(Timestamp::from_nanos(17));
    assert_eq!(info.stake, 0);
    assert_eq!(info.last_rewards_calculation, Timestamp::from_nanos(17));
    assert_eq!(info.shares_for(1), Some(Decimal::one()));
    assert_eq!(info.shares_for(200), Some(Decimal::raw(200 * ONE)));
    assert_eq!(info.shares_for(0), Some(Decimal::zero()));
    // more tokens than a decimal can count
    assert_eq!(info.shares_for(340_282_366_920_938_463_464), None);
}

#[test]
fn shares_follow_the_price_of_the_pool() {
    // at par
    assert_eq!(pool(100, 100 * ONE).shares_for(200), Some(Decimal::raw(200 * ONE)));
    // after half the stake was slashed a token buys two shares
    assert_eq!(pool(50, 100 * ONE).shares_for(10), Some(Decimal::raw(20 * ONE)));
    // 7 * 10 / 3 shares, rounded down to eighteen digits
    assert_eq!(
        pool(3, 10 * ONE).shares_for(7),
        Some(Decimal::raw(23_333_333_333_333_333_333))
    );
    // the product is taken at full width: only the shares have to fit
    assert_eq!(
        pool(20_000_000_000, 20_000_000_000 * ONE).shares_for(20_000_000_000),
        Some(Decimal::raw(20_000_000_000 * ONE))
    );
    assert_eq!(
        pool(u128::MAX, u128::MAX).shares_for(u128::MAX),
        Some(Decimal::raw(u128::MAX))
    );
    assert_eq!(pool(u128::MAX, 10 * ONE).shares_for(1), Some(Decimal::zero()));
    // too many shares for a decimal
    assert_eq!(pool(3, 10 * ONE).shares_for(u128::MAX), None);
    assert_eq!(pool(1, u128::MAX).shares_for(2), None);
}

#[test]
fn stake_is_shares_times_price_rounded_down() {
    let info = pool(300, 3 * ONE);
    assert_eq!(Shares(Decimal::one()).stake(&info), Some(100));
    assert_eq!(Shares(Decimal::raw(3 * ONE)).stake(&info), Some(300));
    assert_eq!(Shares(Decimal::raw(ONE / 3)).stake(&info), Some(33));
    assert_eq!(Shares(Decimal::zero()).stake(&info), Some(0));
    // a pool without shares is worth nothing to anybody
    assert_eq!(Shares(Decimal::one()).stake(&pool(0, 0)), Some(0));
    assert_eq!(Shares(Decimal::one()).stake(&pool(5, 0)), Some(0));
    // more than 128 bits hold
    assert_eq!(Shares(Decimal::raw(u128::MAX)).stake(&pool(u128::MAX, 1)), None);
}

#[test]
fn rewards_are_split_by_shares() {
    let info = pool(300, 300 * ONE);
    let rewards = Decimal::raw(27 * ONE);
    assert_eq!(
        Shares(Decimal::raw(100 * ONE)).rewards(&info, rewards),
        Some(Decimal::raw(9 * ONE))
    );
    assert_eq!(
        Shares(Decimal::raw(200 * ONE)).rewards(&info, rewards),
        Some(Decimal::raw(18 * ONE))
    );
    assert_eq!(
        Shares(Decimal::raw(300 * ONE)).rewards(&info, rewards),
        Some(rewards)
    );
    // a third of one token
    assert_eq!(
        Shares(Decimal::raw(100 * ONE)).rewards(&info, Decimal::one()),
        Some(Decimal::raw(333_333_333_333_333_333))
    );
    // no shares, no split
    assert_eq!(Shares(Decimal::one()).rewards(&pool(0, 0), rewards), None);
    assert_eq!(
        Shares(Decimal::raw(u128::MAX)).rewards(&info, Decimal::raw(u128::MAX)),
        None
    );
}

#[test]
fn staking_and_unstaking_at_par_is_exact() {
    let mut store = StakingStorage::new();
    let stake = StakeKeeper::new();
    let block = mock_block();
    register(&stake, &mut store, &block, "V1");
    let v1 = "V1".to_string();
    let a = "a".to_string();
    let b = "b".to_string();
    let c = "c".to_string();
    stake.add_stake(&mut store, &block, &a, &v1, coin(100, "TOKEN")).unwrap();
    stake.add_stake(&mut store, &block, &b, &v1, coin(33, "TOKEN")).unwrap();
    stake.add_stake(&mut store, &block, &c, &v1, coin(1, "TOKEN")).unwrap();
    stake.remove_stake(&mut store, &block, &a, &v1, coin(40, "TOKEN")).unwrap();
    stake.add_stake(&mut store, &block, &b, &v1, coin(7, "TOKEN")).unwrap();

    let info = store.validator_info.get(&v1).unwrap();
    assert_eq!(info.stake, 101);
    assert_eq!(info.total_shares, Decimal::raw(101 * ONE));
    assert_eq!(stake.get_stake(&store, &a, &v1).unwrap(), coin(60, "TOKEN"));
    assert_eq!(stake.get_stake(&store, &b, &v1).unwrap(), coin(40, "TOKEN"));
    assert_eq!(stake.get_stake(&store, &c, &v1).unwrap(), coin(1, "TOKEN"));
    assert_eq!(store.stakes.get(&(a.clone(), v1.clone())).unwrap().0, Decimal::raw(60 * ONE));
    let mut stakers = info.stakers.to_vec();
    stakers.sort();
    assert_eq!(stakers, vec!["a", "b", "c"]);
}

#[test]
fn values_add_up_to_the_stake_within_one_token_each() {
    let mut store = StakingStorage::new();
    let stake = StakeKeeper::new();
    let block = mock_block();
    register(&stake, &mut store, &block, "V1");
    let v1 = "V1".to_string();
    let who = ["a", "b", "c", "d", "e"];
    for (i, name) in who.iter().enumerate() {
        stake
            .add_stake(&mut store, &block, &name.to_string(), &v1, coin(10 + i as u128, "TOKEN"))
            .unwrap();
    }
    stake.slash(&mut store, &v1, Decimal::percent(37)).unwrap();
    stake
        .remove_stake(&mut store, &block, &"c".to_string(), &v1, coin(3, "TOKEN"))
        .unwrap();
    stake
        .add_stake(&mut store, &block, &"a".to_string(), &v1, coin(11, "TOKEN"))
        .unwrap();
    let total = store.validator_info.get(&v1).unwrap().stake;
    // 60 * 0.63 = 37.8, so 37; then 3 out and 11 in
    assert_eq!(total, 45);
    let mut sum = 0u128;
    for name in who {
        sum += stake.get_stake(&store, &name.to_string(), &v1).unwrap().amount;
    }
    assert!(sum <= total);
    assert!(total - sum <= who.len() as u128);
}

#[test]
fn unstaking_everything_deletes_the_entry() {
    let mut store = StakingStorage::new();
    let stake = StakeKeeper::new();
    let block = mock_block();
    register(&stake, &mut store, &block, "V1");
    let v1 = "V1".to_string();
    let a = "a".to_string();
    let b = "b".to_string();
    stake.add_stake(&mut store, &block, &a, &v1, coin(100, "TOKEN")).unwrap();
    stake.add_stake(&mut store, &block, &b, &v1, coin(50, "TOKEN")).unwrap();
    stake.remove_stake(&mut store, &block, &a, &v1, coin(100, "TOKEN")).unwrap();

    assert!(!store.stakes.contains_key(&(a.clone(), v1.clone())));
    let info = store.validator_info.get(&v1).unwrap();
    assert!(!info.stakers.contains(&a));
    assert!(info.stakers.contains(&b));
    assert_eq!(info.stake, 50);
    assert_eq!(info.total_shares, Decimal::raw(50 * ONE));
    assert_eq!(stake.get_stake(&store, &a, &v1).unwrap(), coin(0, "TOKEN"));

    stake.remove_stake(&mut store, &block, &b, &v1, coin(50, "TOKEN")).unwrap();
    let info = store.validator_info.get(&v1).unwrap();
    assert_eq!(info.stake, 0);
    assert_eq!(info.total_shares, Decimal::zero());
    assert!(info.stakers.to_vec().is_empty());
}

#[test]
fn stake_errors_come_in_order_and_change_nothing() {
    let mut store = StakingStorage::new();
    let stake = StakeKeeper::new();
    let block = mock_block();
    register(&stake, &mut store, &block, "V1");
    let v1 = "V1".to_string();
    let a = "a".to_string();
    stake.add_stake(&mut store, &block, &a, &v1, coin(100, "TOKEN")).unwrap();

    // the denomination is looked at before the amount
    assert_eq!(
        stake.add_stake(&mut store, &block, &a, &v1, coin(0, "FOO")),
        Err(StakingError::WrongDenom)
    );
    assert_eq!(
        stake.add_stake(&mut store, &block, &a, &v1, coin(5, "token")),
        Err(StakingError::WrongDenom)
    );
    assert_eq!(
        stake.add_stake(&mut store, &block, &a, &v1, coin(0, "TOKEN")),
        Err(StakingError::ZeroAmount)
    );
    assert_eq!(
        stake.remove_stake(&mut store, &block, &a, &v1, coin(0, "TOKEN")),
        Err(StakingError::ZeroAmount)
    );
    assert_eq!(
        stake.add_stake(&mut store, &block, &a, &"ghost".to_string(), coin(5, "TOKEN")),
        Err(StakingError::NotFound)
    );
    assert_eq!(
        stake.remove_stake(&mut store, &block, &a, &v1, coin(101, "TOKEN")),
        Err(StakingError::InsufficientStake)
    );
    assert_eq!(
        stake.remove_stake(&mut store, &block, &"b".to_string(), &v1, coin(1, "TOKEN")),
        Err(StakingError::InsufficientStake)
    );
    assert_eq!(
        stake.add_stake(&mut store, &block, &a, &v1, coin(u128::MAX, "TOKEN")),
        Err(StakingError::Fatal)
    );
    assert_eq!(
        stake.init_stake(&mut store, &block, &a, &v1, coin(0, "TOKEN")),
        Err(StakingError::ZeroAmount)
    );

    let info = store.validator_info.get(&v1).unwrap();
    assert_eq!(info.stake, 100);
    assert_eq!(info.total_shares, Decimal::raw(100 * ONE));
    assert_eq!(info.stakers.to_vec(), vec!["a"]);
    assert_eq!(stake.get_stake(&store, &a, &v1).unwrap(), coin(100, "TOKEN"));
}

#[test]
fn stake_is_counted_in_the_bonded_denomination() {
    let mut store = StakingStorage::new();
    let stake = StakeKeeper::new();
    let block = mock_block();
    stake
        .setup(
            &mut store,
            StakingInfo {
                bonded_denom: "ustake".to_string(),
                unbonding_time: 10,
                apr: Decimal::percent(5),
            },
        )
        .unwrap();
    register(&stake, &mut store, &block, "V1");
    let v1 = "V1".to_string();
    let a = "a".to_string();
    assert_eq!(
        stake.add_stake(&mut store, &block, &a, &v1, coin(5, "TOKEN")),
        Err(StakingError::WrongDenom)
    );
    stake.init_stake(&mut store, &block, &a, &v1, coin(5, "ustake")).unwrap();
    assert_eq!(stake.get_stake(&store, &a, &v1).unwrap(), coin(5, "ustake"));
    assert_eq!(
        stake.get_stake(&store, &a, &"ghost".to_string()).unwrap(),
        coin(0, "ustake")
    );
    assert_eq!(stake.validate_denom(&store, &coin(1, "ustake")), Ok(()));
    assert_eq!(stake.validate_nonzero(&coin(1, "x")), Ok(()));
    assert_eq!(stake.validate_percentage(Decimal::one()), Ok(()));
}

#[test]
fn staking_realizes_rewards_on_the_old_stake() {
    let mut store = StakingStorage::new();
    let stake = StakeKeeper::new();
    let mut block = mock_block();
    register(&stake, &mut store, &block, "V1");
    let v1 = "V1".to_string();
    let a = "a".to_string();
    stake.add_stake(&mut store, &block, &a, &v1, coin(100, "TOKEN")).unwrap();
    block.time = block.time.plus_seconds(60 * 60 * 24 * 365).unwrap();
    stake.add_stake(&mut store, &block, &a, &v1, coin(900, "TOKEN")).unwrap();
    let info = store.validator_info.get(&v1).unwrap();
    // a year on 100 tokens, not on 1000
    assert_eq!(info.calculated_rewards, Decimal::raw(9 * ONE));
    assert_eq!(info.last_rewards_calculation, block.time);
    assert_eq!(info.stake, 1000);
}

#[test]
fn address_sets_hold_each_address_once() {
    let mut set = AddrSet::new();
    assert!(!set.contains(&"a".to_string()));
    set.insert("a".to_string());
    set.insert("b".to_string());
    set.insert("a".to_string());
    assert!(set.contains(&"a".to_string()));
    assert!(set.contains(&"b".to_string()));
    assert_eq!(set.to_vec().len(), 2);
    let copy = set.clone();
    set.remove(&"a".to_string());
    set.remove(&"zz".to_string());
    assert!(!set.contains(&"a".to_string()));
    assert_eq!(set.to_vec(), vec!["b"]);
    assert!(copy.contains(&"a".to_string()));
}

#[test]
fn tables_hold_one_value_for_each_key() {
    let mut table: Table<String, u128> = Table::new();
    assert_eq!(table.get(&"a".to_string()), None);
    table.insert("a".to_string(), 1);
    table.insert("b".to_string(), 2);
    table.insert("a".to_string(), 3);
    assert_eq!(table.get(&"a".to_string()), Some(&3));
    assert_eq!(table.get(&"b".to_string()), Some(&2));
    assert!(table.contains_key(&"b".to_string()));
    table.remove(&"a".to_string());
    table.remove(&"nothing".to_string());
    assert_eq!(table.get(&"a".to_string()), None);
    assert!(!table.contains_key(&"a".to_string()));
    assert_eq!(table.get(&"b".to_string()), Some(&2));

    let mut pairs: Table<(String, String), u128> = Table::new();
    pairs.insert(("a".to_string(), "b".to_string()), 1);
    pairs.insert(("b".to_string(), "a".to_string()), 2);
    assert_eq!(pairs.get(&("a".to_string(), "b".to_string())), Some(&1));
    assert_eq!(pairs.get(&("b".to_string(), "a".to_string())), Some(&2));
    assert_eq!(pairs.get(&("a".to_string(), "a".to_string())), None);
}

#[test]
fn address_sets_list_each_member_once() {
    let mut set = AddrSet::new();
    for who in ["c", "a", "b", "a", "c", "c"] {
        set.insert(who.to_string());
    }
    let mut members = set.to_vec();
    members.sort();
    assert_eq!(members, vec!["a", "b", "c"]);
    set.remove(&"b".to_string());
    set.insert("a".to_string());
    let mut members = set.clone().to_vec();
    members.sort();
    assert_eq!(members, vec!["a", "c"]);
}

#[test]
fn large_pools_take_large_stakes() {
    let mut store = StakingStorage::new();
    let stake = StakeKeeper::new();
    let block = mock_block();
    register(&stake, &mut store, &block, "V1");
    let v1 = "V1".to_string();
    let a = "a".to_string();
    let b = "b".to_string();
    stake
        .add_stake(&mut store, &block, &a, &v1, coin(20_000_000_000, "TOKEN"))
        .unwrap();
    stake
        .add_stake(&mut store, &block, &b, &v1, coin(20_000_000_000, "TOKEN"))
        .unwrap();
    stake
        .remove_stake(&mut store, &block, &a, &v1, coin(5_000_000_000, "TOKEN"))
        .unwrap();
    let info = store.validator_info.get(&v1).unwrap();
    assert_eq!(info.stake, 35_000_000_000);
    assert_eq!(info.total_shares, Decimal::raw(35_000_000_000 * ONE));
    assert_eq!(
        stake.get_stake(&store, &a, &v1).unwrap(),
        coin(15_000_000_000, "TOKEN")
    );
    assert_eq!(
        stake.get_stake(&store, &b, &v1).unwrap(),
        coin(20_000_000_000, "TOKEN")
    );
}
