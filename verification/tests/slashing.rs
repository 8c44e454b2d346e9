use staking_engine::decimal::Decimal;
use staking_engine::keeper::StakeKeeper;
use staking_engine::messages::StakingSudo;
use staking_engine::storage::StakingStorage;
use staking_engine::types::{coin, BlockInfo, StakingError, Timestamp, Validator};

fn mock_block() -> BlockInfo {
    BlockInfo {
        height: 12_345,
        time: Timestamp::from_nanos(1_571_797_419_879_305_533),
        chain_id: "cosmos-testnet-14002".to_string(),
    }
}

fn register(stake: &StakeKeeper, store: &mut StakingStorage, block: &BlockInfo, address: &str) {
    let v = Validator {
        address: address.to_string(),
        commission: Decimal::percent(10),
        max_commission: Decimal::percent(20),
        max_change_rate: Decimal::percent(1),
    };
    stake.add_validator(store, block, v).unwrap();
}

#[test]
fn validator_slashing() {
    let mut store = StakingStorage::new();
    let stake = StakeKeeper::new();
    let block = mock_block();

    let delegator = "delegator".to_string();
    let validator = "testvaloper1".to_string();

    // add validator
    let valoper1 = Validator {
        address: "testvaloper1".to_string(),
        commission: Decimal::percent(10),
        max_commission: Decimal::percent(20),
        max_change_rate: Decimal::percent(1),
    };
    stake.add_validator(&mut store, &block, valoper1).unwrap();

    // stake 100 tokens
    stake
        .add_stake(&mut store, &block, &delegator, &validator, coin(100, "TOKEN"))
        .unwrap();

    // slash 50%
    stake
        .sudo(
            &mut store,
            &block,
            StakingSudo::Slash {
                validator: "testvaloper1".to_string(),
                percentage: Decimal::percent(50),
            },
        )
        .unwrap();

    // check stake
    let stake_left = stake.get_stake(&store, &delegator, &validator).unwrap();
    assert_eq!(stake_left.amount, 50, "should have slashed 50%");

    // slash all
    stake
        .sudo(
            &mut store,
            &block,
            StakingSudo::Slash {
                validator: "testvaloper1".to_string(),
                percentage: Decimal::percent(100),
            },
        )
        .unwrap();

    // check stake
    let stake_left = stake.get_stake(&store, &delegator, &validator).unwrap();
    assert_eq!(stake_left.amount, 0, "should have slashed whole stake");
}

#[test]
fn full_slash_removes_every_entry_of_the_validator() {
    let mut store = StakingStorage::new();
    let stake = StakeKeeper::new();
    let block = mock_block();
    register(&stake, &mut store, &block, "V1");
    register(&stake, &mut store, &block, "V2");
    let v1 = "V1".to_string();
    let v2 = "V2".to_string();
    for (who, amount) in [("a", 10u128), ("b", 20), ("c", 30)] {
        stake
            .add_stake(&mut store, &block, &who.to_string(), &v1, coin(amount, "TOKEN"))
            .unwrap();
    }
    stake
        .add_stake(&mut store, &block, &"a".to_string(), &v2, coin(7, "TOKEN"))
        .unwrap();

    stake.slash(&mut store, &v1, Decimal::percent(100)).unwrap();

    let info = store.validator_info.get(&v1).unwrap();
    assert_eq!(info.stake, 0);
    assert_eq!(info.total_shares, Decimal::zero());
    assert!(info.stakers.to_vec().is_empty());
    for who in ["a", "b", "c"] {
        assert!(!store.stakes.contains_key(&(who.to_string(), v1.clone())));
        assert_eq!(
            stake.get_stake(&store, &who.to_string(), &v1).unwrap().amount,
            0
        );
    }
    // the other validator keeps its entry
    assert!(store.stakes.contains_key(&("a".to_string(), v2.clone())));
    assert_eq!(
        stake.get_stake(&store, &"a".to_string(), &v2).unwrap().amount,
        7
    );
}

#[test]
fn partial_slash_keeps_shares_and_lowers_every_value_alike() {
    let mut store = StakingStorage::new();
    let stake = StakeKeeper::new();
    let block = mock_block();
    register(&stake, &mut store, &block, "V1");
    let v1 = "V1".to_string();
    let a = "a".to_string();
    let b = "b".to_string();
    stake
        .add_stake(&mut store, &block, &a, &v1, coin(100, "TOKEN"))
        .unwrap();
    stake
        .add_stake(&mut store, &block, &b, &v1, coin(300, "TOKEN"))
        .unwrap();
    let shares_a = *store.stakes.get(&(a.clone(), v1.clone())).unwrap();
    let shares_b = *store.stakes.get(&(b.clone(), v1.clone())).unwrap();

    stake.slash(&mut store, &v1, Decimal::percent(25)).unwrap();

    assert_eq!(*store.stakes.get(&(a.clone(), v1.clone())).unwrap(), shares_a);
    assert_eq!(*store.stakes.get(&(b.clone(), v1.clone())).unwrap(), shares_b);
    let info = store.validator_info.get(&v1).unwrap();
    assert_eq!(info.stake, 300);
    assert_eq!(info.total_shares, Decimal::raw(400 * 1_000_000_000_000_000_000));
    assert_eq!(stake.get_stake(&store, &a, &v1).unwrap().amount, 75);
    assert_eq!(stake.get_stake(&store, &b, &v1).unwrap().amount, 225);
}

#[test]
fn slash_rounds_the_remaining_stake_down() {
    let mut store = StakingStorage::new();
    let stake = StakeKeeper::new();
    let block = mock_block();
    register(&stake, &mut store, &block, "V1");
    let v1 = "V1".to_string();
    stake
        .add_stake(&mut store, &block, &"a".to_string(), &v1, coin(5, "TOKEN"))
        .unwrap();
    // 5 * 0.99 = 4.95, of which 4 tokens stay
    stake.slash(&mut store, &v1, Decimal::percent(1)).unwrap();
    assert_eq!(store.validator_info.get(&v1).unwrap().stake, 4);
}

#[test]
fn slash_that_rounds_to_nothing_clears_the_ledger() {
    let mut store = StakingStorage::new();
    let stake = StakeKeeper::new();
    let block = mock_block();
    register(&stake, &mut store, &block, "V1");
    let v1 = "V1".to_string();
    let a = "a".to_string();
    stake
        .add_stake(&mut store, &block, &a, &v1, coin(1, "TOKEN"))
        .unwrap();
    // 1 * 0.5 rounds down to no stake at all
    stake.slash(&mut store, &v1, Decimal::percent(50)).unwrap();
    let info = store.validator_info.get(&v1).unwrap();
    assert_eq!(info.stake, 0);
    assert_eq!(info.total_shares, Decimal::zero());
    assert!(!info.stakers.contains(&a));
    assert!(!store.stakes.contains_key(&(a.clone(), v1.clone())));
}

#[test]
fn slash_leaves_accrued_rewards_alone() {
    let mut store = StakingStorage::new();
    let stake = StakeKeeper::new();
    let mut block = mock_block();
    register(&stake, &mut store, &block, "V1");
    let v1 = "V1".to_string();
    let a = "a".to_string();
    stake
        .add_stake(&mut store, &block, &a, &v1, coin(200, "TOKEN"))
        .unwrap();
    block.time = block.time.plus_seconds(60 * 60 * 24 * 365).unwrap();
    // a second stake realizes a year of rewards: 200 * 10% less 10% commission
    stake
        .add_stake(&mut store, &block, &a, &v1, coin(1, "TOKEN"))
        .unwrap();
    let before = store.validator_info.get(&v1).unwrap().calculated_rewards;
    assert_eq!(before, Decimal::raw(18 * 1_000_000_000_000_000_000));
    stake.slash(&mut store, &v1, Decimal::percent(50)).unwrap();
    assert_eq!(
        store.validator_info.get(&v1).unwrap().calculated_rewards,
        before
    );
}

#[test]
fn slash_rejects_more_than_everything() {
    let mut store = StakingStorage::new();
    let stake = StakeKeeper::new();
    let block = mock_block();
    register(&stake, &mut store, &block, "V1");
    let v1 = "V1".to_string();
    stake
        .add_stake(&mut store, &block, &"a".to_string(), &v1, coin(100, "TOKEN"))
        .unwrap();
    assert_eq!(
        stake.slash(&mut store, &v1, Decimal::percent(101)),
        Err(StakingError::InvalidPercentage)
    );
    assert_eq!(
        stake.sudo(
            &mut store,
            &block,
            StakingSudo::Slash {
                validator: "V1".to_string(),
                percentage: Decimal::raw(1_000_000_000_000_000_001),
            },
        ),
        Err(StakingError::InvalidPercentage)
    );
    assert_eq!(store.validator_info.get(&v1).unwrap().stake, 100);
}

#[test]
fn slash_of_unknown_validator_is_not_found() {
    let mut store = StakingStorage::new();
    let stake = StakeKeeper::new();
    assert_eq!(
        stake.slash(&mut store, &"ghost".to_string(), Decimal::percent(10)),
        Err(StakingError::NotFound)
    );
    // the percentage is looked at first
    assert_eq!(
        stake.slash(&mut store, &"ghost".to_string(), Decimal::percent(200)),
        Err(StakingError::InvalidPercentage)
    );
}

#[test]
fn shares_bought_after_a_slash_are_worth_their_price() {
    let mut store = StakingStorage::new();
    let stake = StakeKeeper::new();
    let block = mock_block();
    register(&stake, &mut store, &block, "V1");
    let v1 = "V1".to_string();
    let a = "a".to_string();
    let b = "b".to_string();
    stake
        .add_stake(&mut store, &block, &a, &v1, coin(90, "TOKEN"))
        .unwrap();
    // two thirds are left: 60 tokens against 90 shares
    stake
        .slash(
            &mut store,
            &v1,
            Decimal::from_ratio(1, 3).unwrap(),
        )
        .unwrap();
    assert_eq!(store.validator_info.get(&v1).unwrap().stake, 60);
    stake
        .add_stake(&mut store, &block, &b, &v1, coin(10, "TOKEN"))
        .unwrap();
    // 10 * 90 / 60 = 15 shares
    assert_eq!(
        store.stakes.get(&(b.clone(), v1.clone())).unwrap().0,
        Decimal::raw(15 * 1_000_000_000_000_000_000)
    );
    assert_eq!(stake.get_stake(&store, &b, &v1).unwrap().amount, 10);
    assert_eq!(stake.get_stake(&store, &a, &v1).unwrap().amount, 60);
}
