use staking_engine::decimal::Decimal;
use staking_engine::keeper::StakeKeeper;
use staking_engine::storage::StakingStorage;
use staking_engine::types::{BlockInfo, StakingError, Timestamp, Validator};

fn mock_block() -> BlockInfo {
    BlockInfo {
        height: 12_345,
        time: Timestamp::from_nanos(1_571_797_419_879_305_533),
        chain_id: "cosmos-testnet-14002".to_string(),
    }
}

#[test]
fn add_get_validators() {
    let mut store = StakingStorage::new();
    let stake = StakeKeeper::new();
    let block = mock_block();

    // add validator
    let valoper1 = Validator {
        address: "testvaloper1".to_string(),
        commission: Decimal::percent(10),
        max_commission: Decimal::percent(20),
        max_change_rate: Decimal::percent(1),
    };
    stake
        .add_validator(&mut store, &block, valoper1.clone())
        .unwrap();

    // get it
    let val = stake
        .get_validator(&store, &"testvaloper1".to_string())
        .unwrap()
        .unwrap();
    assert_eq!(val, valoper1);

    // try to add with same address
    let valoper1_fake = Validator {
        address: "testvaloper1".to_string(),
        commission: Decimal::percent(1),
        max_commission: Decimal::percent(10),
        max_change_rate: Decimal::percent(100),
    };
    let err = stake
        .add_validator(&mut store, &block, valoper1_fake)
        .unwrap_err();
    assert_eq!(err, StakingError::AlreadyExists);

    // should still be the first value
    let val = stake
        .get_validator(&store, &"testvaloper1".to_string())
        .unwrap()
        .unwrap();
    assert_eq!(val, valoper1);
}

#[test]
fn duplicate_registration_changes_nothing() {
    let mut store = StakingStorage::new();
    let stake = StakeKeeper::new();
    let block = mock_block();
    let first = Validator {
        address: "V1".to_string(),
        commission: Decimal::percent(10),
        max_commission: Decimal::percent(20),
        max_change_rate: Decimal::percent(1),
    };
    stake.add_validator(&mut store, &block, first.clone()).unwrap();
    let second = Validator {
        address: "V1".to_string(),
        commission: Decimal::percent(5),
        max_commission: Decimal::percent(6),
        max_change_rate: Decimal::percent(7),
    };
    assert_eq!(
        stake.add_validator(&mut store, &block, second),
        Err(StakingError::AlreadyExists)
    );
    assert_eq!(stake.get_validators(&store).unwrap(), vec![first.clone()]);
    assert_eq!(
        stake.get_validator(&store, &"V1".to_string()).unwrap(),
        Some(first)
    );
}

#[test]
fn validators_are_listed_in_order_of_registration() {
    let mut store = StakingStorage::new();
    let stake = StakeKeeper::new();
    let block = mock_block();
    let names = ["zeta", "alpha", "mid"];
    for name in names {
        let v = Validator {
            address: name.to_string(),
            commission: Decimal::percent(10),
            max_commission: Decimal::percent(20),
            max_change_rate: Decimal::percent(1),
        };
        stake.add_validator(&mut store, &block, v).unwrap();
    }
    let listed: Vec<String> = stake
        .get_validators(&store)
        .unwrap()
        .into_iter()
        .map(|v| v.address)
        .collect();
    assert_eq!(listed, vec!["zeta", "alpha", "mid"]);
    assert_eq!(
        stake.get_validator(&store, &"nobody".to_string()).unwrap(),
        None
    );
}

#[test]
fn registration_starts_an_empty_pool_at_block_time() {
    let mut store = StakingStorage::new();
    let stake = StakeKeeper::new();
    let block = mock_block();
    let v = Validator {
        address: "V1".to_string(),
        commission: Decimal::percent(10),
        max_commission: Decimal::percent(20),
        max_change_rate: Decimal::percent(1),
    };
    stake.add_validator(&mut store, &block, v).unwrap();
    let info = store.validator_info.get(&"V1".to_string()).unwrap();
    assert_eq!(info.stake, 0);
    assert_eq!(info.total_shares, Decimal::zero());
    assert_eq!(info.calculated_rewards, Decimal::zero());
    assert_eq!(info.last_rewards_calculation, block.time);
    assert!(info.stakers.to_vec().is_empty());
}
