use staking_engine::decimal::Decimal;
use staking_engine::keeper::StakeKeeper;
use staking_engine::messages::{AppResponse, BankMsg, StakingSudo};
use staking_engine::storage::StakingStorage;
use staking_engine::types::{
    coin, BlockInfo, StakingError, StakingInfo, Timestamp, UnbondingEntry, Validator,
};

fn block_at(seconds: u64) -> BlockInfo {
    BlockInfo {
        height: 1,
        time: Timestamp::from_nanos(seconds * 1_000_000_000),
        chain_id: "test".to_string(),
    }
}

fn staked(amounts: &[(&str, u128)]) -> (StakingStorage, StakeKeeper, String) {
    let mut store = StakingStorage::new();
    let stake = StakeKeeper::new();
    let block = block_at(1_000);
    let v = Validator {
        address: "V1".to_string(),
        commission: Decimal::percent(10),
        max_commission: Decimal::percent(20),
        max_change_rate: Decimal::percent(1),
    };
    stake.add_validator(&mut store, &block, v).unwrap();
    for (who, amount) in amounts {
        stake
            .add_stake(&mut store, &block, &who.to_string(), &"V1".to_string(), coin(*amount, "TOKEN"))
            .unwrap();
    }
    (store, stake, "V1".to_string())
}

fn payout(to: &str, amount: u128) -> BankMsg {
    BankMsg::Send {
        from_address: "staking_module".to_string(),
        to_address: to.to_string(),
        amount: coin(amount, "TOKEN"),
    }
}

#[test]
fn undelegation_queues_a_payout_after_the_unbonding_time() {
    let (mut store, stake, v1) = staked(&[("a", 100)]);
    stake
        .undelegate(&mut store, &block_at(2_000), &"a".to_string(), &v1, coin(30, "TOKEN"))
        .unwrap();
    assert_eq!(store.unbonding_queue.len(), 1);
    assert_eq!(
        store.unbonding_queue[0],
        UnbondingEntry {
            delegator: "a".to_string(),
            payout_at: Timestamp::from_nanos(2_060_000_000_000),
            amount: 30,
        }
    );
    assert_eq!(
        stake.get_stake(&store, &"a".to_string(), &v1).unwrap(),
        coin(70, "TOKEN")
    );
}

#[test]
fn queue_pays_what_is_due_in_the_order_of_queueing() {
    let (mut store, stake, v1) = staked(&[("a", 100), ("b", 100), ("c", 100)]);
    stake
        .undelegate(&mut store, &block_at(2_000), &"b".to_string(), &v1, coin(5, "TOKEN"))
        .unwrap();
    stake
        .undelegate(&mut store, &block_at(2_000), &"a".to_string(), &v1, coin(6, "TOKEN"))
        .unwrap();
    stake
        .undelegate(&mut store, &block_at(2_010), &"c".to_string(), &v1, coin(7, "TOKEN"))
        .unwrap();
    stake
        .undelegate(&mut store, &block_at(2_020), &"a".to_string(), &v1, coin(8, "TOKEN"))
        .unwrap();

    // nothing is due a second before the first payout time
    assert_eq!(stake.process_queue(&mut store, &block_at(2_059)), vec![]);
    assert_eq!(store.unbonding_queue.len(), 4);

    // at the payout time itself the payout is due
    assert_eq!(
        stake.process_queue(&mut store, &block_at(2_060)),
        vec![payout("b", 5), payout("a", 6)]
    );
    assert_eq!(store.unbonding_queue.len(), 2);
    assert_eq!(store.unbonding_queue[0].delegator, "c");

    // what was paid is not paid again
    assert_eq!(stake.process_queue(&mut store, &block_at(2_060)), vec![]);

    let response = stake
        .sudo(&mut store, &block_at(5_000), StakingSudo::ProcessQueue {})
        .unwrap();
    assert_eq!(
        response,
        AppResponse {
            events: vec![],
            messages: vec![payout("c", 7), payout("a", 8)],
        }
    );
    assert_eq!(store.unbonding_queue.len(), 0);
    assert_eq!(stake.process_queue(&mut store, &block_at(9_000)), vec![]);
}

#[test]
fn queue_stops_at_the_first_payout_that_is_not_due() {
    let (mut store, stake, _v1) = staked(&[]);
    // a queue that is not in the order of its times, as calls with a time
    // that went back would leave it
    for (who, at, amount) in [("a", 50u64, 1u128), ("b", 200, 2), ("c", 60, 3)] {
        store.unbonding_queue.push_back(UnbondingEntry {
            delegator: who.to_string(),
            payout_at: Timestamp::from_nanos(at * 1_000_000_000),
            amount,
        });
    }
    assert_eq!(
        stake.process_queue(&mut store, &block_at(100)),
        vec![payout("a", 1)]
    );
    assert_eq!(store.unbonding_queue.len(), 2);
    assert_eq!(store.unbonding_queue[0].delegator, "b");
    assert_eq!(
        stake.process_queue(&mut store, &block_at(200)),
        vec![payout("b", 2), payout("c", 3)]
    );
}

#[test]
fn queue_pays_in_the_bonded_denomination_that_is_set() {
    let mut store = StakingStorage::new();
    let stake = StakeKeeper::new();
    stake
        .setup(
            &mut store,
            StakingInfo {
                bonded_denom: "ustake".to_string(),
                unbonding_time: 0,
                apr: Decimal::percent(10),
            },
        )
        .unwrap();
    let v = Validator {
        address: "V1".to_string(),
        commission: Decimal::percent(10),
        max_commission: Decimal::percent(20),
        max_change_rate: Decimal::percent(1),
    };
    stake.add_validator(&mut store, &block_at(1), v).unwrap();
    stake
        .add_stake(&mut store, &block_at(1), &"a".to_string(), &"V1".to_string(), coin(9, "ustake"))
        .unwrap();
    stake
        .undelegate(&mut store, &block_at(2), &"a".to_string(), &"V1".to_string(), coin(9, "ustake"))
        .unwrap();
    assert_eq!(
        stake.process_queue(&mut store, &block_at(2)),
        vec![BankMsg::Send {
            from_address: "staking_module".to_string(),
            to_address: "a".to_string(),
            amount: coin(9, "ustake"),
        }]
    );
}

#[test]
fn failed_undelegation_queues_nothing() {
    let (mut store, stake, v1) = staked(&[("a", 100)]);
    let a = "a".to_string();
    assert_eq!(
        stake.undelegate(&mut store, &block_at(2_000), &a, &v1, coin(101, "TOKEN")),
        Err(StakingError::InsufficientStake)
    );
    assert_eq!(
        stake.undelegate(&mut store, &block_at(2_000), &a, &v1, coin(0, "TOKEN")),
        Err(StakingError::ZeroAmount)
    );
    assert_eq!(
        stake.undelegate(&mut store, &block_at(2_000), &a, &v1, coin(1, "FOO")),
        Err(StakingError::WrongDenom)
    );
    assert_eq!(
        stake.undelegate(&mut store, &block_at(2_000), &a, &"ghost".to_string(), coin(1, "TOKEN")),
        Err(StakingError::NotFound)
    );
    // a payout time past the end of time
    let mut late = block_at(0);
    late.time = Timestamp::from_nanos(u64::MAX - 59_999_999_999);
    assert_eq!(
        stake.undelegate(&mut store, &late, &a, &v1, coin(1, "TOKEN")),
        Err(StakingError::Fatal)
    );
    assert_eq!(store.unbonding_queue.len(), 0);
    assert_eq!(stake.get_stake(&store, &a, &v1).unwrap(), coin(100, "TOKEN"));
}
