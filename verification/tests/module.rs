use staking_engine::decimal::Decimal;
use staking_engine::distribution::DistributionKeeper;
use staking_engine::keeper::StakeKeeper;
use staking_engine::messages::{
    AppResponse, BankMsg, Delegation, FullDelegation, StakingEvent, StakingMsg, StakingQuery,
    StakingQueryResponse, StakingSudo,
};
use staking_engine::storage::StakingStorage;
use staking_engine::types::{coin, BlockInfo, StakingError, Timestamp, Validator};

fn mock_block() -> BlockInfo {
    BlockInfo {
        height: 12_345,
        time: Timestamp::from_nanos(1_571_797_419_879_305_533),
        chain_id: "cosmos-testnet-14002".to_string(),
    }
}

fn validator(address: &str) -> Validator {
    Validator {
        address: address.to_string(),
        commission: Decimal::percent(10),
        max_commission: Decimal::percent(20),
        max_change_rate: Decimal::percent(1),
    }
}

fn two_validators() -> (StakingStorage, StakeKeeper, BlockInfo) {
    let mut store = StakingStorage::new();
    let stake = StakeKeeper::new();
    let block = mock_block();
    stake.add_validator(&mut store, &block, validator("V1")).unwrap();
    stake.add_validator(&mut store, &block, validator("V2")).unwrap();
    (store, stake, block)
}

#[test]
fn keepers_are_made_alike_by_new_and_default() {
    assert_eq!(StakeKeeper::new().module_addr, "staking_module");
    assert_eq!(StakeKeeper::default().module_addr, "staking_module");
    let _ = DistributionKeeper::new();
    let _ = DistributionKeeper::default();
}

#[test]
fn delegation_stakes_and_asks_for_the_coin() {
    let (mut store, stake, block) = two_validators();
    let response = stake
        .execute(
            &mut store,
            &block,
            "alice".to_string(),
            StakingMsg::Delegate {
                validator: "V1".to_string(),
                amount: coin(150, "TOKEN"),
            },
        )
        .unwrap();
    assert_eq!(
        response,
        AppResponse {
            events: vec![StakingEvent::Delegate {
                validator: "V1".to_string(),
                amount: coin(150, "TOKEN"),
                new_shares: 150,
            }],
            messages: vec![BankMsg::Send {
                from_address: "alice".to_string(),
                to_address: "staking_module".to_string(),
                amount: coin(150, "TOKEN"),
            }],
        }
    );
    assert_eq!(
        stake
            .get_stake(&store, &"alice".to_string(), &"V1".to_string())
            .unwrap(),
        coin(150, "TOKEN")
    );
}

#[test]
fn undelegation_unstakes_and_moves_no_funds_yet() {
    let (mut store, stake, block) = two_validators();
    stake
        .add_stake(&mut store, &block, &"alice".to_string(), &"V1".to_string(), coin(150, "TOKEN"))
        .unwrap();
    let response = stake
        .execute(
            &mut store,
            &block,
            "alice".to_string(),
            StakingMsg::Undelegate {
                validator: "V1".to_string(),
                amount: coin(50, "TOKEN"),
            },
        )
        .unwrap();
    assert_eq!(
        response,
        AppResponse {
            events: vec![StakingEvent::Unbond {
                validator: "V1".to_string(),
                amount: coin(50, "TOKEN"),
            }],
            messages: vec![],
        }
    );
    assert_eq!(store.unbonding_queue.len(), 1);
    assert_eq!(store.unbonding_queue[0].amount, 50);
    assert_eq!(
        store.unbonding_queue[0].payout_at,
        block.time.plus_seconds(60).unwrap()
    );
    assert_eq!(
        stake
            .get_stake(&store, &"alice".to_string(), &"V1".to_string())
            .unwrap(),
        coin(100, "TOKEN")
    );
}

#[test]
fn redelegation_moves_stake_between_validators() {
    let (mut store, stake, block) = two_validators();
    let alice = "alice".to_string();
    stake
        .add_stake(&mut store, &block, &alice, &"V1".to_string(), coin(150, "TOKEN"))
        .unwrap();
    let response = stake
        .execute(
            &mut store,
            &block,
            alice.clone(),
            StakingMsg::Redelegate {
                src_validator: "V1".to_string(),
                dst_validator: "V2".to_string(),
                amount: coin(40, "TOKEN"),
            },
        )
        .unwrap();
    assert_eq!(
        response,
        AppResponse {
            events: vec![StakingEvent::Redelegate {
                source_validator: "V1".to_string(),
                destination_validator: "V2".to_string(),
                amount: coin(40, "TOKEN"),
            }],
            messages: vec![],
        }
    );
    assert_eq!(
        stake.get_stake(&store, &alice, &"V1".to_string()).unwrap(),
        coin(110, "TOKEN")
    );
    assert_eq!(
        stake.get_stake(&store, &alice, &"V2".to_string()).unwrap(),
        coin(40, "TOKEN")
    );
    assert_eq!(store.unbonding_queue.len(), 0);
}

#[test]
fn redelegation_to_nowhere_fails_after_the_stake_was_taken() {
    let (mut store, stake, block) = two_validators();
    let alice = "alice".to_string();
    stake
        .add_stake(&mut store, &block, &alice, &"V1".to_string(), coin(150, "TOKEN"))
        .unwrap();
    assert_eq!(
        stake.execute(
            &mut store,
            &block,
            alice.clone(),
            StakingMsg::Redelegate {
                src_validator: "V1".to_string(),
                dst_validator: "ghost".to_string(),
                amount: coin(40, "TOKEN"),
            },
        ),
        Err(StakingError::NotFound)
    );
    // it is for the caller to discard the first half
    assert_eq!(
        stake.get_stake(&store, &alice, &"V1".to_string()).unwrap(),
        coin(110, "TOKEN")
    );
    // a failure of the first half leaves everything as it was
    assert_eq!(
        stake.execute(
            &mut store,
            &block,
            alice.clone(),
            StakingMsg::Redelegate {
                src_validator: "V2".to_string(),
                dst_validator: "V1".to_string(),
                amount: coin(1, "TOKEN"),
            },
        ),
        Err(StakingError::InsufficientStake)
    );
    assert_eq!(
        stake.get_stake(&store, &alice, &"V1".to_string()).unwrap(),
        coin(110, "TOKEN")
    );
}

#[test]
fn failed_instructions_say_why() {
    let (mut store, stake, block) = two_validators();
    assert_eq!(
        stake.execute(
            &mut store,
            &block,
            "alice".to_string(),
            StakingMsg::Delegate {
                validator: "V1".to_string(),
                amount: coin(0, "TOKEN"),
            },
        ),
        Err(StakingError::ZeroAmount)
    );
    assert_eq!(
        stake.execute(
            &mut store,
            &block,
            "alice".to_string(),
            StakingMsg::Delegate {
                validator: "V1".to_string(),
                amount: coin(1, "other"),
            },
        ),
        Err(StakingError::WrongDenom)
    );
    assert_eq!(
        stake.execute(
            &mut store,
            &block,
            "alice".to_string(),
            StakingMsg::Undelegate {
                validator: "V1".to_string(),
                amount: coin(1, "TOKEN"),
            },
        ),
        Err(StakingError::InsufficientStake)
    );
    assert_eq!(
        stake.sudo(
            &mut store,
            &block,
            StakingSudo::Slash {
                validator: "ghost".to_string(),
                percentage: Decimal::percent(1),
            },
        ),
        Err(StakingError::NotFound)
    );
}

#[test]
fn slashing_answers_with_nothing() {
    let (mut store, stake, block) = two_validators();
    let response = stake
        .sudo(
            &mut store,
            &block,
            StakingSudo::Slash {
                validator: "V1".to_string(),
                percentage: Decimal::percent(10),
            },
        )
        .unwrap();
    assert_eq!(
        response,
        AppResponse {
            events: vec![],
            messages: vec![],
        }
    );
}

#[test]
fn queries_answer_from_the_store() {
    let (mut store, stake, mut block) = two_validators();
    let alice = "alice".to_string();
    stake
        .add_stake(&mut store, &block, &alice, &"V2".to_string(), coin(200, "TOKEN"))
        .unwrap();
    block.time = block.time.plus_seconds(60 * 60 * 24 * 365 / 2).unwrap();

    assert_eq!(
        stake.query(&store, &block, StakingQuery::BondedDenom {}),
        Ok(StakingQueryResponse::BondedDenom {
            denom: "TOKEN".to_string()
        })
    );
    assert_eq!(
        stake.query(&store, &block, StakingQuery::AllValidators {}),
        Ok(StakingQueryResponse::AllValidators {
            validators: vec![validator("V1"), validator("V2")]
        })
    );
    assert_eq!(
        stake.query(
            &store,
            &block,
            StakingQuery::Validator {
                address: "V2".to_string()
            }
        ),
        Ok(StakingQueryResponse::Validator {
            validator: Some(validator("V2"))
        })
    );
    assert_eq!(
        stake.query(
            &store,
            &block,
            StakingQuery::Validator {
                address: "ghost".to_string()
            }
        ),
        Ok(StakingQueryResponse::Validator { validator: None })
    );
    // one delegation for each validator, also where nothing is staked
    assert_eq!(
        stake.query(
            &store,
            &block,
            StakingQuery::AllDelegations {
                delegator: alice.clone()
            }
        ),
        Ok(StakingQueryResponse::AllDelegations {
            delegations: vec![
                Delegation {
                    delegator: alice.clone(),
                    validator: "V1".to_string(),
                    amount: coin(0, "TOKEN"),
                },
                Delegation {
                    delegator: alice.clone(),
                    validator: "V2".to_string(),
                    amount: coin(200, "TOKEN"),
                },
            ]
        })
    );
    assert_eq!(
        stake.query(
            &store,
            &block,
            StakingQuery::Delegation {
                delegator: alice.clone(),
                validator: "V2".to_string(),
            }
        ),
        Ok(StakingQueryResponse::Delegation {
            delegation: Some(FullDelegation {
                delegator: alice.clone(),
                validator: "V2".to_string(),
                amount: coin(200, "TOKEN"),
                can_redelegate: coin(0, "testcoin"),
                accumulated_rewards: vec![coin(9, "TOKEN")],
            })
        })
    );
    assert_eq!(
        stake.query(
            &store,
            &block,
            StakingQuery::Delegation {
                delegator: alice.clone(),
                validator: "V1".to_string(),
            }
        ),
        Ok(StakingQueryResponse::Delegation { delegation: None })
    );
    assert_eq!(
        stake.query(
            &store,
            &block,
            StakingQuery::Delegation {
                delegator: alice.clone(),
                validator: "ghost".to_string(),
            }
        ),
        Err(StakingError::NotFound)
    );
}
