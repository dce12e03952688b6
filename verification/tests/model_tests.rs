use num_bigint::BigInt;
use token_fuzzer::audit::Observation;
use token_fuzzer::commands::{verify_token_contract_result, CallOutcome, Command};
use token_fuzzer::model::{ContractState, Violation};

fn accounts() -> Vec<Vec<u8>> {
    vec![b"alice".to_vec(), b"bob".to_vec(), b"carol".to_vec()]
}

fn mint(state: &mut ContractState, to: usize, amount: i128) -> Result<(), Violation> {
    state.apply_command(
        &Command::Mint { to_account_index: to, amount },
        &accounts(),
        &CallOutcome::Succeeded,
    )
}

#[test]
fn init_is_empty() {
    let state = ContractState::init();
    assert_eq!(state.get_balance(&b"alice".to_vec()), 0);
    assert_eq!(state.get_allowance(&b"alice".to_vec(), &b"bob".to_vec()), 0);
    assert_eq!(state.sum_of_mints(), &BigInt::from(0));
    assert_eq!(state.sum_of_burns(), &BigInt::from(0));
    assert!(state.name().is_empty());
    assert!(state.symbol().is_empty());
    assert_eq!(state.decimals(), 0);
}

#[test]
fn balances_add_and_sub() {
    let mut state = ContractState::init();
    let a = b"alice".to_vec();
    state.add_balance(&a, 100);
    assert_eq!(state.get_balance(&a), 100);
    state.add_balance(&a, 20);
    assert_eq!(state.get_balance(&a), 120);
    state.sub_balance(&a, 120);
    assert_eq!(state.get_balance(&a), 0);
    assert_eq!(state.get_balance(&b"bob".to_vec()), 0);
}

#[test]
fn allowances_set_get_sub() {
    let mut state = ContractState::init();
    let a = b"alice".to_vec();
    let b = b"bob".to_vec();
    state.set_allowance(&a, &b, 50);
    assert_eq!(state.get_allowance(&a, &b), 50);
    assert_eq!(state.get_allowance(&b, &a), 0);
    state.sub_allowance(&a, &b, 20);
    assert_eq!(state.get_allowance(&a, &b), 30);
    state.set_allowance(&a, &b, 7);
    assert_eq!(state.get_allowance(&a, &b), 7);
}

#[test]
fn mint_records_balance_and_supply() {
    let mut state = ContractState::init();
    assert_eq!(mint(&mut state, 1, 500), Ok(()));
    assert_eq!(mint(&mut state, 1, 25), Ok(()));
    assert_eq!(state.get_balance(&b"bob".to_vec()), 525);
    assert_eq!(state.sum_of_mints(), &BigInt::from(525));
    assert_eq!(state.net_supply(), BigInt::from(525));
}

#[test]
fn negative_amount_accepted_is_a_finding() {
    let mut state = ContractState::init();
    let r = state.apply_command(
        &Command::Transfer { from_account_index: 0, to_account_index: 1, amount: -1 },
        &accounts(),
        &CallOutcome::Succeeded,
    );
    assert_eq!(r, Err(Violation::NegativeAmountAccepted));
    let r = state.apply_command(
        &Command::Approve {
            from_account_index: 0,
            spender_account_index: 1,
            amount: -5,
            expiration_ledger: 10,
        },
        &accounts(),
        &CallOutcome::ConversionFailed,
    );
    assert_eq!(r, Err(Violation::NegativeAmountAccepted));
}

#[test]
fn negative_amount_refused_is_fine() {
    let mut state = ContractState::init();
    let r = state.apply_command(
        &Command::Mint { to_account_index: 0, amount: -3 },
        &accounts(),
        &CallOutcome::ContractFailed { error_type: 0, error_code: 8 },
    );
    assert_eq!(r, Ok(()));
    assert_eq!(state.get_balance(&b"alice".to_vec()), 0);
    assert_eq!(state.sum_of_mints(), &BigInt::from(0));
}

#[test]
fn contract_panic_is_a_finding() {
    let mut state = ContractState::init();
    let r = state.apply_command(
        &Command::Burn { from_account_index: 0, amount: 3 },
        &accounts(),
        &CallOutcome::ContractFailed { error_type: 1, error_code: 6 },
    );
    assert_eq!(r, Err(Violation::UnexpectedContractPanic));
}

#[test]
fn other_contract_errors_change_nothing() {
    let mut state = ContractState::init();
    mint(&mut state, 0, 10).unwrap();
    for outcome in [
        CallOutcome::ContractFailed { error_type: 1, error_code: 2 },
        CallOutcome::ContractFailed { error_type: 0, error_code: 6 },
        CallOutcome::InvokeFailed,
    ] {
        let r = state.apply_command(
            &Command::Transfer { from_account_index: 0, to_account_index: 1, amount: 4 },
            &accounts(),
            &outcome,
        );
        assert_eq!(r, Ok(()));
    }
    assert_eq!(state.get_balance(&b"alice".to_vec()), 10);
    assert_eq!(state.get_balance(&b"bob".to_vec()), 0);
}

#[test]
fn conversion_failure_is_a_finding() {
    let mut state = ContractState::init();
    let r = state.apply_command(
        &Command::Mint { to_account_index: 0, amount: 3 },
        &accounts(),
        &CallOutcome::ConversionFailed,
    );
    assert_eq!(r, Err(Violation::ResultConversionFailed));
}

#[test]
fn transfer_moves_balance() {
    let mut state = ContractState::init();
    mint(&mut state, 0, 100).unwrap();
    let r = state.apply_command(
        &Command::Transfer { from_account_index: 0, to_account_index: 2, amount: 30 },
        &accounts(),
        &CallOutcome::Succeeded,
    );
    assert_eq!(r, Ok(()));
    assert_eq!(state.get_balance(&b"alice".to_vec()), 70);
    assert_eq!(state.get_balance(&b"carol".to_vec()), 30);
    let r = state.apply_command(
        &Command::Transfer { from_account_index: 2, to_account_index: 2, amount: 30 },
        &accounts(),
        &CallOutcome::Succeeded,
    );
    assert_eq!(r, Ok(()));
    assert_eq!(state.get_balance(&b"carol".to_vec()), 30);
    assert_eq!(state.net_supply(), BigInt::from(100));
}

#[test]
fn transfer_overdraft_is_a_finding() {
    let mut state = ContractState::init();
    mint(&mut state, 0, 10).unwrap();
    let r = state.apply_command(
        &Command::Transfer { from_account_index: 0, to_account_index: 1, amount: 11 },
        &accounts(),
        &CallOutcome::Succeeded,
    );
    assert_eq!(r, Err(Violation::NegativeBalance));
}

#[test]
fn mint_overflow_is_a_finding() {
    let mut state = ContractState::init();
    mint(&mut state, 0, i128::MAX).unwrap();
    assert_eq!(mint(&mut state, 0, 1), Err(Violation::Overflow));
}

#[test]
fn transfer_from_uses_allowance() {
    let mut state = ContractState::init();
    mint(&mut state, 0, 100).unwrap();
    let approve = Command::Approve {
        from_account_index: 0,
        spender_account_index: 1,
        amount: 40,
        expiration_ledger: 1000,
    };
    assert_eq!(state.apply_command(&approve, &accounts(), &CallOutcome::Succeeded), Ok(()));
    let tf = Command::TransferFrom {
        spender_account_index: 1,
        from_account_index: 0,
        to_account_index: 2,
        amount: 25,
    };
    assert_eq!(state.apply_command(&tf, &accounts(), &CallOutcome::Succeeded), Ok(()));
    assert_eq!(state.get_balance(&b"alice".to_vec()), 75);
    assert_eq!(state.get_balance(&b"carol".to_vec()), 25);
    assert_eq!(state.get_allowance(&b"alice".to_vec(), &b"bob".to_vec()), 15);
    assert_eq!(
        state.apply_command(&tf, &accounts(), &CallOutcome::Succeeded),
        Err(Violation::NegativeAllowance)
    );
}

#[test]
fn burns_reduce_supply() {
    let mut state = ContractState::init();
    mint(&mut state, 0, 100).unwrap();
    let burn = Command::Burn { from_account_index: 0, amount: 30 };
    assert_eq!(state.apply_command(&burn, &accounts(), &CallOutcome::Succeeded), Ok(()));
    state.set_allowance(&b"alice".to_vec(), &b"bob".to_vec(), 50);
    let burn_from = Command::BurnFrom { spender_account_index: 1, from_account_index: 0, amount: 20 };
    assert_eq!(state.apply_command(&burn_from, &accounts(), &CallOutcome::Succeeded), Ok(()));
    assert_eq!(state.get_balance(&b"alice".to_vec()), 50);
    assert_eq!(state.get_allowance(&b"alice".to_vec(), &b"bob".to_vec()), 30);
    assert_eq!(state.sum_of_burns(), &BigInt::from(50));
    assert_eq!(state.net_supply(), BigInt::from(50));
}

#[test]
fn sums_grow_past_i128() {
    let mut state = ContractState::init();
    for _ in 0..3 {
        mint(&mut state, 0, i128::MAX).unwrap();
        let burn = Command::Burn { from_account_index: 0, amount: i128::MAX };
        assert_eq!(state.apply_command(&burn, &accounts(), &CallOutcome::Succeeded), Ok(()));
    }
    assert_eq!(state.sum_of_mints(), &(BigInt::from(i128::MAX) * 3));
    assert_eq!(state.net_supply(), BigInt::from(0));
}

#[test]
fn advance_ledgers_changes_nothing() {
    let mut state = ContractState::init();
    mint(&mut state, 0, 5).unwrap();
    let r = state.apply_command(
        &Command::AdvanceLedgers { ledgers: 10 },
        &accounts(),
        &CallOutcome::ContractFailed { error_type: 1, error_code: 6 },
    );
    assert_eq!(r, Ok(()));
    assert_eq!(state.get_balance(&b"alice".to_vec()), 5);
}

#[test]
fn contract_result_verification() {
    assert!(!verify_token_contract_result(&CallOutcome::ContractFailed {
        error_type: 1,
        error_code: 6
    }));
    assert!(verify_token_contract_result(&CallOutcome::ContractFailed {
        error_type: 1,
        error_code: 7
    }));
    assert!(verify_token_contract_result(&CallOutcome::Succeeded));
    assert!(verify_token_contract_result(&CallOutcome::InvokeFailed));
}

fn observation_of(state: &ContractState) -> Observation {
    let accts = accounts();
    let mut allowances = Vec::new();
    for a in &accts {
        let mut row = Vec::new();
        for b in &accts {
            row.push(state.get_allowance(a, b));
        }
        allowances.push(row);
    }
    Observation {
        name: state.name().clone(),
        symbol: state.symbol().clone(),
        decimals: state.decimals(),
        balances: accts.iter().map(|a| state.get_balance(a)).collect(),
        allowances,
    }
}

fn sample_state() -> ContractState {
    let mut state = ContractState::init();
    state.observe_metadata(b"Token".to_vec(), b"TOK".to_vec(), 7);
    mint(&mut state, 0, 100).unwrap();
    mint(&mut state, 1, 50).unwrap();
    state.set_allowance(&b"alice".to_vec(), &b"carol".to_vec(), 9);
    state
}

#[test]
fn check_state_agrees() {
    let state = sample_state();
    let obs = observation_of(&state);
    assert_eq!(state.check_state(&accounts(), &obs), Ok(()));
}

#[test]
fn check_state_metadata_mismatches() {
    let state = sample_state();
    let mut obs = observation_of(&state);
    obs.name = b"Other".to_vec();
    assert_eq!(state.check_state(&accounts(), &obs), Err(Violation::NameMismatch));
    let mut obs = observation_of(&state);
    obs.symbol = b"OTH".to_vec();
    assert_eq!(state.check_state(&accounts(), &obs), Err(Violation::SymbolMismatch));
    let mut obs = observation_of(&state);
    obs.decimals = 6;
    assert_eq!(state.check_state(&accounts(), &obs), Err(Violation::DecimalsMismatch));
}

#[test]
fn check_state_balance_mismatches() {
    let state = sample_state();
    let mut obs = observation_of(&state);
    obs.balances[1] = 49;
    obs.balances[2] = 1;
    assert_eq!(
        state.check_state(&accounts(), &obs),
        Err(Violation::BalanceMismatch { account: 1 })
    );
    let mut obs = observation_of(&state);
    obs.balances[2] = -1;
    assert_eq!(
        state.check_state(&accounts(), &obs),
        Err(Violation::BalanceMismatch { account: 2 })
    );
}

#[test]
fn check_state_allowance_and_supply_mismatches() {
    let state = sample_state();
    let mut obs = observation_of(&state);
    obs.allowances[2][0] = 3;
    obs.allowances[1][2] = 4;
    assert_eq!(
        state.check_state(&accounts(), &obs),
        Err(Violation::AllowanceMismatch { from: 1, spender: 2 })
    );
    let mut state = sample_state();
    state.add_balance(&b"carol".to_vec(), 5);
    let obs = observation_of(&state);
    assert_eq!(state.check_state(&accounts(), &obs), Err(Violation::SupplyMismatch));
}

#[test]
fn refresh_allowances_takes_reports_over() {
    let mut state = sample_state();
    let reported = vec![vec![0, 1, 2], vec![3, 4, 5], vec![6, 7, 8]];
    assert_eq!(state.refresh_allowances(&accounts(), &reported), Ok(()));
    let accts = accounts();
    for (i, a) in accts.iter().enumerate() {
        for (j, b) in accts.iter().enumerate() {
            assert_eq!(state.get_allowance(a, b), reported[i][j]);
        }
    }
    let obs = observation_of(&state);
    assert_eq!(obs.allowances, reported);
    assert_eq!(state.check_state(&accounts(), &obs), Ok(()));
}

#[test]
fn refresh_allowances_refuses_negative() {
    let mut state = sample_state();
    let reported = vec![vec![0, 1, 2], vec![3, -4, 5], vec![6, 7, 8]];
    assert_eq!(
        state.refresh_allowances(&accounts(), &reported),
        Err(Violation::NegativeAllowance)
    );
}
