use token_fuzzer::audit::Observation;
use token_fuzzer::commands::{CallOutcome, Command};
use token_fuzzer::model::{ContractState, Violation};
use token_fuzzer::run::Step;

fn accounts() -> Vec<Vec<u8>> {
    vec![b"alice".to_vec(), b"bob".to_vec()]
}

fn observation(balances: Vec<i128>, allowances: Vec<Vec<i128>>) -> Observation {
    Observation {
        name: b"Token".to_vec(),
        symbol: b"TOK".to_vec(),
        decimals: 7,
        balances,
        allowances,
    }
}

fn step(command: Command, outcome: CallOutcome, observed: Observation) -> Step {
    Step {
        command,
        name: b"Token".to_vec(),
        symbol: b"TOK".to_vec(),
        decimals: 7,
        outcome,
        reported_allowances: Vec::new(),
        observed,
    }
}

#[test]
fn run_of_steps_agrees() {
    let mut state = ContractState::init();
    let zero = vec![vec![0, 0], vec![0, 0]];
    let s1 = step(
        Command::Mint { to_account_index: 0, amount: 100 },
        CallOutcome::Succeeded,
        observation(vec![100, 0], zero.clone()),
    );
    assert_eq!(state.step(&accounts(), &s1), Ok(()));
    let s2 = step(
        Command::Approve {
            from_account_index: 0,
            spender_account_index: 1,
            amount: 30,
            expiration_ledger: 100,
        },
        CallOutcome::Succeeded,
        observation(vec![100, 0], vec![vec![0, 30], vec![0, 0]]),
    );
    assert_eq!(state.step(&accounts(), &s2), Ok(()));
    let s3 = step(
        Command::TransferFrom {
            spender_account_index: 1,
            from_account_index: 0,
            to_account_index: 1,
            amount: 20,
        },
        CallOutcome::Succeeded,
        observation(vec![80, 20], vec![vec![0, 10], vec![0, 0]]),
    );
    assert_eq!(state.step(&accounts(), &s3), Ok(()));
    assert_eq!(state.get_balance(&b"bob".to_vec()), 20);
    assert_eq!(state.get_allowance(&b"alice".to_vec(), &b"bob".to_vec()), 10);
}

#[test]
fn step_finds_metadata_change() {
    let mut state = ContractState::init();
    let mut obs = observation(vec![0, 0], vec![vec![0, 0], vec![0, 0]]);
    obs.symbol = b"NEW".to_vec();
    let s = step(Command::Burn { from_account_index: 0, amount: 1 }, CallOutcome::InvokeFailed, obs);
    assert_eq!(state.step(&accounts(), &s), Err(Violation::SymbolMismatch));
}

#[test]
fn step_finds_balance_disagreement() {
    let mut state = ContractState::init();
    let s = step(
        Command::Mint { to_account_index: 1, amount: 5 },
        CallOutcome::Succeeded,
        observation(vec![0, 4], vec![vec![0, 0], vec![0, 0]]),
    );
    assert_eq!(state.step(&accounts(), &s), Err(Violation::BalanceMismatch { account: 1 }));
}

#[test]
fn advancing_ledgers_takes_over_allowances() {
    let mut state = ContractState::init();
    state.set_allowance(&b"alice".to_vec(), &b"bob".to_vec(), 40);
    let mut s = step(
        Command::AdvanceLedgers { ledgers: 100 },
        CallOutcome::Succeeded,
        observation(vec![0, 0], vec![vec![0, 0], vec![0, 0]]),
    );
    s.reported_allowances = vec![vec![0, 0], vec![0, 0]];
    assert_eq!(state.step(&accounts(), &s), Ok(()));
    assert_eq!(state.get_allowance(&b"alice".to_vec(), &b"bob".to_vec()), 0);

    s.reported_allowances = vec![vec![0, -1], vec![0, 0]];
    assert_eq!(state.step(&accounts(), &s), Err(Violation::NegativeAllowance));
}

#[test]
fn failed_call_changes_nothing_and_checks() {
    let mut state = ContractState::init();
    let s = step(
        Command::Transfer { from_account_index: 0, to_account_index: 1, amount: 5 },
        CallOutcome::ContractFailed { error_type: 0, error_code: 10 },
        observation(vec![0, 0], vec![vec![0, 0], vec![0, 0]]),
    );
    assert_eq!(state.step(&accounts(), &s), Ok(()));
    assert_eq!(state.get_balance(&b"alice".to_vec()), 0);
}
