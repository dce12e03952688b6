use token_fuzzer::accounts::{
    accept_input, address_kinds, require_contract_addresses, require_unique_addresses,
    screen_strkey_kinds, StrkeyKind,
};
use token_fuzzer::ledger::{
    advance_target, advanced_ledger, next_ledger_step, seconds_per_ledger, LedgerStep,
};
use token_fuzzer::model::Violation;
use token_fuzzer::DAY_IN_LEDGERS;

const CONTRACT: &str = "CA3D5KRYM6CB7OWQ6TWYRR3Z4T7GNZLKERYNZGGA5SOAOPIFY6YQGAXE";
const ACCOUNT: &str = "GA3D5KRYM6CB7OWQ6TWYRR3Z4T7GNZLKERYNZGGA5SOAOPIFY6YQHES5";

#[test]
fn unique_addresses() {
    assert!(require_unique_addresses(&vec![]));
    assert!(require_unique_addresses(&vec![b"a".to_vec(), b"b".to_vec(), b"ab".to_vec()]));
    assert!(!require_unique_addresses(&vec![b"a".to_vec(), b"b".to_vec(), b"a".to_vec()]));
    assert!(!require_unique_addresses(&vec![b"x".to_vec(), b"x".to_vec()]));
}

#[test]
fn strkey_kinds_of_addresses() {
    let kinds = address_kinds(&vec![
        CONTRACT.as_bytes().to_vec(),
        ACCOUNT.as_bytes().to_vec(),
        b"not a strkey".to_vec(),
        vec![0xff, 0xfe],
    ]);
    assert_eq!(
        kinds,
        vec![Some(StrkeyKind::Contract), Some(StrkeyKind::PublicKeyEd25519), None, None]
    );
}

#[test]
fn contract_addresses() {
    assert_eq!(require_contract_addresses(&vec![CONTRACT.as_bytes().to_vec()]), Some(true));
    assert_eq!(
        require_contract_addresses(&vec![
            CONTRACT.as_bytes().to_vec(),
            ACCOUNT.as_bytes().to_vec(),
            b"junk".to_vec()
        ]),
        Some(false)
    );
    assert_eq!(
        require_contract_addresses(&vec![CONTRACT.as_bytes().to_vec(), b"junk".to_vec()]),
        None
    );
    assert_eq!(require_contract_addresses(&vec![]), Some(true));
}

#[test]
fn screening_of_kinds() {
    assert_eq!(screen_strkey_kinds(&vec![Some(StrkeyKind::Contract)]), Some(true));
    assert_eq!(
        screen_strkey_kinds(&vec![Some(StrkeyKind::Contract), Some(StrkeyKind::HashX), None]),
        Some(false)
    );
    assert_eq!(screen_strkey_kinds(&vec![None, Some(StrkeyKind::HashX)]), None);
}

#[test]
fn input_acceptance() {
    let contracts = vec![CONTRACT.as_bytes().to_vec()];
    assert_eq!(accept_input(0, &contracts), Some(false));
    assert_eq!(accept_input(3, &vec![]), None);
    assert_eq!(accept_input(3, &contracts), Some(true));
    let twice = vec![CONTRACT.as_bytes().to_vec(), CONTRACT.as_bytes().to_vec()];
    assert_eq!(accept_input(3, &twice), Some(false));
    let mixed = vec![CONTRACT.as_bytes().to_vec(), ACCOUNT.as_bytes().to_vec()];
    assert_eq!(accept_input(3, &mixed), Some(false));
}

#[test]
fn ledger_timing() {
    assert_eq!(seconds_per_ledger(), 5);
    assert_eq!(advance_target(10, 5), Ok(15));
    assert_eq!(advance_target(u32::MAX, 1), Err(Violation::EndOfTime));
    assert_eq!(advanced_ledger(100, 1000, 3), Ok((103, 1015)));
    assert_eq!(advanced_ledger(u32::MAX - 1, 0, 2), Err(Violation::EndOfTime));
    assert_eq!(advanced_ledger(0, u64::MAX - 4, 1), Err(Violation::EndOfTime));
    assert_eq!(advanced_ledger(0, u64::MAX - 5, 1), Ok((1, u64::MAX)));
}

#[test]
fn ledger_steps() {
    assert_eq!(next_ledger_step(10, 10), Err(Violation::LedgerNotAhead));
    assert_eq!(next_ledger_step(11, 10), Err(Violation::LedgerNotAhead));
    assert_eq!(
        next_ledger_step(10, 20),
        Ok(LedgerStep { ledgers: 10, reaches_target: true })
    );
    assert_eq!(
        next_ledger_step(0, 40000),
        Ok(LedgerStep { ledgers: DAY_IN_LEDGERS, reaches_target: false })
    );
    assert_eq!(
        next_ledger_step(0, DAY_IN_LEDGERS),
        Ok(LedgerStep { ledgers: DAY_IN_LEDGERS, reaches_target: true })
    );
    assert_eq!(next_ledger_step(u32::MAX - 10, u32::MAX), Err(Violation::EndOfTime));
}

#[test]
fn ledger_steps_reach_target() {
    let (mut current, target) = (5u32, 3 * DAY_IN_LEDGERS + 17);
    let mut steps = 0;
    loop {
        let step = next_ledger_step(current, target).unwrap();
        current += step.ledgers;
        steps += 1;
        if step.reaches_target {
            break;
        }
    }
    assert_eq!(current, target);
    assert_eq!(steps, 4);
}

#[test]
fn unique_check_under_reordering_and_subsequence() {
    let xs = vec![b"a".to_vec(), b"b".to_vec(), b"c".to_vec()];
    let ys = vec![b"c".to_vec(), b"a".to_vec(), b"b".to_vec()];
    let zs = vec![b"a".to_vec(), b"c".to_vec()];
    assert_eq!(require_unique_addresses(&xs), require_unique_addresses(&ys));
    assert!(require_unique_addresses(&zs));
    let dup = vec![b"a".to_vec(), b"b".to_vec(), b"a".to_vec()];
    let dup2 = vec![b"b".to_vec(), b"a".to_vec(), b"a".to_vec()];
    assert_eq!(require_unique_addresses(&dup), require_unique_addresses(&dup2));
}

#[test]
fn contract_check_of_concatenation() {
    let c = CONTRACT.as_bytes().to_vec();
    let g = ACCOUNT.as_bytes().to_vec();
    let xs = vec![c.clone()];
    let ys = vec![g.clone(), c.clone()];
    let both: Vec<Vec<u8>> = xs.iter().chain(ys.iter()).cloned().collect();
    assert_eq!(require_contract_addresses(&xs), Some(true));
    assert_eq!(require_contract_addresses(&ys), Some(false));
    assert_eq!(require_contract_addresses(&both), Some(false));
    let reordered = vec![c.clone(), g.clone(), c.clone()];
    assert_eq!(require_contract_addresses(&reordered), require_contract_addresses(&both));
}

#[test]
fn advancing_loop_reaches_target_in_day_steps() {
    let (mut sequence, mut timestamp, target) = (100u32, 1000u64, 100 + 2 * DAY_IN_LEDGERS + 1);
    let mut steps = 0u32;
    loop {
        let step = next_ledger_step(sequence, target).unwrap();
        let (s, t) = advanced_ledger(sequence, timestamp, step.ledgers).unwrap();
        sequence = s;
        timestamp = t;
        steps += 1;
        if step.reaches_target {
            break;
        }
    }
    assert_eq!(sequence, target);
    assert_eq!(timestamp, 1000 + 5 * (2 * DAY_IN_LEDGERS as u64 + 1));
    assert_eq!(steps, 3);
}
