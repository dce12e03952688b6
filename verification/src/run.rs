//! One step of a fuzzing run, in the order the run takes it, and what holds
//! over a whole run of steps.
use vstd::prelude::*;
use crate::audit::{
    Observation, allowance_rows_written, balance_ok, check_result, is_square, matrix_nonnegative,
    matrix_rows, allowance_ok, lemma_check_result_ok, lemma_refreshed_allowance,
};
use crate::commands::{
    CallOutcome, Command, account_keys, balances_within, command_effect,
    lemma_command_keeps_amounts_nonnegative, lemma_command_keeps_balances_within,
};
use crate::model::{ContractState, TokenModel, Violation};
use crate::table::{
    amounts_sum, copy_bytes, sum_by, lemma_sum_by_plus, lemma_sum_by_single, lemma_sum_by_zero,
};

verus! {

/// One command of a run, with what was read from the contract around it.
pub struct Step {
    /// The command.
    pub command: Command,
    /// The name the contract reported before the command.
    pub name: Vec<u8>,
    /// The symbol the contract reported before the command.
    pub symbol: Vec<u8>,
    /// The decimals the contract reported before the command.
    pub decimals: u32,
    /// How the call to the contract came back; not read for `AdvanceLedgers`.
    pub outcome: CallOutcome,
    /// For `AdvanceLedgers`, the allowances the contract reported once the
    /// ledgers had advanced, `[from][spender]`; not read otherwise.
    pub reported_allowances: Vec<Vec<i128>>,
    /// What the contract reported after the command.
    pub observed: Observation,
}

/// How a step moves the expected state, or the finding that stops the run:
/// the reported metadata is taken over; after advancing ledgers the reported
/// allowances are taken over; the command's outcome is applied; then the
/// expected state is checked against what the contract reports.
pub open spec fn step_effect(m: TokenModel, step: Step, keys: Seq<Seq<u8>>) -> Result<
    TokenModel,
    Violation,
> {
    let m1 = TokenModel { name: step.name@, symbol: step.symbol@, decimals: step.decimals, ..m };
    let rows = matrix_rows(step.reported_allowances@);
    let m2 = if step.command is AdvanceLedgers {
        if matrix_nonnegative(rows, keys.len() as int) {
            Ok(
                TokenModel {
                    allowances: allowance_rows_written(m1.allowances, keys, rows, keys.len() as int),
                    ..m1
                },
            )
        } else {
            Err(Violation::NegativeAllowance)
        }
    } else {
        Ok(m1)
    };
    match m2 {
        Err(e) => Err(e),
        Ok(m2) => match command_effect(m2, step.command, keys, step.outcome) {
            Err(e) => Err(e),
            Ok(m3) => match check_result(m3, keys, step.observed) {
                Err(e) => Err(e),
                Ok(_) => Ok(m3),
            },
        },
    }
}

/// The expected state after a run of steps from `m`, or the first finding.
pub open spec fn run_effect(m: TokenModel, steps: Seq<Step>, keys: Seq<Seq<u8>>) -> Result<
    TokenModel,
    Violation,
>
    decreases steps.len(),
{
    if steps.len() == 0 {
        Ok(m)
    } else {
        match run_effect(m, steps.drop_last(), keys) {
            Err(e) => Err(e),
            Ok(t) => step_effect(t, steps.last(), keys),
        }
    }
}

/// The step is shaped for `n` accounts.
pub open spec fn step_fits(step: Step, n: int) -> bool {
    &&& step.command.indices_below(n)
    &&& step.observed.shaped_for(n)
    &&& step.command is AdvanceLedgers ==> is_square(matrix_rows(step.reported_allowances@), n)
}

/// What a step adds to the balance of `a`, as the command says, where its
/// call succeeded.
pub open spec fn balance_delta(step: Step, keys: Seq<Seq<u8>>, a: Seq<u8>) -> int {
    if step.outcome is Succeeded {
        match step.command {
            Command::Mint { to_account_index, amount } => if keys[to_account_index as int] == a {
                amount as int
            } else {
                0
            },
            Command::TransferFrom { from_account_index, to_account_index, amount, .. } => (if keys[
                to_account_index as int] == a {
                amount as int
            } else {
                0
            }) - (if keys[from_account_index as int] == a {
                amount as int
            } else {
                0
            }),
            Command::Transfer { from_account_index, to_account_index, amount } => (if keys[
                to_account_index as int] == a {
                amount as int
            } else {
                0
            }) - (if keys[from_account_index as int] == a {
                amount as int
            } else {
                0
            }),
            Command::BurnFrom { from_account_index, amount, .. } => if keys[
                from_account_index as int] == a {
                -amount
            } else {
                0
            },
            Command::Burn { from_account_index, amount } => if keys[from_account_index as int]
                == a {
                -amount
            } else {
                0
            },
            _ => 0,
        }
    } else {
        0
    }
}

/// What a step mints: the amount of a mint whose call succeeded.
pub open spec fn minted_delta(step: Step) -> int {
    match step.command {
        Command::Mint { amount, .. } => if step.outcome is Succeeded {
            amount as int
        } else {
            0
        },
        _ => 0,
    }
}

/// What a step burns: the amount of a burn whose call succeeded.
pub open spec fn burned_delta(step: Step) -> int {
    match step.command {
        Command::Burn { amount, .. } => if step.outcome is Succeeded {
            amount as int
        } else {
            0
        },
        Command::BurnFrom { amount, .. } => if step.outcome is Succeeded {
            amount as int
        } else {
            0
        },
        _ => 0,
    }
}

/// The allowance of `spender` over `from` after a step, given the one
/// before: taken from the reports after advancing ledgers, set by an
/// approval, lowered by a spend, as the command says, where its call
/// succeeded.
pub open spec fn allowance_after(
    step: Step,
    keys: Seq<Seq<u8>>,
    from: Seq<u8>,
    spender: Seq<u8>,
    prev: int,
) -> int {
    if step.command is AdvanceLedgers {
        if keys.contains(from) && keys.contains(spender) {
            matrix_rows(step.reported_allowances@)[keys.index_of(from)][keys.index_of(
                spender,
            )] as int
        } else {
            prev
        }
    } else if step.outcome is Succeeded {
        match step.command {
            Command::Approve { from_account_index, spender_account_index, amount, .. } => if keys[
                from_account_index as int] == from && keys[spender_account_index as int]
                == spender {
                amount as int
            } else {
                prev
            },
            Command::TransferFrom { spender_account_index, from_account_index, amount, .. } => if keys[
                from_account_index as int] == from && keys[spender_account_index as int]
                == spender {
                prev - amount
            } else {
                prev
            },
            Command::BurnFrom { spender_account_index, from_account_index, amount } => if keys[
                from_account_index as int] == from && keys[spender_account_index as int]
                == spender {
                prev - amount
            } else {
                prev
            },
            _ => prev,
        }
    } else {
        prev
    }
}

/// The sum of what a run's steps add to the balance of `a`.
pub open spec fn balance_history(steps: Seq<Step>, keys: Seq<Seq<u8>>, a: Seq<u8>) -> int
    decreases steps.len(),
{
    if steps.len() == 0 {
        0
    } else {
        balance_history(steps.drop_last(), keys, a) + balance_delta(steps.last(), keys, a)
    }
}

/// The sum of what a run's steps mint.
pub open spec fn minted_history(steps: Seq<Step>) -> int
    decreases steps.len(),
{
    if steps.len() == 0 {
        0
    } else {
        minted_history(steps.drop_last()) + minted_delta(steps.last())
    }
}

/// The sum of what a run's steps burn.
pub open spec fn burned_history(steps: Seq<Step>) -> int
    decreases steps.len(),
{
    if steps.len() == 0 {
        0
    } else {
        burned_history(steps.drop_last()) + burned_delta(steps.last())
    }
}

/// The allowance of `spender` over `from` after a run's steps, starting from
/// `start`.
pub open spec fn allowance_history(
    start: int,
    steps: Seq<Step>,
    keys: Seq<Seq<u8>>,
    from: Seq<u8>,
    spender: Seq<u8>,
) -> int
    decreases steps.len(),
{
    if steps.len() == 0 {
        start
    } else {
        allowance_after(
            steps.last(),
            keys,
            from,
            spender,
            allowance_history(start, steps.drop_last(), keys, from, spender),
        )
    }
}

/// The sum of the balances of the accounts.
pub open spec fn accounts_supply(m: TokenModel, keys: Seq<Seq<u8>>) -> int {
    sum_by(keys, |k: Seq<u8>| m.balance(k))
}

/// A state a run may start from: no negative amount, balances only for the
/// accounts, and minted minus burned equal to the accounts' balances.
pub open spec fn sound_start(m: TokenModel, keys: Seq<Seq<u8>>) -> bool {
    &&& m.amounts_nonnegative()
    &&& balances_within(m, keys)
    &&& m.minted - m.burned == accounts_supply(m, keys)
}

/// What a step that passed its check shows: the contract kept its metadata
/// across the command, and reports exactly the expected balances (none
/// negative), allowances and supply.
pub open spec fn step_observation_agrees(t: TokenModel, step: Step, keys: Seq<Seq<u8>>) -> bool {
    &&& step.observed.name@ == step.name@
    &&& step.observed.symbol@ == step.symbol@
    &&& step.observed.decimals == step.decimals
    &&& forall|i: int|
        0 <= i < keys.len() ==> #[trigger] step.observed.balances@[i] == t.balance(keys[i])
            && step.observed.balances@[i] >= 0
    &&& forall|i: int, j: int|
        0 <= i < keys.len() && 0 <= j < keys.len() ==> #[trigger] matrix_rows(
            step.observed.allowances@,
        )[i][j] == t.allowance(keys[i], keys[j])
    &&& amounts_sum(step.observed.balances@) == t.minted - t.burned
}

proof fn lemma_delta_sum(m: TokenModel, t: TokenModel, step: Step, keys: Seq<Seq<u8>>)
    requires
        keys.no_duplicates(),
        step.command.indices_below(keys.len() as int),
        forall|a: Seq<u8>| #[trigger] t.balance(a) == m.balance(a) + balance_delta(step, keys, a),
    ensures
        accounts_supply(t, keys) == accounts_supply(m, keys) + minted_delta(step) - burned_delta(
            step,
        ),
{
    let d = |a: Seq<u8>| balance_delta(step, keys, a);
    let fm = |a: Seq<u8>| m.balance(a);
    let ft = |a: Seq<u8>| t.balance(a);
    lemma_sum_by_plus(keys, fm, d, ft);
    if step.outcome is Succeeded {
        match step.command {
            Command::Mint { to_account_index, amount } => {
                let k = keys[to_account_index as int];
                assert(keys.contains(k));
                lemma_sum_by_single(keys, d, k, amount as int);
            },
            Command::TransferFrom { from_account_index, to_account_index, amount, .. } => {
                let kt = keys[to_account_index as int];
                let kf = keys[from_account_index as int];
                assert(keys.contains(kt));
                assert(keys.contains(kf));
                let it = |x: Seq<u8>| if x == kt { amount as int } else { 0 };
                let iff = |x: Seq<u8>| if x == kf { -amount } else { 0 };
                lemma_sum_by_single(keys, it, kt, amount as int);
                lemma_sum_by_single(keys, iff, kf, -amount);
                lemma_sum_by_plus(keys, it, iff, d);
            },
            Command::Transfer { from_account_index, to_account_index, amount } => {
                let kt = keys[to_account_index as int];
                let kf = keys[from_account_index as int];
                assert(keys.contains(kt));
                assert(keys.contains(kf));
                let it = |x: Seq<u8>| if x == kt { amount as int } else { 0 };
                let iff = |x: Seq<u8>| if x == kf { -amount } else { 0 };
                lemma_sum_by_single(keys, it, kt, amount as int);
                lemma_sum_by_single(keys, iff, kf, -amount);
                lemma_sum_by_plus(keys, it, iff, d);
            },
            Command::BurnFrom { from_account_index, amount, .. } => {
                let k = keys[from_account_index as int];
                assert(keys.contains(k));
                lemma_sum_by_single(keys, d, k, -amount);
            },
            Command::Burn { from_account_index, amount } => {
                let k = keys[from_account_index as int];
                assert(keys.contains(k));
                lemma_sum_by_single(keys, d, k, -amount);
            },
            _ => {
                lemma_sum_by_zero(keys, d);
            },
        }
    } else {
        lemma_sum_by_zero(keys, d);
    }
}

/// The state after a step's metadata and, after advancing ledgers, its
/// reported allowances were taken over, before the command's outcome.
pub open spec fn step_prepared(m: TokenModel, step: Step, keys: Seq<Seq<u8>>) -> TokenModel {
    let m1 = TokenModel { name: step.name@, symbol: step.symbol@, decimals: step.decimals, ..m };
    if step.command is AdvanceLedgers {
        TokenModel {
            allowances: allowance_rows_written(
                m1.allowances,
                keys,
                matrix_rows(step.reported_allowances@),
                keys.len() as int,
            ),
            ..m1
        }
    } else {
        m1
    }
}

proof fn lemma_command_balances(m: TokenModel, t: TokenModel, step: Step, keys: Seq<Seq<u8>>)
    requires
        command_effect(m, step.command, keys, step.outcome) == Ok::<TokenModel, Violation>(t),
    ensures
        forall|a: Seq<u8>| #[trigger] t.balance(a) == m.balance(a) + balance_delta(step, keys, a),
        t.minted == m.minted + minted_delta(step),
        t.burned == m.burned + burned_delta(step),
        t.name == m.name && t.symbol == m.symbol && t.decimals == m.decimals,
        !(step.command is AdvanceLedgers) ==> forall|f: Seq<u8>, s: Seq<u8>| #[trigger] t.allowance(
            f,
            s,
        ) == allowance_after(step, keys, f, s, m.allowance(f, s)),
        step.command is AdvanceLedgers ==> t == m,
{
    if step.outcome is Succeeded {
        match step.command {
            Command::TransferFrom { spender_account_index, from_account_index, to_account_index, amount } => {
                let u = m.debited(keys[from_account_index as int], amount as int).unwrap();
                let v = u.credited(keys[to_account_index as int], amount as int).unwrap();
                assert forall|a: Seq<u8>| #[trigger] t.balance(a) == m.balance(a) + balance_delta(step, keys, a) by {
                    assert(t.balance(a) == v.balance(a));
                }
            },
            Command::Transfer { from_account_index, to_account_index, amount } => {
                let u = m.debited(keys[from_account_index as int], amount as int).unwrap();
                assert forall|a: Seq<u8>| #[trigger] t.balance(a) == m.balance(a) + balance_delta(step, keys, a) by {
                    assert(t.balance(a) == u.credited(keys[to_account_index as int], amount as int).unwrap().balance(a));
                }
            },
            Command::BurnFrom { spender_account_index, from_account_index, amount } => {
                let u = m.debited(keys[from_account_index as int], amount as int).unwrap();
                let v = u.allowance_reduced(keys[from_account_index as int], keys[spender_account_index as int], amount as int).unwrap();
                assert forall|a: Seq<u8>| #[trigger] t.balance(a) == m.balance(a) + balance_delta(step, keys, a) by {
                    assert(t.balance(a) == v.balance(a));
                }
            },
            _ => {},
        }
    }
}

/// Law: a step that passes keeps a sound state sound, moves each balance,
/// the minted and the burned amounts and each allowance exactly as the
/// command says, leaves balances alone when ledgers advance, and shows that
/// the contract reports exactly the expected state and kept its metadata.
pub proof fn lemma_step_facts(m: TokenModel, step: Step, keys: Seq<Seq<u8>>)
    requires
        keys.no_duplicates(),
        step_fits(step, keys.len() as int),
        sound_start(m, keys),
    ensures
        step_effect(m, step, keys) matches Ok(t) ==> {
            &&& sound_start(t, keys)
            &&& forall|a: Seq<u8>| #[trigger] t.balance(a) == m.balance(a) + balance_delta(step, keys, a)
            &&& t.minted == m.minted + minted_delta(step)
            &&& t.burned == m.burned + burned_delta(step)
            &&& forall|f: Seq<u8>, s: Seq<u8>| #[trigger] t.allowance(f, s) == allowance_after(
                step,
                keys,
                f,
                s,
                m.allowance(f, s),
            )
            &&& step_observation_agrees(t, step, keys)
            &&& step.command is AdvanceLedgers ==> t.balances == m.balances
        },
{
    if step_effect(m, step, keys) is Ok {
        let t = step_effect(m, step, keys).unwrap();
        let n = keys.len() as int;
        let rows = matrix_rows(step.reported_allowances@);
        let m1 = TokenModel { name: step.name@, symbol: step.symbol@, decimals: step.decimals, ..m };
        let m2 = step_prepared(m, step, keys);
        assert(command_effect(m2, step.command, keys, step.outcome) == Ok::<TokenModel, Violation>(t));
        assert(check_result(t, keys, step.observed) is Ok);
        if step.command is AdvanceLedgers {
            assert(matrix_nonnegative(rows, n));
            assert forall|f: Seq<u8>, s: Seq<u8>| #[trigger] m2.allowance(f, s) == allowance_after(
                step,
                keys,
                f,
                s,
                m.allowance(f, s),
            ) by {
                lemma_refreshed_allowance(m1, keys, rows, f, s);
            }
            assert forall|p: (Seq<u8>, Seq<u8>)| #[trigger] m2.allowances.contains_key(p) implies m2.allowances[p]
                >= 0 by {
                lemma_refreshed_allowance(m1, keys, rows, p.0, p.1);
                if keys.contains(p.0) && keys.contains(p.1) {
                    let i = keys.index_of(p.0);
                    let j = keys.index_of(p.1);
                    assert(0 <= i < n && 0 <= j < n);
                    assert(rows[i][j] >= 0);
                    assert(m2.allowance(p.0, p.1) == m2.allowances[p]);
                } else {
                    assert(m2.allowance(p.0, p.1) == m.allowance(p.0, p.1));
                    assert(m.allowance(p.0, p.1) >= 0);
                    assert(m2.allowance(p.0, p.1) == m2.allowances[p]);
                }
            }
        }
        assert(m2.amounts_nonnegative());
        assert(balances_within(m2, keys));
        lemma_command_keeps_amounts_nonnegative(m2, step.command, keys, step.outcome);
        lemma_command_keeps_balances_within(m2, step.command, keys, step.outcome);
        lemma_command_balances(m2, t, step, keys);
        assert forall|a: Seq<u8>| #[trigger] t.balance(a) == m.balance(a) + balance_delta(step, keys, a) by {
            assert(m2.balance(a) == m.balance(a));
        }
        lemma_delta_sum(m, t, step, keys);
        lemma_check_result_ok(t, keys, step.observed);
        let obs = step.observed.balances@;
        let orows = matrix_rows(step.observed.allowances@);
        assert forall|i: int| 0 <= i < keys.len() implies #[trigger] obs[i] == t.balance(keys[i]) && obs[i] >= 0 by {
            assert(balance_ok(t, keys, obs, i));
        }
        assert forall|i: int, j: int| 0 <= i < keys.len() && 0 <= j < keys.len() implies #[trigger] orows[i][j]
            == t.allowance(keys[i], keys[j]) by {
            assert(allowance_ok(t, keys, orows, i, j));
        }
    }
}

/// The state `ContractState::init` starts from.
pub open spec fn empty_model() -> TokenModel {
    TokenModel {
        name: Seq::empty(),
        symbol: Seq::empty(),
        decimals: 0,
        balances: Map::empty(),
        allowances: Map::empty(),
        minted: 0,
        burned: 0,
    }
}

/// Law: a run may start from the empty state, whatever its accounts.
pub proof fn lemma_empty_model_sound(keys: Seq<Seq<u8>>)
    ensures
        sound_start(empty_model(), keys),
{
    lemma_sum_by_zero(keys, |k: Seq<u8>| empty_model().balance(k));
}

/// Every step of the run is shaped for `n` accounts.
pub open spec fn steps_fit(steps: Seq<Step>, n: int) -> bool {
    forall|i: int| 0 <= i < steps.len() ==> step_fits(#[trigger] steps[i], n)
}

/// Law over a whole run: a run that passes every step from a sound state
/// ends in a sound state (no negative amount, balances only for the
/// accounts, minted minus burned equal to the accounts' balances), with each
/// balance, the minted and burned amounts and each allowance as the
/// successful commands of the run say.
pub proof fn lemma_run_facts(m0: TokenModel, steps: Seq<Step>, keys: Seq<Seq<u8>>)
    requires
        keys.no_duplicates(),
        sound_start(m0, keys),
        steps_fit(steps, keys.len() as int),
    ensures
        run_effect(m0, steps, keys) matches Ok(t) ==> {
            &&& sound_start(t, keys)
            &&& forall|a: Seq<u8>| #[trigger] t.balance(a) == m0.balance(a) + balance_history(
                steps,
                keys,
                a,
            )
            &&& t.minted == m0.minted + minted_history(steps)
            &&& t.burned == m0.burned + burned_history(steps)
            &&& forall|f: Seq<u8>, s: Seq<u8>| #[trigger] t.allowance(f, s) == allowance_history(
                m0.allowance(f, s),
                steps,
                keys,
                f,
                s,
            )
        },
    decreases steps.len(),
{
    if steps.len() > 0 {
        let prev = steps.drop_last();
        assert forall|i: int| 0 <= i < prev.len() implies step_fits(#[trigger] prev[i], keys.len() as int) by {
            assert(prev[i] == steps[i]);
        }
        lemma_run_facts(m0, prev, keys);
        if run_effect(m0, steps, keys) is Ok {
            let t0 = run_effect(m0, prev, keys).unwrap();
            assert(step_fits(steps[steps.len() - 1], keys.len() as int));
            lemma_step_facts(t0, steps.last(), keys);
        }
    }
}

proof fn lemma_run_prefix_ok(m0: TokenModel, steps: Seq<Step>, keys: Seq<Seq<u8>>, k: int)
    requires
        0 <= k <= steps.len(),
        run_effect(m0, steps, keys) is Ok,
    ensures
        run_effect(m0, steps.take(k), keys) is Ok,
    decreases steps.len(),
{
    if k == steps.len() {
        assert(steps.take(k) =~= steps);
    } else {
        let prev = steps.drop_last();
        lemma_run_prefix_ok(m0, prev, keys, k);
        assert(prev.take(k) =~= steps.take(k));
    }
}

/// The state after the first `k` steps of a run.
pub open spec fn state_after(m0: TokenModel, steps: Seq<Step>, keys: Seq<Seq<u8>>, k: int) -> TokenModel {
    run_effect(m0, steps.take(k), keys).unwrap()
}

proof fn lemma_step_in_run(m0: TokenModel, steps: Seq<Step>, keys: Seq<Seq<u8>>, i: int)
    requires
        keys.no_duplicates(),
        sound_start(m0, keys),
        steps_fit(steps, keys.len() as int),
        0 <= i < steps.len(),
        run_effect(m0, steps, keys) is Ok,
    ensures
        run_effect(m0, steps.take(i), keys) is Ok,
        run_effect(m0, steps.take(i + 1), keys) == step_effect(
            state_after(m0, steps, keys, i),
            steps[i],
            keys,
        ),
        run_effect(m0, steps.take(i + 1), keys) is Ok,
        step_observation_agrees(state_after(m0, steps, keys, i + 1), steps[i], keys),
        steps[i].command is AdvanceLedgers ==> state_after(m0, steps, keys, i + 1).balances
            == state_after(m0, steps, keys, i).balances,
{
    lemma_run_prefix_ok(m0, steps, keys, i);
    lemma_run_prefix_ok(m0, steps, keys, i + 1);
    let p = steps.take(i + 1);
    assert(p.drop_last() =~= steps.take(i));
    assert(p.last() == steps[i]);
    let q = steps.take(i);
    assert(steps_fit(q, keys.len() as int)) by {
        assert forall|j: int| 0 <= j < q.len() implies step_fits(#[trigger] q[j], keys.len() as int) by {
            assert(q[j] == steps[j]);
        }
    }
    lemma_run_facts(m0, q, keys);
    assert(step_fits(steps[i], keys.len() as int));
    lemma_step_facts(state_after(m0, steps, keys, i), steps[i], keys);
}

/// Law over a whole run: after every step of a run that passes, the
/// contract reports for each account the balance its starting balance and
/// the successful commands so far give, never negative; for each pair of
/// accounts the allowance those commands and the reports after advancing
/// ledgers give; a sum of balances equal to minted minus burned so far; the
/// name, symbol and decimals it reported before the command; and, after
/// advancing ledgers, the same balances it reported after the step before.
pub proof fn lemma_run_observations(m0: TokenModel, steps: Seq<Step>, keys: Seq<Seq<u8>>, i: int)
    requires
        keys.no_duplicates(),
        sound_start(m0, keys),
        steps_fit(steps, keys.len() as int),
        0 <= i < steps.len(),
        run_effect(m0, steps, keys) is Ok,
    ensures
        ({
            let step = steps[i];
            let done = steps.take(i + 1);
            let obs = step.observed.balances@;
            let rows = matrix_rows(step.observed.allowances@);
            &&& step.observed.name@ == step.name@
            &&& step.observed.symbol@ == step.symbol@
            &&& step.observed.decimals == step.decimals
            &&& forall|j: int|
                0 <= j < keys.len() ==> #[trigger] obs[j] == m0.balance(keys[j]) + balance_history(
                    done,
                    keys,
                    keys[j],
                ) && obs[j] >= 0
            &&& amounts_sum(obs) == m0.minted - m0.burned + minted_history(done) - burned_history(
                done,
            )
            &&& forall|j: int, k: int|
                0 <= j < keys.len() && 0 <= k < keys.len() ==> #[trigger] rows[j][k]
                    == allowance_history(m0.allowance(keys[j], keys[k]), done, keys, keys[j], keys[k])
            &&& step.command is AdvanceLedgers && i > 0 ==> obs == steps[i - 1].observed.balances@
        }),
{
    lemma_step_in_run(m0, steps, keys, i);
    let done = steps.take(i + 1);
    assert(steps_fit(done, keys.len() as int)) by {
        assert forall|j: int| 0 <= j < done.len() implies step_fits(#[trigger] done[j], keys.len() as int) by {
            assert(done[j] == steps[j]);
        }
    }
    lemma_run_facts(m0, done, keys);
    let t = state_after(m0, steps, keys, i + 1);
    let obs = steps[i].observed.balances@;
    assert forall|j: int| 0 <= j < keys.len() implies #[trigger] obs[j] == m0.balance(keys[j])
        + balance_history(done, keys, keys[j]) && obs[j] >= 0 by {
        assert(obs[j] == t.balance(keys[j]));
    }
    let rows = matrix_rows(steps[i].observed.allowances@);
    assert forall|j: int, k: int| 0 <= j < keys.len() && 0 <= k < keys.len() implies #[trigger] rows[j][k]
        == allowance_history(m0.allowance(keys[j], keys[k]), done, keys, keys[j], keys[k]) by {
        assert(rows[j][k] == t.allowance(keys[j], keys[k]));
    }
    if steps[i].command is AdvanceLedgers && i > 0 {
        lemma_step_in_run(m0, steps, keys, i - 1);
        assert(i - 1 + 1 == i);
        let before = steps[i - 1].observed.balances@;
        let t0 = state_after(m0, steps, keys, i);
        assert(step_fits(steps[i], keys.len() as int));
        assert(step_fits(steps[i - 1], keys.len() as int));
        assert(obs.len() == keys.len() && before.len() == keys.len());
        assert forall|j: int| 0 <= j < obs.len() implies obs[j] == before[j] by {
            assert(obs[j] == t.balance(keys[j]));
            assert(before[j] == t0.balance(keys[j]));
        }
        assert(obs =~= before);
    }
}

impl ContractState {
    /// Takes one step of a run: records the reported metadata; after
    /// advancing ledgers, takes over the reported allowances; applies the
    /// command's outcome; checks the result against what the contract
    /// reports. Returns the first finding.
    pub fn step(&mut self, accounts: &Vec<Vec<u8>>, step: &Step) -> (r: Result<(), Violation>)
        requires
            old(self).wf(),
            step_fits(*step, accounts@.len() as int),
        ensures
            final(self).wf(),
            match step_effect(old(self)@, *step, account_keys(accounts@)) {
                Ok(m) => r is Ok && final(self)@ == m,
                Err(e) => r == Err::<(), Violation>(e),
            },
            r is Ok && old(self).supply_consistent() ==> final(self).supply_consistent(),
            r is Ok && balances_within(old(self)@, account_keys(accounts@)) ==> balances_within(
                final(self)@,
                account_keys(accounts@),
            ),
    {
        self.observe_metadata(copy_bytes(&step.name), copy_bytes(&step.symbol), step.decimals);
        if let Command::AdvanceLedgers { .. } = step.command {
            if let Err(e) = self.refresh_allowances(accounts, &step.reported_allowances) {
                return Err(e);
            }
        }
        if let Err(e) = self.apply_command(&step.command, accounts, &step.outcome) {
            return Err(e);
        }
        self.check_state(accounts, &step.observed)
    }
}

} // verus!
