//! Comparing the expected state with what the contract reports, and taking
//! over the allowances the contract reports after time has passed.
use vstd::prelude::*;
use crate::bigint::{bigint_value, bigint_zero, bigint_from_i128, bigint_add, bigint_eq};
use crate::commands::account_keys;
use crate::model::{ContractState, TokenModel, Violation};
use crate::table::{amounts_sum, bytes_equal, lemma_amounts_sum_by_keys};

verus! {

/// What the contract reports, read through its client: its metadata, the
/// balance of each account, and the allowance of each pair of accounts,
/// `allowances[from][spender]`.
pub struct Observation {
    pub name: Vec<u8>,
    pub symbol: Vec<u8>,
    pub decimals: u32,
    pub balances: Vec<i128>,
    pub allowances: Vec<Vec<i128>>,
}

/// The views of the rows of a matrix.
pub open spec fn matrix_rows(m: Seq<Vec<i128>>) -> Seq<Seq<i128>> {
    m.map_values(|r: Vec<i128>| r@)
}

/// A square matrix with one row and one column per account.
pub open spec fn is_square(m: Seq<Seq<i128>>, n: int) -> bool {
    m.len() == n && forall|i: int| 0 <= i < n ==> #[trigger] m[i].len() == n
}

impl Observation {
    /// One balance per account and one allowance per pair of accounts.
    pub open spec fn shaped_for(&self, n: int) -> bool {
        &&& self.balances@.len() == n
        &&& is_square(matrix_rows(self.allowances@), n)
    }
}

/// The account at index `i` has the expected balance, and that balance is not
/// negative.
pub open spec fn balance_ok(m: TokenModel, keys: Seq<Seq<u8>>, obs: Seq<i128>, i: int) -> bool {
    m.balance(keys[i]) == obs[i] && obs[i] >= 0
}

/// The allowance of the pair `(i, j)` is the expected one.
pub open spec fn allowance_ok(
    m: TokenModel,
    keys: Seq<Seq<u8>>,
    rows: Seq<Seq<i128>>,
    i: int,
    j: int,
) -> bool {
    m.allowance(keys[i], keys[j]) == rows[i][j]
}

/// The metadata agree.
pub open spec fn metadata_ok(m: TokenModel, obs: Observation) -> bool {
    m.name == obs.name@ && m.symbol == obs.symbol@ && m.decimals == obs.decimals
}

/// Every balance agrees.
pub open spec fn balances_ok(m: TokenModel, keys: Seq<Seq<u8>>, obs: Seq<i128>) -> bool {
    forall|i: int| 0 <= i < keys.len() ==> #[trigger] balance_ok(m, keys, obs, i)
}

/// Every allowance agrees.
pub open spec fn allowances_ok(m: TokenModel, keys: Seq<Seq<u8>>, rows: Seq<Seq<i128>>) -> bool {
    forall|i: int, j: int|
        0 <= i < keys.len() && 0 <= j < keys.len() ==> #[trigger] allowance_ok(m, keys, rows, i, j)
}

/// Every allowance of the pairs before `(i, j)`, in row-major order, agrees.
pub open spec fn allowances_ok_before(
    m: TokenModel,
    keys: Seq<Seq<u8>>,
    rows: Seq<Seq<i128>>,
    i: int,
    j: int,
) -> bool {
    forall|a: int, b: int|
        0 <= a < keys.len() && 0 <= b < keys.len() && (a < i || (a == i && b < j))
            ==> #[trigger] allowance_ok(m, keys, rows, a, b)
}

/// What was minted minus what was burned equals the sum of the reported
/// balances.
pub open spec fn supply_ok(m: TokenModel, obs: Seq<i128>) -> bool {
    m.minted - m.burned == amounts_sum(obs)
}

/// The balance check from account `i` on: the first account whose balance
/// disagrees or is negative, in that order of checks.
pub open spec fn balances_result(m: TokenModel, keys: Seq<Seq<u8>>, obs: Seq<i128>, i: int) -> Result<
    (),
    Violation,
>
    decreases keys.len() - i,
{
    if i < 0 || i >= keys.len() {
        Ok(())
    } else if m.balance(keys[i]) != obs[i] {
        Err(Violation::BalanceMismatch { account: i as usize })
    } else if obs[i] < 0 {
        Err(Violation::NegativeObservedBalance { account: i as usize })
    } else {
        balances_result(m, keys, obs, i + 1)
    }
}

/// The allowance check of row `a` from spender `b` on.
pub open spec fn allowance_row_result(
    m: TokenModel,
    keys: Seq<Seq<u8>>,
    rows: Seq<Seq<i128>>,
    a: int,
    b: int,
) -> Result<(), Violation>
    decreases keys.len() - b,
{
    if b < 0 || b >= keys.len() {
        Ok(())
    } else if !allowance_ok(m, keys, rows, a, b) {
        Err(Violation::AllowanceMismatch { from: a as usize, spender: b as usize })
    } else {
        allowance_row_result(m, keys, rows, a, b + 1)
    }
}

/// The allowance check from row `a` on, row by row.
pub open spec fn allowances_result(m: TokenModel, keys: Seq<Seq<u8>>, rows: Seq<Seq<i128>>, a: int) -> Result<
    (),
    Violation,
>
    decreases keys.len() - a,
{
    if a < 0 || a >= keys.len() {
        Ok(())
    } else {
        match allowance_row_result(m, keys, rows, a, 0) {
            Err(e) => Err(e),
            Ok(_) => allowances_result(m, keys, rows, a + 1),
        }
    }
}

/// The outcome of checking the expected state `m` against what the contract
/// reports: name, symbol, decimals, then balances, then allowances, then
/// the supply, the first disagreement found.
pub open spec fn check_result(m: TokenModel, keys: Seq<Seq<u8>>, observed: Observation) -> Result<
    (),
    Violation,
> {
    if m.name != observed.name@ {
        Err(Violation::NameMismatch)
    } else if m.symbol != observed.symbol@ {
        Err(Violation::SymbolMismatch)
    } else if m.decimals != observed.decimals {
        Err(Violation::DecimalsMismatch)
    } else {
        match balances_result(m, keys, observed.balances@, 0) {
            Err(e) => Err(e),
            Ok(_) => match allowances_result(m, keys, matrix_rows(observed.allowances@), 0) {
                Err(e) => Err(e),
                Ok(_) => if supply_ok(m, observed.balances@) {
                    Ok(())
                } else {
                    Err(Violation::SupplyMismatch)
                },
            },
        }
    }
}

proof fn lemma_balances_result_ok(m: TokenModel, keys: Seq<Seq<u8>>, obs: Seq<i128>, i: int)
    requires
        0 <= i <= keys.len(),
        balances_result(m, keys, obs, i) is Ok,
    ensures
        forall|k: int| i <= k < keys.len() ==> #[trigger] balance_ok(m, keys, obs, k),
    decreases keys.len() - i,
{
    if i < keys.len() {
        lemma_balances_result_ok(m, keys, obs, i + 1);
    }
}

proof fn lemma_row_result_ok(m: TokenModel, keys: Seq<Seq<u8>>, rows: Seq<Seq<i128>>, a: int, b: int)
    requires
        0 <= b <= keys.len(),
        allowance_row_result(m, keys, rows, a, b) is Ok,
    ensures
        forall|j: int| b <= j < keys.len() ==> #[trigger] allowance_ok(m, keys, rows, a, j),
    decreases keys.len() - b,
{
    if b < keys.len() {
        lemma_row_result_ok(m, keys, rows, a, b + 1);
    }
}

proof fn lemma_allowances_result_ok(m: TokenModel, keys: Seq<Seq<u8>>, rows: Seq<Seq<i128>>, a: int)
    requires
        0 <= a <= keys.len(),
        allowances_result(m, keys, rows, a) is Ok,
    ensures
        forall|i: int, j: int|
            a <= i < keys.len() && 0 <= j < keys.len() ==> #[trigger] allowance_ok(m, keys, rows, i, j),
    decreases keys.len() - a,
{
    if a < keys.len() {
        lemma_row_result_ok(m, keys, rows, a, 0);
        lemma_allowances_result_ok(m, keys, rows, a + 1);
    }
}

/// A check that passes means that the metadata, every balance, every
/// allowance and the supply agree.
pub proof fn lemma_check_result_ok(m: TokenModel, keys: Seq<Seq<u8>>, observed: Observation)
    requires
        check_result(m, keys, observed) is Ok,
    ensures
        metadata_ok(m, observed),
        balances_ok(m, keys, observed.balances@),
        allowances_ok(m, keys, matrix_rows(observed.allowances@)),
        supply_ok(m, observed.balances@),
{
    lemma_balances_result_ok(m, keys, observed.balances@, 0);
    lemma_allowances_result_ok(m, keys, matrix_rows(observed.allowances@), 0);
}

/// Law: a reported balance that agrees with a model whose balances are
/// all at least zero is at least zero too.
pub proof fn lemma_agreeing_balance_nonnegative(
    m: TokenModel,
    keys: Seq<Seq<u8>>,
    obs: Seq<i128>,
    i: int,
)
    requires
        m.amounts_nonnegative(),
        0 <= i < keys.len(),
        i < obs.len(),
        m.balance(keys[i]) == obs[i],
    ensures
        balance_ok(m, keys, obs, i),
{
}

/// The allowance map after row `i` of `rows` was written for the spenders
/// before index `j`, in order.
pub open spec fn allowance_row_written(
    m: Map<(Seq<u8>, Seq<u8>), i128>,
    keys: Seq<Seq<u8>>,
    rows: Seq<Seq<i128>>,
    i: int,
    j: int,
) -> Map<(Seq<u8>, Seq<u8>), i128>
    decreases j,
{
    if j <= 0 {
        m
    } else {
        allowance_row_written(m, keys, rows, i, j - 1).insert((keys[i], keys[j - 1]), rows[i][j - 1])
    }
}

/// The allowance map after the rows before `i` were written, one after
/// the other, each spender in order.
pub open spec fn allowance_rows_written(
    m: Map<(Seq<u8>, Seq<u8>), i128>,
    keys: Seq<Seq<u8>>,
    rows: Seq<Seq<i128>>,
    i: int,
) -> Map<(Seq<u8>, Seq<u8>), i128>
    decreases i,
{
    if i <= 0 {
        m
    } else {
        allowance_row_written(
            allowance_rows_written(m, keys, rows, i - 1),
            keys,
            rows,
            i - 1,
            keys.len() as int,
        )
    }
}

/// Every entry of the matrix is at least zero.
pub open spec fn matrix_nonnegative(rows: Seq<Seq<i128>>, n: int) -> bool {
    forall|i: int, j: int| 0 <= i < n && 0 <= j < n ==> #[trigger] rows[i][j] >= 0
}

proof fn lemma_row_written(
    m: Map<(Seq<u8>, Seq<u8>), i128>,
    keys: Seq<Seq<u8>>,
    rows: Seq<Seq<i128>>,
    i: int,
    j: int,
)
    requires
        keys.no_duplicates(),
        0 <= i < keys.len(),
        0 <= j <= keys.len(),
    ensures
        forall|b: int|
            0 <= b < j ==> #[trigger] allowance_row_written(m, keys, rows, i, j)[(keys[i], keys[b])]
                == rows[i][b],
        forall|b: int|
            0 <= b < j ==> #[trigger] allowance_row_written(m, keys, rows, i, j).contains_key(
                (keys[i], keys[b]),
            ),
        forall|p: (Seq<u8>, Seq<u8>)|
            (p.0 != keys[i] || !(exists|b: int| 0 <= b < j && keys[b] == p.1)) ==> (
            #[trigger] allowance_row_written(m, keys, rows, i, j).contains_key(p)
                == m.contains_key(p) && (m.contains_key(p) ==> allowance_row_written(
                m,
                keys,
                rows,
                i,
                j,
            )[p] == m[p])),
    decreases j,
{
    if j > 0 {
        lemma_row_written(m, keys, rows, i, j - 1);
        let prev = allowance_row_written(m, keys, rows, i, j - 1);
        assert forall|b: int| 0 <= b < j implies #[trigger] allowance_row_written(
            m,
            keys,
            rows,
            i,
            j,
        )[(keys[i], keys[b])] == rows[i][b] by {
            if b < j - 1 {
                assert(keys[b] != keys[j - 1]);
                assert((keys[i], keys[b]) != (keys[i], keys[j - 1]));
            }
        }
        assert forall|p: (Seq<u8>, Seq<u8>)|
            (p.0 != keys[i] || !(exists|b: int| 0 <= b < j && keys[b] == p.1)) implies (
            #[trigger] allowance_row_written(m, keys, rows, i, j).contains_key(p)
                == m.contains_key(p) && (m.contains_key(p) ==> allowance_row_written(
                m,
                keys,
                rows,
                i,
                j,
            )[p] == m[p])) by {
            assert(p != (keys[i], keys[j - 1]));
            if p.0 == keys[i] {
                assert forall|b: int| 0 <= b < j - 1 implies keys[b] != p.1 by {}
            }
        }
    }
}

/// Law: when no account occurs twice, writing every row of the observed
/// allowances leaves each pair of accounts with its observed allowance.
pub proof fn lemma_rows_written_read_back(
    m: Map<(Seq<u8>, Seq<u8>), i128>,
    keys: Seq<Seq<u8>>,
    rows: Seq<Seq<i128>>,
    i: int,
)
    requires
        keys.no_duplicates(),
        0 <= i <= keys.len(),
    ensures
        forall|a: int, b: int|
            #![trigger allowance_rows_written(m, keys, rows, i).contains_key((keys[a], keys[b]))]
            #![trigger allowance_rows_written(m, keys, rows, i)[(keys[a], keys[b])]]
            0 <= a < i && 0 <= b < keys.len() ==> {
                &&& allowance_rows_written(m, keys, rows, i).contains_key((keys[a], keys[b]))
                &&& allowance_rows_written(m, keys, rows, i)[(keys[a], keys[b])] == rows[a][b]
            },
    decreases i,
{
    if i > 0 {
        lemma_rows_written_read_back(m, keys, rows, i - 1);
        let prev = allowance_rows_written(m, keys, rows, i - 1);
        let n = keys.len() as int;
        lemma_row_written(prev, keys, rows, i - 1, n);
        assert(allowance_rows_written(m, keys, rows, i) == allowance_row_written(
            prev,
            keys,
            rows,
            i - 1,
            n,
        ));
        assert forall|a: int, b: int|
            #![trigger allowance_rows_written(m, keys, rows, i).contains_key((keys[a], keys[b]))]
            #![trigger allowance_rows_written(m, keys, rows, i)[(keys[a], keys[b])]]
            0 <= a < i && 0 <= b < keys.len() implies {
            &&& allowance_rows_written(m, keys, rows, i).contains_key((keys[a], keys[b]))
            &&& allowance_rows_written(m, keys, rows, i)[(keys[a], keys[b])] == rows[a][b]
        } by {
            if a < i - 1 {
                assert(keys[a] != keys[i - 1]);
                let p = (keys[a], keys[b]);
                assert(p.0 != keys[i - 1]);
                assert(prev[p] == rows[a][b]);
                assert(prev.contains_key(p));
                assert(allowance_row_written(prev, keys, rows, i - 1, n).contains_key(p));
                assert(allowance_row_written(prev, keys, rows, i - 1, n)[p] == prev[p]);
            } else {
                assert(allowance_row_written(prev, keys, rows, i - 1, n)[(keys[i - 1], keys[b])]
                    == rows[i - 1][b]);
                assert(allowance_row_written(prev, keys, rows, i - 1, n).contains_key(
                    (keys[i - 1], keys[b]),
                ));
            }
        }
    }
}

proof fn lemma_rows_written_outside(
    m: Map<(Seq<u8>, Seq<u8>), i128>,
    keys: Seq<Seq<u8>>,
    rows: Seq<Seq<i128>>,
    i: int,
    p: (Seq<u8>, Seq<u8>),
)
    requires
        keys.no_duplicates(),
        0 <= i <= keys.len(),
        !(keys.contains(p.0) && keys.contains(p.1)),
    ensures
        allowance_rows_written(m, keys, rows, i).contains_key(p) == m.contains_key(p),
        m.contains_key(p) ==> allowance_rows_written(m, keys, rows, i)[p] == m[p],
    decreases i,
{
    if i > 0 {
        lemma_rows_written_outside(m, keys, rows, i - 1, p);
        let prev = allowance_rows_written(m, keys, rows, i - 1);
        lemma_row_written(prev, keys, rows, i - 1, keys.len() as int);
        if p.0 == keys[i - 1] {
            assert(keys.contains(p.0));
            assert(!(exists|b: int| 0 <= b < keys.len() && keys[b] == p.1));
        }
        assert(allowance_row_written(prev, keys, rows, i - 1, keys.len() as int).contains_key(p)
            == prev.contains_key(p));
    }
}

/// The allowance of a pair after the reported allowances were taken over:
/// the reported one for a pair of accounts, the earlier one otherwise.
pub proof fn lemma_refreshed_allowance(
    m: TokenModel,
    keys: Seq<Seq<u8>>,
    rows: Seq<Seq<i128>>,
    f: Seq<u8>,
    s: Seq<u8>,
)
    requires
        keys.no_duplicates(),
    ensures
        ({
            let t = TokenModel {
                allowances: allowance_rows_written(m.allowances, keys, rows, keys.len() as int),
                ..m
            };
            t.allowance(f, s) == if keys.contains(f) && keys.contains(s) {
                rows[keys.index_of(f)][keys.index_of(s)] as int
            } else {
                m.allowance(f, s)
            }
        }),
{
    let n = keys.len() as int;
    if keys.contains(f) && keys.contains(s) {
        let i = keys.index_of(f);
        let j = keys.index_of(s);
        lemma_rows_written_read_back(m.allowances, keys, rows, n);
        assert(allowance_rows_written(m.allowances, keys, rows, n)[(keys[i], keys[j])] == rows[i][j]);
        assert(allowance_rows_written(m.allowances, keys, rows, n).contains_key((keys[i], keys[j])));
    } else {
        lemma_rows_written_outside(m.allowances, keys, rows, n, (f, s));
    }
}

/// Law: once the allowances the contract reports have been taken over, the
/// allowance part of the state check agrees with those same reports, as long
/// as no account occurs twice.
pub proof fn lemma_refreshed_allowances_agree(
    s: TokenModel,
    t: TokenModel,
    keys: Seq<Seq<u8>>,
    rows: Seq<Seq<i128>>,
)
    requires
        keys.no_duplicates(),
        is_square(rows, keys.len() as int),
        t.allowances == allowance_rows_written(s.allowances, keys, rows, keys.len() as int),
    ensures
        allowances_ok(t, keys, rows),
{
    lemma_rows_written_read_back(s.allowances, keys, rows, keys.len() as int);
    assert forall|i: int, j: int| 0 <= i < keys.len() && 0 <= j < keys.len() implies #[trigger] allowance_ok(
        t,
        keys,
        rows,
        i,
        j,
    ) by {
        assert(t.allowances.contains_key((keys[i], keys[j])));
    }
}

impl ContractState {
    /// Takes over the allowances the contract reports for every pair of
    /// accounts, `observed[from][spender]`, row by row. Fails with
    /// `NegativeAllowance` at the first negative one.
    pub fn refresh_allowances(&mut self, accounts: &Vec<Vec<u8>>, observed: &Vec<Vec<i128>>) -> (r:
        Result<(), Violation>)
        requires
            old(self).wf(),
            is_square(matrix_rows(observed@), accounts@.len() as int),
        ensures
            final(self).wf(),
            r is Ok <==> matrix_nonnegative(matrix_rows(observed@), accounts@.len() as int),
            r is Err ==> r == Err::<(), Violation>(Violation::NegativeAllowance),
            r is Ok ==> final(self)@ == (TokenModel {
                allowances: allowance_rows_written(
                    old(self)@.allowances,
                    account_keys(accounts@),
                    matrix_rows(observed@),
                    accounts@.len() as int,
                ),
                ..old(self)@
            }),
            r is Ok ==> final(self).recorded_supply() == old(self).recorded_supply(),
    {
        let ghost keys = account_keys(accounts@);
        let ghost rows = matrix_rows(observed@);
        let n = accounts.len();
        let mut a: usize = 0;
        while a < n
            invariant
                n == accounts@.len(),
                n == keys.len(),
                keys == account_keys(accounts@),
                rows == matrix_rows(observed@),
                is_square(rows, n as int),
                a <= n,
                self.wf(),
                self@ == (TokenModel {
                    allowances: allowance_rows_written(old(self)@.allowances, keys, rows, a as int),
                    ..old(self)@
                }),
                self.recorded_supply() == old(self).recorded_supply(),
                forall|x: int, y: int| 0 <= x < a && 0 <= y < n ==> #[trigger] rows[x][y] >= 0,
            decreases n - a,
        {
            let mut b: usize = 0;
            while b < n
                invariant
                    n == accounts@.len(),
                    n == keys.len(),
                    keys == account_keys(accounts@),
                    rows == matrix_rows(observed@),
                    is_square(rows, n as int),
                    a < n,
                    b <= n,
                    self.wf(),
                    self@ == (TokenModel {
                        allowances: allowance_row_written(
                            allowance_rows_written(old(self)@.allowances, keys, rows, a as int),
                            keys,
                            rows,
                            a as int,
                            b as int,
                        ),
                        ..old(self)@
                    }),
                    self.recorded_supply() == old(self).recorded_supply(),
                    forall|x: int, y: int|
                        0 <= x < n && 0 <= y < n && (x < a || (x == a && y < b)) ==> #[trigger] rows[x][y]
                            >= 0,
                    decreases n - b,
            {
                assert(rows[a as int] == observed@[a as int]@);
                let amount = observed[a][b];
                if amount < 0 {
                    assert(!matrix_nonnegative(rows, n as int)) by {
                        assert(rows[a as int][b as int] < 0);
                    }
                    return Err(Violation::NegativeAllowance);
                }
                assert(keys[a as int] == accounts@[a as int]@);
                assert(keys[b as int] == accounts@[b as int]@);
                self.set_allowance(&accounts[a], &accounts[b], amount);
                b = b + 1;
            }
            a = a + 1;
        }
        Ok(())
    }
}

/// Law: where no account occurs twice, every recorded balance belongs to one
/// of the accounts, and minted minus burned equals the recorded balances,
/// reported balances that all agree with the expected ones also pass the
/// supply check.
pub proof fn lemma_supply_check_follows(s: &ContractState, keys: Seq<Seq<u8>>, obs: Seq<i128>)
    requires
        s.wf(),
        s.supply_consistent(),
        keys.no_duplicates(),
        forall|k: Seq<u8>| #[trigger] s@.balances.contains_key(k) ==> keys.contains(k),
        obs.len() == keys.len(),
        balances_ok(s@, keys, obs),
    ensures
        supply_ok(s@, obs),
{
    s.lemma_recorded_supply_over_accounts(keys);
    let f = |k: Seq<u8>| s@.balance(k);
    assert forall|i: int| 0 <= i < keys.len() implies obs[i] == #[trigger] f(keys[i]) by {
        assert(balance_ok(s@, keys, obs, i));
    }
    lemma_amounts_sum_by_keys(obs, keys, f);
}

impl ContractState {
    /// Checks the expected state against what the contract reports, in this
    /// order: name, symbol, decimals; then each account's balance, which must
    /// agree and not be negative; then the allowance of each pair of
    /// accounts, in row-major order; then that minted minus burned equals the
    /// sum of the reported balances. Returns the first disagreement found.
    pub fn check_state(&self, accounts: &Vec<Vec<u8>>, observed: &Observation) -> (r: Result<
        (),
        Violation,
    >)
        requires
            self.wf(),
            observed.shaped_for(accounts@.len() as int),
        ensures
            r == check_result(self@, account_keys(accounts@), *observed),
            ({
                let m = self@;
                let keys = account_keys(accounts@);
                let obs = observed.balances@;
                let rows = matrix_rows(observed.allowances@);
                &&& r is Ok <==> (metadata_ok(m, *observed) && balances_ok(m, keys, obs)
                    && allowances_ok(m, keys, rows) && supply_ok(m, obs))
                &&& r == Err::<(), Violation>(Violation::NameMismatch) <==> m.name
                    != observed.name@
                &&& r == Err::<(), Violation>(Violation::SymbolMismatch) <==> (m.name
                    == observed.name@ && m.symbol != observed.symbol@)
                &&& r == Err::<(), Violation>(Violation::DecimalsMismatch) <==> (m.name
                    == observed.name@ && m.symbol == observed.symbol@ && m.decimals
                    != observed.decimals)
                &&& r matches Err(Violation::BalanceMismatch { account }) ==> {
                    &&& metadata_ok(m, *observed)
                    &&& account < keys.len()
                    &&& forall|k: int| 0 <= k < account ==> #[trigger] balance_ok(m, keys, obs, k)
                    &&& m.balance(keys[account as int]) != obs[account as int]
                }
                &&& r matches Err(Violation::NegativeObservedBalance { account }) ==> {
                    &&& metadata_ok(m, *observed)
                    &&& account < keys.len()
                    &&& forall|k: int| 0 <= k < account ==> #[trigger] balance_ok(m, keys, obs, k)
                    &&& m.balance(keys[account as int]) == obs[account as int]
                    &&& obs[account as int] < 0
                }
                &&& r matches Err(Violation::AllowanceMismatch { from, spender }) ==> {
                    &&& metadata_ok(m, *observed)
                    &&& balances_ok(m, keys, obs)
                    &&& from < keys.len()
                    &&& spender < keys.len()
                    &&& allowances_ok_before(m, keys, rows, from as int, spender as int)
                    &&& !allowance_ok(m, keys, rows, from as int, spender as int)
                }
                &&& r == Err::<(), Violation>(Violation::SupplyMismatch) <==> (metadata_ok(
                    m,
                    *observed,
                ) && balances_ok(m, keys, obs) && allowances_ok(m, keys, rows) && !supply_ok(
                    m,
                    obs,
                ))
                &&& r matches Err(v) ==> (v is NameMismatch || v is SymbolMismatch
                    || v is DecimalsMismatch || v is BalanceMismatch
                    || v is NegativeObservedBalance || v is AllowanceMismatch
                    || v is SupplyMismatch)
            }),
    {
        let ghost m = self@;
        let ghost keys = account_keys(accounts@);
        let ghost obs = observed.balances@;
        let ghost rows = matrix_rows(observed.allowances@);
        let n = accounts.len();
        if !bytes_equal(self.name(), &observed.name) {
            return Err(Violation::NameMismatch);
        }
        if !bytes_equal(self.symbol(), &observed.symbol) {
            return Err(Violation::SymbolMismatch);
        }
        if self.decimals() != observed.decimals {
            return Err(Violation::DecimalsMismatch);
        }
        let mut i: usize = 0;
        while i < n
            invariant
                n == accounts@.len(),
                n == keys.len(),
                n == obs.len(),
                keys == account_keys(accounts@),
                obs == observed.balances@,
                m == self@,
                self.wf(),
                metadata_ok(m, *observed),
                i <= n,
                forall|k: int| 0 <= k < i ==> #[trigger] balance_ok(m, keys, obs, k),
                balances_result(m, keys, obs, 0) == balances_result(m, keys, obs, i as int),
            decreases n - i,
        {
            let expected = self.get_balance(&accounts[i]);
            let reported = observed.balances[i];
            assert(keys[i as int] == accounts@[i as int]@);
            if expected != reported {
                assert(!balance_ok(m, keys, obs, i as int));
                return Err(Violation::BalanceMismatch { account: i });
            }
            if reported < 0 {
                assert(!balance_ok(m, keys, obs, i as int));
                return Err(Violation::NegativeObservedBalance { account: i });
            }
            i = i + 1;
        }
        assert(balances_result(m, keys, obs, n as int) == Ok::<(), Violation>(()));
        let mut a: usize = 0;
        while a < n
            invariant
                n == accounts@.len(),
                n == keys.len(),
                is_square(rows, n as int),
                rows == matrix_rows(observed.allowances@),
                keys == account_keys(accounts@),
                m == self@,
                self.wf(),
                metadata_ok(m, *observed),
                balances_ok(m, keys, obs),
                obs == observed.balances@,
                a <= n,
                allowances_ok_before(m, keys, rows, a as int, 0),
                balances_result(m, keys, obs, 0) == Ok::<(), Violation>(()),
                allowances_result(m, keys, rows, 0) == allowances_result(m, keys, rows, a as int),
            decreases n - a,
        {
            let mut b: usize = 0;
            while b < n
                invariant
                    n == accounts@.len(),
                    n == keys.len(),
                    is_square(rows, n as int),
                    rows == matrix_rows(observed.allowances@),
                    keys == account_keys(accounts@),
                    m == self@,
                    self.wf(),
                    metadata_ok(m, *observed),
                    balances_ok(m, keys, obs),
                    obs == observed.balances@,
                    a < n,
                    b <= n,
                    allowances_ok_before(m, keys, rows, a as int, b as int),
                    balances_result(m, keys, obs, 0) == Ok::<(), Violation>(()),
                    allowances_result(m, keys, rows, 0) == allowances_result(m, keys, rows, a as int),
                    allowance_row_result(m, keys, rows, a as int, 0) == allowance_row_result(
                        m,
                        keys,
                        rows,
                        a as int,
                        b as int,
                    ),
                decreases n - b,
            {
                let expected = self.get_allowance(&accounts[a], &accounts[b]);
                assert(keys[a as int] == accounts@[a as int]@);
                assert(keys[b as int] == accounts@[b as int]@);
                assert(rows[a as int] == observed.allowances@[a as int]@);
                assert(rows[a as int].len() == n);
                let reported = observed.allowances[a][b];
                if expected != reported {
                    assert(!allowance_ok(m, keys, rows, a as int, b as int));
                    return Err(Violation::AllowanceMismatch { from: a, spender: b });
                }
                b = b + 1;
            }
            assert(allowance_row_result(m, keys, rows, a as int, n as int) == Ok::<(), Violation>(()));
            a = a + 1;
        }
        assert(allowances_result(m, keys, rows, n as int) == Ok::<(), Violation>(()));
        let mut total = bigint_zero();
        let mut k: usize = 0;
        while k < n
            invariant
                n == obs.len(),
                obs == observed.balances@,
                k <= n,
                bigint_value(total) == amounts_sum(obs.take(k as int)),
            decreases n - k,
        {
            let v = bigint_from_i128(observed.balances[k]);
            total = bigint_add(&total, &v);
            assert(obs.take(k + 1).drop_last() =~= obs.take(k as int));
            k = k + 1;
        }
        assert(obs.take(n as int) =~= obs);
        let net = self.net_supply();
        if !bigint_eq(&net, &total) {
            return Err(Violation::SupplyMismatch);
        }
        Ok(())
    }
}

} // verus!
