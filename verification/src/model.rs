//! The expected state of the token contract, as the fuzzer tracks it beside
//! the real contract.
use vstd::prelude::*;
use num_bigint::BigInt;
use crate::bigint::{bigint_value, bigint_zero, bigint_from_i128, bigint_add, bigint_sub};
use crate::table::{AmountTable, copy_bytes, sum_by};

verus! {

/// A finding that stops a fuzzing run: either the contract misbehaved, or the
/// run reached a state the harness refuses to go past.
#[derive(Debug, PartialEq, Eq, Structural, Clone, Copy)]
pub enum Violation {
    /// A call with a negative amount was accepted by the contract.
    NegativeAmountAccepted,
    /// The contract trapped with a WASM `InvalidAction`, an unexpected panic.
    UnexpectedContractPanic,
    /// A successful call returned a value that did not convert to `()`.
    ResultConversionFailed,
    /// A tracked amount left the range of `i128`.
    Overflow,
    /// A tracked balance would become negative.
    NegativeBalance,
    /// A tracked allowance would become negative.
    NegativeAllowance,
    /// The ledger sequence or time would leave its integer range.
    EndOfTime,
    /// Time was asked to advance to a ledger that is not ahead.
    LedgerNotAhead,
    /// The contract's name differs from the tracked one.
    NameMismatch,
    /// The contract's symbol differs from the tracked one.
    SymbolMismatch,
    /// The contract's decimals differ from the tracked ones.
    DecimalsMismatch,
    /// The contract's balance of the account at this index differs.
    BalanceMismatch { account: usize },
    /// The contract reports a negative balance for the account at this index.
    NegativeObservedBalance { account: usize },
    /// The contract's allowance for this pair of account indices differs.
    AllowanceMismatch { from: usize, spender: usize },
    /// Minted minus burned differs from the sum of the contract's balances.
    SupplyMismatch,
}

/// The abstract state of the model: what the contract is expected to hold.
pub struct TokenModel {
    pub name: Seq<u8>,
    pub symbol: Seq<u8>,
    pub decimals: u32,
    pub balances: Map<Seq<u8>, i128>,
    pub allowances: Map<(Seq<u8>, Seq<u8>), i128>,
    pub minted: int,
    pub burned: int,
}

pub open spec fn fits_i128(x: int) -> bool {
    i128::MIN <= x <= i128::MAX
}

impl TokenModel {
    /// The balance of `addr`, zero where none is recorded.
    pub open spec fn balance(self, addr: Seq<u8>) -> int {
        if self.balances.contains_key(addr) {
            self.balances[addr] as int
        } else {
            0
        }
    }

    /// The allowance of `spender` over `from`'s tokens, zero where none is recorded.
    pub open spec fn allowance(self, from: Seq<u8>, spender: Seq<u8>) -> int {
        if self.allowances.contains_key((from, spender)) {
            self.allowances[(from, spender)] as int
        } else {
            0
        }
    }

    /// The model after `amount` is added to `addr`'s balance, or the finding
    /// that refuses it.
    pub open spec fn credited(self, addr: Seq<u8>, amount: int) -> Result<TokenModel, Violation> {
        let nb = self.balance(addr) + amount;
        if !fits_i128(nb) {
            Err(Violation::Overflow)
        } else if nb < 0 {
            Err(Violation::NegativeBalance)
        } else {
            Ok(TokenModel { balances: self.balances.insert(addr, nb as i128), ..self })
        }
    }

    /// The model after `amount` is taken from `addr`'s balance, or the finding
    /// that refuses it.
    pub open spec fn debited(self, addr: Seq<u8>, amount: int) -> Result<TokenModel, Violation> {
        let nb = self.balance(addr) - amount;
        if !fits_i128(nb) {
            Err(Violation::Overflow)
        } else if nb < 0 {
            Err(Violation::NegativeBalance)
        } else {
            Ok(TokenModel { balances: self.balances.insert(addr, nb as i128), ..self })
        }
    }

    /// The model after the allowance of `spender` over `from` is set to `amount`.
    pub open spec fn allowance_set(self, from: Seq<u8>, spender: Seq<u8>, amount: i128) -> Result<
        TokenModel,
        Violation,
    > {
        if amount < 0 {
            Err(Violation::NegativeAllowance)
        } else {
            Ok(
                TokenModel {
                    allowances: self.allowances.insert((from, spender), amount),
                    ..self
                },
            )
        }
    }

    /// The model after the allowance of `spender` over `from` is reduced by `amount`.
    pub open spec fn allowance_reduced(self, from: Seq<u8>, spender: Seq<u8>, amount: int) -> Result<
        TokenModel,
        Violation,
    > {
        let na = self.allowance(from, spender) - amount;
        if !fits_i128(na) {
            Err(Violation::Overflow)
        } else {
            self.allowance_set(from, spender, na as i128)
        }
    }

    /// No recorded balance or allowance is negative.
    pub open spec fn amounts_nonnegative(self) -> bool {
        &&& forall|a: Seq<u8>| #[trigger] self.balances.contains_key(a) ==> self.balances[a] >= 0
        &&& forall|p: (Seq<u8>, Seq<u8>)| #[trigger] self.allowances.contains_key(p)
            ==> self.allowances[p] >= 0
    }
}

/// Every way the model changes a balance or an allowance keeps all of them
/// at least zero.
pub proof fn lemma_updates_keep_amounts_nonnegative(
    s: TokenModel,
    a: Seq<u8>,
    b: Seq<u8>,
    amount: int,
)
    requires
        s.amounts_nonnegative(),
    ensures
        s.credited(a, amount) matches Ok(t) ==> t.amounts_nonnegative(),
        s.debited(a, amount) matches Ok(t) ==> t.amounts_nonnegative(),
        fits_i128(amount) ==> (s.allowance_set(a, b, amount as i128) matches Ok(t)
            ==> t.amounts_nonnegative()),
        s.allowance_reduced(a, b, amount) matches Ok(t) ==> t.amounts_nonnegative(),
{
}

/// Law: a balance reads back what a credit or a debit wrote, and no other
/// balance changes.
pub proof fn lemma_balance_read_after_write(s: TokenModel, a: Seq<u8>, other: Seq<u8>, amount: int)
    requires
        other != a,
    ensures
        s.credited(a, amount) matches Ok(t) ==> t.balance(a) == s.balance(a) + amount
            && t.balance(other) == s.balance(other),
        s.debited(a, amount) matches Ok(t) ==> t.balance(a) == s.balance(a) - amount
            && t.balance(other) == s.balance(other),
{
}

/// Law: an allowance reads back what was set, and no other allowance
/// changes.
pub proof fn lemma_allowance_read_after_write(
    s: TokenModel,
    from: Seq<u8>,
    spender: Seq<u8>,
    amount: i128,
    other_from: Seq<u8>,
    other_spender: Seq<u8>,
)
    requires
        (other_from, other_spender) != (from, spender),
    ensures
        s.allowance_set(from, spender, amount) matches Ok(t) ==> t.allowance(from, spender)
            == amount && t.allowance(other_from, other_spender) == s.allowance(
            other_from,
            other_spender,
        ),
{
}

/// Law: debiting what was just credited gives every account back its balance.
pub proof fn lemma_credit_then_debit_restores(s: TokenModel, a: Seq<u8>, amount: int, b: Seq<u8>)
    requires
        s.amounts_nonnegative(),
    ensures
        s.credited(a, amount) matches Ok(t) ==> (t.debited(a, amount) matches Ok(u) && u.balance(b)
            == s.balance(b)),
{
}

/// Law: on any well-formed state, taking away what was just added gives
/// every account back its balance.
pub proof fn lemma_sub_balance_undoes_add_balance(
    s: &ContractState,
    a: Seq<u8>,
    amount: int,
    b: Seq<u8>,
)
    requires
        s.wf(),
    ensures
        s@.credited(a, amount) matches Ok(t) ==> (t.debited(a, amount) matches Ok(u)
            && u.balance(b) == s@.balance(b)),
{
    s.lemma_wf_amounts_nonnegative();
    lemma_credit_then_debit_restores(s@, a, amount, b);
}

/// Law: on any well-formed state, adding `x` and then `y` to an account
/// records the same balances as adding `x + y` at once.
pub proof fn lemma_add_balance_merges(s: &ContractState, a: Seq<u8>, x: int, y: int)
    requires
        s.wf(),
        x >= 0,
        y >= 0,
        s@.balance(a) + x + y <= i128::MAX,
    ensures
        s@.credited(a, x) matches Ok(t) && t.credited(a, y) matches Ok(u) && s@.credited(
            a,
            x + y,
        ) matches Ok(v) && u.balances == v.balances,
{
    s.lemma_wf_amounts_nonnegative();
    let t = s@.credited(a, x).unwrap();
    let u = t.credited(a, y).unwrap();
    let v = s@.credited(a, x + y).unwrap();
    assert(u.balances =~= v.balances);
}

/// Law: on any well-formed state, adding to two different accounts records
/// the same balances in either order.
pub proof fn lemma_add_balance_commutes(s: &ContractState, a: Seq<u8>, x: int, c: Seq<u8>, y: int)
    requires
        s.wf(),
        a != c,
        x >= 0,
        y >= 0,
        s@.balance(a) + x <= i128::MAX,
        s@.balance(c) + y <= i128::MAX,
    ensures
        s@.credited(a, x) matches Ok(t) && t.credited(c, y) matches Ok(u) && s@.credited(c, y)
            matches Ok(t2) && t2.credited(a, x) matches Ok(u2) && u.balances == u2.balances,
{
    s.lemma_wf_amounts_nonnegative();
    let t = s@.credited(a, x).unwrap();
    let u = t.credited(c, y).unwrap();
    let t2 = s@.credited(c, y).unwrap();
    let u2 = t2.credited(a, x).unwrap();
    assert(u.balances =~= u2.balances);
}

/// The state the fuzzer expects the token contract to be in.
pub struct ContractState {
    name: Vec<u8>,
    symbol: Vec<u8>,
    decimals: u32,
    balances: AmountTable<Vec<u8>>,
    allowances: AmountTable<(Vec<u8>, Vec<u8>)>,
    sum_of_mints: BigInt,
    sum_of_burns: BigInt,
}

impl View for ContractState {
    type V = TokenModel;

    closed spec fn view(&self) -> TokenModel {
        TokenModel {
            name: self.name@,
            symbol: self.symbol@,
            decimals: self.decimals,
            balances: self.balances@,
            allowances: self.allowances@,
            minted: bigint_value(self.sum_of_mints),
            burned: bigint_value(self.sum_of_burns),
        }
    }
}

impl ContractState {
    /// The internal tables are well formed, and no balance or allowance is
    /// negative.
    pub closed spec fn wf(&self) -> bool {
        &&& self.balances.wf()
        &&& self.allowances.wf()
        &&& self@.amounts_nonnegative()
    }

    /// Every well-formed state has only balances and allowances that are at
    /// least zero.
    pub proof fn lemma_wf_amounts_nonnegative(&self)
        requires
            self.wf(),
        ensures
            self@.amounts_nonnegative(),
    {
    }

    /// The sum of all recorded balances, each account counted once.
    pub closed spec fn recorded_supply(&self) -> int {
        self.balances.total()
    }

    /// What was minted minus what was burned equals the sum of the recorded
    /// balances.
    pub open spec fn supply_consistent(&self) -> bool {
        self.recorded_supply() == self@.minted - self@.burned
    }

    /// The recorded supply is the sum of the balances of any distinct
    /// accounts that include every account with a recorded balance.
    pub proof fn lemma_recorded_supply_over_accounts(&self, keys: Seq<Seq<u8>>)
        requires
            self.wf(),
            keys.no_duplicates(),
            forall|k: Seq<u8>| #[trigger] self@.balances.contains_key(k) ==> keys.contains(k),
        ensures
            self.recorded_supply() == sum_by(keys, |k: Seq<u8>| self@.balance(k)),
    {
        self.balances.lemma_total_over_keys(keys);
        assert((|k: Seq<u8>| self.balances.amount_of(k)) =~= (|k: Seq<u8>| self@.balance(k)));
    }

    /// An empty state: no name, symbol, balances or allowances, and nothing
    /// minted or burned.
    pub fn init() -> (r: ContractState)
        ensures
            r.wf(),
            r@ == (TokenModel {
                name: Seq::empty(),
                symbol: Seq::empty(),
                decimals: 0,
                balances: Map::empty(),
                allowances: Map::empty(),
                minted: 0,
                burned: 0,
            }),
            r.supply_consistent(),
    {
        let r = ContractState {
            name: Vec::new(),
            symbol: Vec::new(),
            decimals: 0,
            balances: AmountTable::new(),
            allowances: AmountTable::new(),
            sum_of_mints: bigint_zero(),
            sum_of_burns: bigint_zero(),
        };
        assert(r@.name =~= Seq::<u8>::empty());
        assert(r@.symbol =~= Seq::<u8>::empty());
        r
    }

    /// The tracked balance of `addr`, zero where none is recorded.
    pub fn get_balance(&self, addr: &Vec<u8>) -> (r: i128)
        requires
            self.wf(),
        ensures
            r == self@.balance(addr@),
    {
        self.balances.get_or_zero(addr)
    }

    /// The tracked allowance of `spender` over `from`'s tokens, zero where
    /// none is recorded.
    pub fn get_allowance(&self, from: &Vec<u8>, spender: &Vec<u8>) -> (r: i128)
        requires
            self.wf(),
        ensures
            r == self@.allowance(from@, spender@),
    {
        let key = (copy_bytes(from), copy_bytes(spender));
        self.allowances.get_or_zero(&key)
    }

    /// Takes `amount` from the balance of `addr`.
    pub fn sub_balance(&mut self, addr: &Vec<u8>, amount: i128)
        requires
            old(self).wf(),
            fits_i128(old(self)@.balance(addr@) - amount),
            old(self)@.balance(addr@) - amount >= 0,
        ensures
            final(self).wf(),
            old(self)@.debited(addr@, amount as int) == Ok::<TokenModel, Violation>(final(self)@),
            final(self).recorded_supply() == old(self).recorded_supply() - amount,
    {
        let balance = self.get_balance(addr);
        let new_balance = balance - amount;
        proof {
            lemma_updates_keep_amounts_nonnegative(old(self)@, addr@, addr@, amount as int);
        }
        self.balances.set(addr, new_balance);
        assert(self@ =~= old(self)@.debited(addr@, amount as int).unwrap());
    }

    /// Adds `amount` to the balance of `addr`.
    pub fn add_balance(&mut self, addr: &Vec<u8>, amount: i128)
        requires
            old(self).wf(),
            fits_i128(old(self)@.balance(addr@) + amount),
            old(self)@.balance(addr@) + amount >= 0,
        ensures
            final(self).wf(),
            old(self)@.credited(addr@, amount as int) == Ok::<TokenModel, Violation>(final(self)@),
            final(self).recorded_supply() == old(self).recorded_supply() + amount,
    {
        let balance = self.get_balance(addr);
        let new_balance = balance + amount;
        proof {
            lemma_updates_keep_amounts_nonnegative(old(self)@, addr@, addr@, amount as int);
        }
        self.balances.set(addr, new_balance);
        assert(self@ =~= old(self)@.credited(addr@, amount as int).unwrap());
    }

    /// Records `amount` as the allowance of `spender` over `from`'s tokens.
    pub fn set_allowance(&mut self, from: &Vec<u8>, spender: &Vec<u8>, amount: i128)
        requires
            old(self).wf(),
            amount >= 0,
        ensures
            final(self).wf(),
            old(self)@.allowance_set(from@, spender@, amount) == Ok::<TokenModel, Violation>(
                final(self)@,
            ),
            final(self).recorded_supply() == old(self).recorded_supply(),
    {
        let key = (copy_bytes(from), copy_bytes(spender));
        proof {
            lemma_updates_keep_amounts_nonnegative(old(self)@, from@, spender@, amount as int);
        }
        self.allowances.set(&key, amount);
        assert(self@ =~= old(self)@.allowance_set(from@, spender@, amount).unwrap());
    }

    /// What was minted minus what was burned.
    pub fn net_supply(&self) -> (r: BigInt)
        ensures
            bigint_value(r) == self@.minted - self@.burned,
    {
        bigint_sub(&self.sum_of_mints, &self.sum_of_burns)
    }

    /// Records the name, symbol and decimals that the contract reports.
    pub fn observe_metadata(&mut self, name: Vec<u8>, symbol: Vec<u8>, decimals: u32)
        requires
            old(self).wf(),
        ensures
            final(self).wf(),
            final(self)@ == (TokenModel { name: name@, symbol: symbol@, decimals, ..old(self)@ }),
            final(self).recorded_supply() == old(self).recorded_supply(),
    {
        self.name = name;
        self.symbol = symbol;
        self.decimals = decimals;
    }

    /// The tracked name.
    pub fn name(&self) -> (r: &Vec<u8>)
        ensures
            r@ == self@.name,
    {
        &self.name
    }

    /// The tracked symbol.
    pub fn symbol(&self) -> (r: &Vec<u8>)
        ensures
            r@ == self@.symbol,
    {
        &self.symbol
    }

    /// The tracked decimals.
    pub fn decimals(&self) -> (r: u32)
        ensures
            r == self@.decimals,
    {
        self.decimals
    }

    /// The sum of all mints.
    pub fn sum_of_mints(&self) -> (r: &BigInt)
        ensures
            bigint_value(*r) == self@.minted,
    {
        &self.sum_of_mints
    }

    /// The sum of all burns.
    pub fn sum_of_burns(&self) -> (r: &BigInt)
        ensures
            bigint_value(*r) == self@.burned,
    {
        &self.sum_of_burns
    }

    /// Adds `amount` to what was minted.
    pub(crate) fn record_mint(&mut self, amount: i128)
        requires
            old(self).wf(),
        ensures
            final(self).wf(),
            final(self)@ == (TokenModel { minted: old(self)@.minted + amount, ..old(self)@ }),
            final(self).recorded_supply() == old(self).recorded_supply(),
    {
        let minted = bigint_from_i128(amount);
        self.sum_of_mints = bigint_add(&self.sum_of_mints, &minted);
        assert(self@.balances == old(self)@.balances);
        assert(self@.allowances == old(self)@.allowances);
    }

    /// Adds `amount` to what was burned.
    pub(crate) fn record_burn(&mut self, amount: i128)
        requires
            old(self).wf(),
        ensures
            final(self).wf(),
            final(self)@ == (TokenModel { burned: old(self)@.burned + amount, ..old(self)@ }),
            final(self).recorded_supply() == old(self).recorded_supply(),
    {
        let burned = bigint_from_i128(amount);
        self.sum_of_burns = bigint_add(&self.sum_of_burns, &burned);
        assert(self@.balances == old(self)@.balances);
        assert(self@.allowances == old(self)@.allowances);
    }

    /// Reduces the allowance of `spender` over `from`'s tokens by `amount`.
    pub fn sub_allowance(&mut self, from: &Vec<u8>, spender: &Vec<u8>, amount: i128)
        requires
            old(self).wf(),
            fits_i128(old(self)@.allowance(from@, spender@) - amount),
            old(self)@.allowance(from@, spender@) - amount >= 0,
        ensures
            final(self).wf(),
            old(self)@.allowance_reduced(from@, spender@, amount as int) == Ok::<
                TokenModel,
                Violation,
            >(final(self)@),
            final(self).recorded_supply() == old(self).recorded_supply(),
    {
        let allowance = self.get_allowance(from, spender);
        let new_allowance = allowance - amount;
        self.set_allowance(from, spender, new_allowance);
    }
}

} // verus!
