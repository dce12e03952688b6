//! The fuzzer's commands and how the expected state follows each call made
//! to the token contract.
use vstd::prelude::*;
use crate::model::{ContractState, TokenModel, Violation, lemma_updates_keep_amounts_nonnegative};

verus! {

/// The error type of a WASM VM failure (`ScErrorType::WasmVm`).
pub const WASM_VM_ERROR_TYPE: u32 = 1;

/// The error code of an invalid action (`ScErrorCode::InvalidAction`), which a
/// contract that panics reports.
pub const INVALID_ACTION_ERROR_CODE: u32 = 6;

/// One step of a fuzzing run. Accounts are given by their index in the run's
/// list of accounts.
#[derive(Debug, PartialEq, Eq, Structural, Clone, Copy)]
pub enum Command {
    Mint { to_account_index: usize, amount: i128 },
    Approve {
        from_account_index: usize,
        spender_account_index: usize,
        amount: i128,
        expiration_ledger: u32,
    },
    TransferFrom {
        spender_account_index: usize,
        from_account_index: usize,
        to_account_index: usize,
        amount: i128,
    },
    Transfer { from_account_index: usize, to_account_index: usize, amount: i128 },
    BurnFrom { spender_account_index: usize, from_account_index: usize, amount: i128 },
    Burn { from_account_index: usize, amount: i128 },
    AdvanceLedgers { ledgers: u32 },
}

/// What a `try_` call into the token contract came back with.
#[derive(Debug, PartialEq, Eq, Structural, Clone, Copy)]
pub enum CallOutcome {
    /// The call returned, and its value converted to `()`.
    Succeeded,
    /// The call returned a value that did not convert to `()`.
    ConversionFailed,
    /// The call failed with a host error of this type and code.
    ContractFailed { error_type: u32, error_code: u32 },
    /// The call failed with an error that is not a host error.
    InvokeFailed,
}

impl CallOutcome {
    /// The call itself returned (its result was `Ok`).
    pub open spec fn call_returned(self) -> bool {
        self is Succeeded || self is ConversionFailed
    }

    /// The contract trapped with a WASM `InvalidAction`.
    pub open spec fn unexpected_panic(self) -> bool {
        self matches CallOutcome::ContractFailed { error_type, error_code } && error_type
            == WASM_VM_ERROR_TYPE && error_code == INVALID_ACTION_ERROR_CODE
    }
}

/// The views of a list of accounts.
pub open spec fn account_keys(accounts: Seq<Vec<u8>>) -> Seq<Seq<u8>> {
    accounts.map_values(|a: Vec<u8>| a@)
}

impl Command {
    /// The amount the command hands to the contract; none for `AdvanceLedgers`.
    pub open spec fn amount_of(self) -> Option<i128> {
        match self {
            Command::Mint { amount, .. } => Some(amount),
            Command::Approve { amount, .. } => Some(amount),
            Command::TransferFrom { amount, .. } => Some(amount),
            Command::Transfer { amount, .. } => Some(amount),
            Command::BurnFrom { amount, .. } => Some(amount),
            Command::Burn { amount, .. } => Some(amount),
            Command::AdvanceLedgers { .. } => None,
        }
    }

    /// Every account index of the command is below `n`.
    pub open spec fn indices_below(self, n: int) -> bool {
        match self {
            Command::Mint { to_account_index, .. } => to_account_index < n,
            Command::Approve { from_account_index, spender_account_index, .. } => {
                from_account_index < n && spender_account_index < n
            },
            Command::TransferFrom {
                spender_account_index,
                from_account_index,
                to_account_index,
                ..
            } => spender_account_index < n && from_account_index < n && to_account_index < n,
            Command::Transfer { from_account_index, to_account_index, .. } => {
                from_account_index < n && to_account_index < n
            },
            Command::BurnFrom { spender_account_index, from_account_index, .. } => {
                spender_account_index < n && from_account_index < n
            },
            Command::Burn { from_account_index, .. } => from_account_index < n,
            Command::AdvanceLedgers { .. } => true,
        }
    }
}

impl Command {
    /// Whether every account index of the command is below `n`.
    pub fn account_indices_below(&self, n: usize) -> (r: bool)
        ensures
            r == self.indices_below(n as int),
    {
        match self {
            Command::Mint { to_account_index, .. } => *to_account_index < n,
            Command::Approve { from_account_index, spender_account_index, .. } => {
                *from_account_index < n && *spender_account_index < n
            },
            Command::TransferFrom {
                spender_account_index,
                from_account_index,
                to_account_index,
                ..
            } => *spender_account_index < n && *from_account_index < n && *to_account_index < n,
            Command::Transfer { from_account_index, to_account_index, .. } => {
                *from_account_index < n && *to_account_index < n
            },
            Command::BurnFrom { spender_account_index, from_account_index, .. } => {
                *spender_account_index < n && *from_account_index < n
            },
            Command::Burn { from_account_index, .. } => *from_account_index < n,
            Command::AdvanceLedgers { .. } => true,
        }
    }
}

/// How the expected state follows a call of `command` that succeeded.
pub open spec fn success_effect(s: TokenModel, command: Command, accounts: Seq<Seq<u8>>) -> Result<
    TokenModel,
    Violation,
> {
    match command {
        Command::Mint { to_account_index, amount } => match s.credited(
            accounts[to_account_index as int],
            amount as int,
        ) {
            Ok(t) => Ok(TokenModel { minted: t.minted + amount, ..t }),
            Err(e) => Err(e),
        },
        Command::Approve { from_account_index, spender_account_index, amount, .. } => s.allowance_set(
            accounts[from_account_index as int],
            accounts[spender_account_index as int],
            amount,
        ),
        Command::TransferFrom {
            spender_account_index,
            from_account_index,
            to_account_index,
            amount,
        } => match s.debited(accounts[from_account_index as int], amount as int) {
            Ok(t) => match t.credited(accounts[to_account_index as int], amount as int) {
                Ok(u) => u.allowance_reduced(
                    accounts[from_account_index as int],
                    accounts[spender_account_index as int],
                    amount as int,
                ),
                Err(e) => Err(e),
            },
            Err(e) => Err(e),
        },
        Command::Transfer { from_account_index, to_account_index, amount } => match s.debited(
            accounts[from_account_index as int],
            amount as int,
        ) {
            Ok(t) => t.credited(accounts[to_account_index as int], amount as int),
            Err(e) => Err(e),
        },
        Command::BurnFrom { spender_account_index, from_account_index, amount } => match s.debited(
            accounts[from_account_index as int],
            amount as int,
        ) {
            Ok(t) => match t.allowance_reduced(
                accounts[from_account_index as int],
                accounts[spender_account_index as int],
                amount as int,
            ) {
                Ok(u) => Ok(TokenModel { burned: u.burned + amount, ..u }),
                Err(e) => Err(e),
            },
            Err(e) => Err(e),
        },
        Command::Burn { from_account_index, amount } => match s.debited(
            accounts[from_account_index as int],
            amount as int,
        ) {
            Ok(t) => Ok(TokenModel { burned: t.burned + amount, ..t }),
            Err(e) => Err(e),
        },
        Command::AdvanceLedgers { .. } => Ok(s),
    }
}

/// How the expected state follows a command whose call came back with
/// `outcome`, or the finding that stops the run.
pub open spec fn command_effect(
    s: TokenModel,
    command: Command,
    accounts: Seq<Seq<u8>>,
    outcome: CallOutcome,
) -> Result<TokenModel, Violation> {
    match command.amount_of() {
        None => Ok(s),
        Some(amount) => if amount < 0 && outcome.call_returned() {
            Err(Violation::NegativeAmountAccepted)
        } else if outcome.unexpected_panic() {
            Err(Violation::UnexpectedContractPanic)
        } else {
            match outcome {
                CallOutcome::Succeeded => success_effect(s, command, accounts),
                CallOutcome::ConversionFailed => Err(Violation::ResultConversionFailed),
                _ => Ok(s),
            }
        },
    }
}

/// Law: no command lets a tracked balance or allowance become negative.
pub proof fn lemma_command_keeps_amounts_nonnegative(
    s: TokenModel,
    command: Command,
    accounts: Seq<Seq<u8>>,
    outcome: CallOutcome,
)
    requires
        s.amounts_nonnegative(),
        command.indices_below(accounts.len() as int),
    ensures
        command_effect(s, command, accounts, outcome) matches Ok(t) ==> t.amounts_nonnegative(),
{
    match command {
        Command::Mint { to_account_index, amount } => {
            lemma_updates_keep_amounts_nonnegative(s, accounts[to_account_index as int], accounts[to_account_index as int], amount as int);
        },
        Command::Approve { from_account_index, spender_account_index, amount, .. } => {
            lemma_updates_keep_amounts_nonnegative(s, accounts[from_account_index as int], accounts[spender_account_index as int], amount as int);
        },
        Command::TransferFrom { spender_account_index, from_account_index, to_account_index, amount } => {
            let f = accounts[from_account_index as int];
            lemma_updates_keep_amounts_nonnegative(s, f, accounts[spender_account_index as int], amount as int);
            if let Ok(t) = s.debited(f, amount as int) {
                lemma_updates_keep_amounts_nonnegative(t, accounts[to_account_index as int], f, amount as int);
                if let Ok(u) = t.credited(accounts[to_account_index as int], amount as int) {
                    lemma_updates_keep_amounts_nonnegative(u, f, accounts[spender_account_index as int], amount as int);
                }
            }
        },
        Command::Transfer { from_account_index, to_account_index, amount } => {
            let f = accounts[from_account_index as int];
            lemma_updates_keep_amounts_nonnegative(s, f, f, amount as int);
            if let Ok(t) = s.debited(f, amount as int) {
                lemma_updates_keep_amounts_nonnegative(t, accounts[to_account_index as int], f, amount as int);
            }
        },
        Command::BurnFrom { spender_account_index, from_account_index, amount } => {
            let f = accounts[from_account_index as int];
            lemma_updates_keep_amounts_nonnegative(s, f, accounts[spender_account_index as int], amount as int);
            if let Ok(t) = s.debited(f, amount as int) {
                lemma_updates_keep_amounts_nonnegative(t, f, accounts[spender_account_index as int], amount as int);
            }
        },
        Command::Burn { from_account_index, amount } => {
            lemma_updates_keep_amounts_nonnegative(s, accounts[from_account_index as int], accounts[from_account_index as int], amount as int);
        },
        Command::AdvanceLedgers { .. } => {},
    }
}

/// Every recorded balance belongs to one of the accounts.
pub open spec fn balances_within(s: TokenModel, accounts: Seq<Seq<u8>>) -> bool {
    forall|k: Seq<u8>| #[trigger] s.balances.contains_key(k) ==> accounts.contains(k)
}

/// Law: commands record balances only for the run's accounts.
pub proof fn lemma_command_keeps_balances_within(
    s: TokenModel,
    command: Command,
    accounts: Seq<Seq<u8>>,
    outcome: CallOutcome,
)
    requires
        balances_within(s, accounts),
        command.indices_below(accounts.len() as int),
    ensures
        command_effect(s, command, accounts, outcome) matches Ok(t) ==> balances_within(t, accounts),
{
    match command {
        Command::Mint { to_account_index, .. } => {
            assert(accounts.contains(accounts[to_account_index as int]));
        },
        Command::TransferFrom { from_account_index, to_account_index, .. } => {
            assert(accounts.contains(accounts[from_account_index as int]));
            assert(accounts.contains(accounts[to_account_index as int]));
        },
        Command::Transfer { from_account_index, to_account_index, .. } => {
            assert(accounts.contains(accounts[from_account_index as int]));
            assert(accounts.contains(accounts[to_account_index as int]));
        },
        Command::BurnFrom { from_account_index, .. } => {
            assert(accounts.contains(accounts[from_account_index as int]));
        },
        Command::Burn { from_account_index, .. } => {
            assert(accounts.contains(accounts[from_account_index as int]));
        },
        _ => {},
    }
}

/// Law: a command whose amount is not negative is never flagged as a
/// negative amount that the contract accepted, whatever the outcome.
pub proof fn lemma_nonnegative_amount_never_flagged(
    s: TokenModel,
    command: Command,
    accounts: Seq<Seq<u8>>,
    outcome: CallOutcome,
)
    requires
        command.amount_of() matches Some(amount) ==> amount >= 0,
    ensures
        command_effect(s, command, accounts, outcome) != Err::<TokenModel, Violation>(
            Violation::NegativeAmountAccepted,
        ),
{
}

/// Law: a contract panic (a WASM VM `InvalidAction` error) in answer to any
/// call is flagged, whatever the amount.
pub proof fn lemma_contract_panic_always_flagged(
    s: TokenModel,
    command: Command,
    accounts: Seq<Seq<u8>>,
    outcome: CallOutcome,
)
    requires
        !(command is AdvanceLedgers),
        outcome == (CallOutcome::ContractFailed {
            error_type: WASM_VM_ERROR_TYPE,
            error_code: INVALID_ACTION_ERROR_CODE,
        }),
    ensures
        command_effect(s, command, accounts, outcome) == Err::<TokenModel, Violation>(
            Violation::UnexpectedContractPanic,
        ),
{
}

/// Law: a call with a negative amount that the contract refused, without
/// panicking, is fine and changes nothing.
pub proof fn lemma_refused_negative_amount_is_fine(
    s: TokenModel,
    command: Command,
    accounts: Seq<Seq<u8>>,
    outcome: CallOutcome,
)
    requires
        command.amount_of() matches Some(amount) && amount < 0,
        !outcome.call_returned(),
        !outcome.unexpected_panic(),
    ensures
        command_effect(s, command, accounts, outcome) == Ok::<TokenModel, Violation>(s),
{
}

/// Law: a call that failed without panicking changes nothing.
pub proof fn lemma_failed_call_changes_nothing(
    s: TokenModel,
    command: Command,
    accounts: Seq<Seq<u8>>,
    outcome: CallOutcome,
)
    requires
        !outcome.call_returned(),
        !outcome.unexpected_panic(),
    ensures
        command_effect(s, command, accounts, outcome) == Ok::<TokenModel, Violation>(s),
{
}

/// Law: a successful mint of an amount that is not negative, and keeps the
/// recipient's balance in range, is accepted; it adds the amount to the
/// recipient's balance and to what was minted, and changes nothing else.
pub proof fn lemma_mint_succeeds(
    s: TokenModel,
    to_account_index: usize,
    amount: i128,
    accounts: Seq<Seq<u8>>,
)
    requires
        s.amounts_nonnegative(),
        to_account_index < accounts.len(),
        amount >= 0,
        s.balance(accounts[to_account_index as int]) + amount <= i128::MAX,
    ensures
        ({
            let to = accounts[to_account_index as int];
            command_effect(
                s,
                Command::Mint { to_account_index, amount },
                accounts,
                CallOutcome::Succeeded,
            ) matches Ok(t) && {
                &&& t.balance(to) == s.balance(to) + amount
                &&& forall|b: Seq<u8>| b != to ==> #[trigger] t.balance(b) == s.balance(b)
                &&& t.minted == s.minted + amount
                &&& t.burned == s.burned
                &&& t.allowances == s.allowances
            }
        }),
{
    let to = accounts[to_account_index as int];
    if s.balances.contains_key(to) {
        assert(s.balances[to] >= 0);
    }
}

/// Law: a successful approval of an amount that is not negative is accepted;
/// afterwards the spender's allowance over the owner is that amount, and no
/// other allowance and no balance changes.
pub proof fn lemma_approve_succeeds(
    s: TokenModel,
    from_account_index: usize,
    spender_account_index: usize,
    amount: i128,
    expiration_ledger: u32,
    accounts: Seq<Seq<u8>>,
)
    requires
        from_account_index < accounts.len(),
        spender_account_index < accounts.len(),
        amount >= 0,
    ensures
        ({
            let from = accounts[from_account_index as int];
            let spender = accounts[spender_account_index as int];
            command_effect(
                s,
                Command::Approve {
                    from_account_index,
                    spender_account_index,
                    amount,
                    expiration_ledger,
                },
                accounts,
                CallOutcome::Succeeded,
            ) matches Ok(t) && {
                &&& t.allowance(from, spender) == amount
                &&& forall|f: Seq<u8>, sp: Seq<u8>|
                    (f, sp) != (from, spender) ==> #[trigger] t.allowance(f, sp) == s.allowance(f, sp)
                &&& t.balances == s.balances
                &&& t.minted == s.minted
                &&& t.burned == s.burned
            }
        }),
{
}

/// Law: a successful transfer by a spender of an amount that is not
/// negative, within the owner's balance and the spender's allowance, and
/// keeping the recipient's balance in range, is accepted; it moves the
/// amount from owner to recipient and lowers the allowance by it.
pub proof fn lemma_transfer_from_succeeds(
    s: TokenModel,
    spender_account_index: usize,
    from_account_index: usize,
    to_account_index: usize,
    amount: i128,
    accounts: Seq<Seq<u8>>,
)
    requires
        s.amounts_nonnegative(),
        spender_account_index < accounts.len(),
        from_account_index < accounts.len(),
        to_account_index < accounts.len(),
        0 <= amount,
        amount <= s.balance(accounts[from_account_index as int]),
        amount <= s.allowance(
            accounts[from_account_index as int],
            accounts[spender_account_index as int],
        ),
        accounts[from_account_index as int] == accounts[to_account_index as int] || s.balance(
            accounts[to_account_index as int],
        ) + amount <= i128::MAX,
    ensures
        ({
            let from = accounts[from_account_index as int];
            let to = accounts[to_account_index as int];
            let spender = accounts[spender_account_index as int];
            command_effect(
                s,
                Command::TransferFrom {
                    spender_account_index,
                    from_account_index,
                    to_account_index,
                    amount,
                },
                accounts,
                CallOutcome::Succeeded,
            ) matches Ok(t) && {
                &&& from != to ==> t.balance(from) == s.balance(from) - amount && t.balance(to)
                    == s.balance(to) + amount
                &&& from == to ==> t.balance(from) == s.balance(from)
                &&& forall|b: Seq<u8>|
                    b != from && b != to ==> #[trigger] t.balance(b) == s.balance(b)
                &&& t.allowance(from, spender) == s.allowance(from, spender) - amount
                &&& forall|f: Seq<u8>, sp: Seq<u8>|
                    (f, sp) != (from, spender) ==> #[trigger] t.allowance(f, sp) == s.allowance(f, sp)
                &&& t.minted == s.minted
                &&& t.burned == s.burned
            }
        }),
{
    let from = accounts[from_account_index as int];
    let spender = accounts[spender_account_index as int];
    if s.balances.contains_key(from) {
        assert(s.balances[from] >= 0);
    }
    if s.allowances.contains_key((from, spender)) {
        assert(s.allowances[(from, spender)] >= 0);
    }
}

/// Law: a successful transfer of an amount that is not negative, within the
/// owner's balance and keeping the recipient's balance in range, is
/// accepted; it moves the amount from owner to recipient.
pub proof fn lemma_transfer_succeeds(
    s: TokenModel,
    from_account_index: usize,
    to_account_index: usize,
    amount: i128,
    accounts: Seq<Seq<u8>>,
)
    requires
        s.amounts_nonnegative(),
        from_account_index < accounts.len(),
        to_account_index < accounts.len(),
        0 <= amount,
        amount <= s.balance(accounts[from_account_index as int]),
        accounts[from_account_index as int] == accounts[to_account_index as int] || s.balance(
            accounts[to_account_index as int],
        ) + amount <= i128::MAX,
    ensures
        ({
            let from = accounts[from_account_index as int];
            let to = accounts[to_account_index as int];
            command_effect(
                s,
                Command::Transfer { from_account_index, to_account_index, amount },
                accounts,
                CallOutcome::Succeeded,
            ) matches Ok(t) && {
                &&& from != to ==> t.balance(from) == s.balance(from) - amount && t.balance(to)
                    == s.balance(to) + amount
                &&& from == to ==> t.balance(from) == s.balance(from)
                &&& forall|b: Seq<u8>|
                    b != from && b != to ==> #[trigger] t.balance(b) == s.balance(b)
                &&& t.allowances == s.allowances
                &&& t.minted == s.minted
                &&& t.burned == s.burned
            }
        }),
{
    let from = accounts[from_account_index as int];
    if s.balances.contains_key(from) {
        assert(s.balances[from] >= 0);
    }
}

/// Law: a successful burn by a spender of an amount that is not negative,
/// within the owner's balance and the spender's allowance, is accepted; it
/// takes the amount from the owner's balance and the allowance and adds it
/// to what was burned.
pub proof fn lemma_burn_from_succeeds(
    s: TokenModel,
    spender_account_index: usize,
    from_account_index: usize,
    amount: i128,
    accounts: Seq<Seq<u8>>,
)
    requires
        s.amounts_nonnegative(),
        spender_account_index < accounts.len(),
        from_account_index < accounts.len(),
        0 <= amount,
        amount <= s.balance(accounts[from_account_index as int]),
        amount <= s.allowance(
            accounts[from_account_index as int],
            accounts[spender_account_index as int],
        ),
    ensures
        ({
            let from = accounts[from_account_index as int];
            let spender = accounts[spender_account_index as int];
            command_effect(
                s,
                Command::BurnFrom { spender_account_index, from_account_index, amount },
                accounts,
                CallOutcome::Succeeded,
            ) matches Ok(t) && {
                &&& t.balance(from) == s.balance(from) - amount
                &&& forall|b: Seq<u8>| b != from ==> #[trigger] t.balance(b) == s.balance(b)
                &&& t.allowance(from, spender) == s.allowance(from, spender) - amount
                &&& forall|f: Seq<u8>, sp: Seq<u8>|
                    (f, sp) != (from, spender) ==> #[trigger] t.allowance(f, sp) == s.allowance(f, sp)
                &&& t.burned == s.burned + amount
                &&& t.minted == s.minted
            }
        }),
{
    let from = accounts[from_account_index as int];
    let spender = accounts[spender_account_index as int];
    if s.balances.contains_key(from) {
        assert(s.balances[from] >= 0);
    }
    if s.allowances.contains_key((from, spender)) {
        assert(s.allowances[(from, spender)] >= 0);
    }
}

/// Law: a successful burn of an amount that is not negative, within the
/// owner's balance, is accepted; it takes the amount from the owner's
/// balance and adds it to what was burned.
pub proof fn lemma_burn_succeeds(
    s: TokenModel,
    from_account_index: usize,
    amount: i128,
    accounts: Seq<Seq<u8>>,
)
    requires
        s.amounts_nonnegative(),
        from_account_index < accounts.len(),
        0 <= amount,
        amount <= s.balance(accounts[from_account_index as int]),
    ensures
        ({
            let from = accounts[from_account_index as int];
            command_effect(
                s,
                Command::Burn { from_account_index, amount },
                accounts,
                CallOutcome::Succeeded,
            ) matches Ok(t) && {
                &&& t.balance(from) == s.balance(from) - amount
                &&& forall|b: Seq<u8>| b != from ==> #[trigger] t.balance(b) == s.balance(b)
                &&& t.allowances == s.allowances
                &&& t.burned == s.burned + amount
                &&& t.minted == s.minted
            }
        }),
{
    let from = accounts[from_account_index as int];
    if s.balances.contains_key(from) {
        assert(s.balances[from] >= 0);
    }
}

/// Law: a successful mint that would take the recipient's balance past
/// `i128::MAX` is flagged as an overflow.
pub proof fn lemma_mint_overflow_refused(
    s: TokenModel,
    to_account_index: usize,
    amount: i128,
    accounts: Seq<Seq<u8>>,
)
    requires
        s.amounts_nonnegative(),
        to_account_index < accounts.len(),
        s.balance(accounts[to_account_index as int]) + amount > i128::MAX,
    ensures
        command_effect(
            s,
            Command::Mint { to_account_index, amount },
            accounts,
            CallOutcome::Succeeded,
        ) == Err::<TokenModel, Violation>(Violation::Overflow),
{
}

/// Law: a successful transfer, transfer by a spender, burn or burn by a
/// spender of more than the owner holds is flagged as a negative balance.
pub proof fn lemma_overdraft_refused(s: TokenModel, command: Command, accounts: Seq<Seq<u8>>)
    requires
        s.amounts_nonnegative(),
        command.indices_below(accounts.len() as int),
        match command {
            Command::TransferFrom { from_account_index, amount, .. } => 0 <= amount && s.balance(
                accounts[from_account_index as int],
            ) < amount,
            Command::Transfer { from_account_index, amount, .. } => 0 <= amount && s.balance(
                accounts[from_account_index as int],
            ) < amount,
            Command::BurnFrom { from_account_index, amount, .. } => 0 <= amount && s.balance(
                accounts[from_account_index as int],
            ) < amount,
            Command::Burn { from_account_index, amount } => 0 <= amount && s.balance(
                accounts[from_account_index as int],
            ) < amount,
            _ => false,
        },
    ensures
        command_effect(s, command, accounts, CallOutcome::Succeeded) == Err::<TokenModel, Violation>(
            Violation::NegativeBalance,
        ),
{
}

/// Law: a successful transfer or burn by a spender of more than the
/// spender's allowance, where the owner holds enough and the recipient's
/// balance stays in range, is flagged as a negative allowance.
pub proof fn lemma_overspend_refused(s: TokenModel, command: Command, accounts: Seq<Seq<u8>>)
    requires
        s.amounts_nonnegative(),
        command.indices_below(accounts.len() as int),
        match command {
            Command::TransferFrom {
                spender_account_index,
                from_account_index,
                to_account_index,
                amount,
            } => {
                &&& 0 <= amount <= s.balance(accounts[from_account_index as int])
                &&& s.allowance(
                    accounts[from_account_index as int],
                    accounts[spender_account_index as int],
                ) < amount
                &&& accounts[from_account_index as int] == accounts[to_account_index as int]
                    || s.balance(accounts[to_account_index as int]) + amount <= i128::MAX
            },
            Command::BurnFrom { spender_account_index, from_account_index, amount } => {
                &&& 0 <= amount <= s.balance(accounts[from_account_index as int])
                &&& s.allowance(
                    accounts[from_account_index as int],
                    accounts[spender_account_index as int],
                ) < amount
            },
            _ => false,
        },
    ensures
        command_effect(s, command, accounts, CallOutcome::Succeeded) == Err::<TokenModel, Violation>(
            Violation::NegativeAllowance,
        ),
{
    match command {
        Command::TransferFrom { spender_account_index, from_account_index, .. } => {
            let from = accounts[from_account_index as int];
            let spender = accounts[spender_account_index as int];
            if s.balances.contains_key(from) {
                assert(s.balances[from] >= 0);
            }
            if s.allowances.contains_key((from, spender)) {
                assert(s.allowances[(from, spender)] >= 0);
            }
        },
        Command::BurnFrom { spender_account_index, from_account_index, .. } => {
            let from = accounts[from_account_index as int];
            let spender = accounts[spender_account_index as int];
            if s.balances.contains_key(from) {
                assert(s.balances[from] >= 0);
            }
            if s.allowances.contains_key((from, spender)) {
                assert(s.allowances[(from, spender)] >= 0);
            }
        },
        _ => {},
    }
}

/// The command's amount is not negative, stays within the balances and
/// allowances it draws on, and keeps the balances it adds to in range.
pub open spec fn within_bounds(s: TokenModel, command: Command, accounts: Seq<Seq<u8>>) -> bool {
    match command {
        Command::Mint { to_account_index, amount } => amount >= 0 && s.balance(
            accounts[to_account_index as int],
        ) + amount <= i128::MAX,
        Command::Approve { amount, .. } => amount >= 0,
        Command::TransferFrom {
            spender_account_index,
            from_account_index,
            to_account_index,
            amount,
        } => {
            &&& 0 <= amount <= s.balance(accounts[from_account_index as int])
            &&& amount <= s.allowance(
                accounts[from_account_index as int],
                accounts[spender_account_index as int],
            )
            &&& accounts[from_account_index as int] == accounts[to_account_index as int]
                || s.balance(accounts[to_account_index as int]) + amount <= i128::MAX
        },
        Command::Transfer { from_account_index, to_account_index, amount } => {
            &&& 0 <= amount <= s.balance(accounts[from_account_index as int])
            &&& accounts[from_account_index as int] == accounts[to_account_index as int]
                || s.balance(accounts[to_account_index as int]) + amount <= i128::MAX
        },
        Command::BurnFrom { spender_account_index, from_account_index, amount } => {
            &&& 0 <= amount <= s.balance(accounts[from_account_index as int])
            &&& amount <= s.allowance(
                accounts[from_account_index as int],
                accounts[spender_account_index as int],
            )
        },
        Command::Burn { from_account_index, amount } => 0 <= amount <= s.balance(
            accounts[from_account_index as int],
        ),
        Command::AdvanceLedgers { .. } => true,
    }
}

/// Law: every successful call whose command stays within bounds is
/// accepted.
pub proof fn lemma_within_bounds_accepted(s: TokenModel, command: Command, accounts: Seq<Seq<u8>>)
    requires
        s.amounts_nonnegative(),
        command.indices_below(accounts.len() as int),
        within_bounds(s, command, accounts),
    ensures
        command_effect(s, command, accounts, CallOutcome::Succeeded) is Ok,
{
    match command {
        Command::Mint { to_account_index, amount } => {
            lemma_mint_succeeds(s, to_account_index, amount, accounts);
        },
        Command::Approve { from_account_index, spender_account_index, amount, expiration_ledger } => {
            lemma_approve_succeeds(s, from_account_index, spender_account_index, amount, expiration_ledger, accounts);
        },
        Command::TransferFrom { spender_account_index, from_account_index, to_account_index, amount } => {
            lemma_transfer_from_succeeds(s, spender_account_index, from_account_index, to_account_index, amount, accounts);
        },
        Command::Transfer { from_account_index, to_account_index, amount } => {
            lemma_transfer_succeeds(s, from_account_index, to_account_index, amount, accounts);
        },
        Command::BurnFrom { spender_account_index, from_account_index, amount } => {
            lemma_burn_from_succeeds(s, spender_account_index, from_account_index, amount, accounts);
        },
        Command::Burn { from_account_index, amount } => {
            lemma_burn_succeeds(s, from_account_index, amount, accounts);
        },
        Command::AdvanceLedgers { .. } => {},
    }
}

/// Law: a call with a negative amount that the contract accepted always
/// stops the run.
pub proof fn lemma_negative_amount_never_accepted(
    s: TokenModel,
    command: Command,
    accounts: Seq<Seq<u8>>,
    outcome: CallOutcome,
)
    requires
        command.amount_of() matches Some(amount) && amount < 0,
        outcome.call_returned(),
    ensures
        command_effect(s, command, accounts, outcome) == Err::<TokenModel, Violation>(
            Violation::NegativeAmountAccepted,
        ),
{
}

/// Law: a successful transfer moves the amount from one account to the
/// other and leaves every other balance as it was; a transfer to oneself
/// changes no balance.
pub proof fn lemma_transfer_moves_amount(
    s: TokenModel,
    from_account_index: usize,
    to_account_index: usize,
    amount: i128,
    accounts: Seq<Seq<u8>>,
    other: Seq<u8>,
)
    requires
        from_account_index < accounts.len(),
        to_account_index < accounts.len(),
    ensures
        ({
            let f = accounts[from_account_index as int];
            let t = accounts[to_account_index as int];
            let command = Command::Transfer { from_account_index, to_account_index, amount };
            success_effect(s, command, accounts) matches Ok(u) ==> {
                &&& f != t ==> u.balance(f) == s.balance(f) - amount && u.balance(t) == s.balance(
                    t,
                ) + amount
                &&& f == t ==> u.balance(f) == s.balance(f)
                &&& other != f && other != t ==> u.balance(other) == s.balance(other)
                &&& u.minted == s.minted && u.burned == s.burned
            }
        }),
{
}

/// Whether the outcome of a call is acceptable: false exactly when the
/// contract trapped with a WASM `InvalidAction`, that is, panicked.
pub fn verify_token_contract_result(outcome: &CallOutcome) -> (r: bool)
    ensures
        r == !outcome.unexpected_panic(),
{
    match outcome {
        CallOutcome::ContractFailed { error_type, error_code } => !(*error_type
            == WASM_VM_ERROR_TYPE && *error_code == INVALID_ACTION_ERROR_CODE),
        _ => true,
    }
}

impl ContractState {
    /// Adds `amount` to `addr`'s balance, after checking that the new balance
    /// is an `i128` and not negative.
    fn checked_credit(&mut self, addr: &Vec<u8>, amount: i128) -> (r: Result<(), Violation>)
        requires
            old(self).wf(),
        ensures
            final(self).wf(),
            match old(self)@.credited(addr@, amount as int) {
                Ok(m) => r is Ok && final(self)@ == m && final(self).recorded_supply() == old(
                    self,
                ).recorded_supply() + amount,
                Err(e) => r == Err::<(), Violation>(e),
            },
    {
        let balance = self.get_balance(addr);
        match balance.checked_add(amount) {
            None => Err(Violation::Overflow),
            Some(nb) => {
                if nb < 0 {
                    Err(Violation::NegativeBalance)
                } else {
                    self.add_balance(addr, amount);
                    Ok(())
                }
            },
        }
    }

    /// Takes `amount` from `addr`'s balance, after checking that the new
    /// balance is an `i128` and not negative.
    fn checked_debit(&mut self, addr: &Vec<u8>, amount: i128) -> (r: Result<(), Violation>)
        requires
            old(self).wf(),
        ensures
            final(self).wf(),
            match old(self)@.debited(addr@, amount as int) {
                Ok(m) => r is Ok && final(self)@ == m && final(self).recorded_supply() == old(
                    self,
                ).recorded_supply() - amount,
                Err(e) => r == Err::<(), Violation>(e),
            },
    {
        let balance = self.get_balance(addr);
        match balance.checked_sub(amount) {
            None => Err(Violation::Overflow),
            Some(nb) => {
                if nb < 0 {
                    Err(Violation::NegativeBalance)
                } else {
                    self.sub_balance(addr, amount);
                    Ok(())
                }
            },
        }
    }

    /// Reduces an allowance by `amount`, after checking that the new
    /// allowance is an `i128` and not negative.
    fn checked_reduce_allowance(&mut self, from: &Vec<u8>, spender: &Vec<u8>, amount: i128) -> (r:
        Result<(), Violation>)
        requires
            old(self).wf(),
        ensures
            final(self).wf(),
            match old(self)@.allowance_reduced(from@, spender@, amount as int) {
                Ok(m) => r is Ok && final(self)@ == m && final(self).recorded_supply() == old(
                    self,
                ).recorded_supply(),
                Err(e) => r == Err::<(), Violation>(e),
            },
    {
        let allowance = self.get_allowance(from, spender);
        match allowance.checked_sub(amount) {
            None => Err(Violation::Overflow),
            Some(na) => {
                if na < 0 {
                    Err(Violation::NegativeAllowance)
                } else {
                    self.sub_allowance(from, spender, amount);
                    Ok(())
                }
            },
        }
    }

    /// Brings the expected state up to date after `command` was sent to the
    /// contract and came back with `outcome`. Returns the finding that stops
    /// the run, if there is one: a call with a negative amount that the
    /// contract accepted, a contract panic, a result that did not convert,
    /// or an expected amount that would overflow or turn negative.
    /// `AdvanceLedgers` changes nothing here.
    pub fn apply_command(
        &mut self,
        command: &Command,
        accounts: &Vec<Vec<u8>>,
        outcome: &CallOutcome,
    ) -> (r: Result<(), Violation>)
        requires
            old(self).wf(),
            command.indices_below(accounts@.len() as int),
        ensures
            final(self).wf(),
            match command_effect(old(self)@, *command, account_keys(accounts@), *outcome) {
                Ok(m) => r is Ok && final(self)@ == m,
                Err(e) => r == Err::<(), Violation>(e),
            },
            r is Ok && old(self).supply_consistent() ==> final(self).supply_consistent(),
            (command.amount_of() matches Some(amount) ==> amount >= 0) ==> r != Err::<(), Violation>(
                Violation::NegativeAmountAccepted,
            ),
            !(command is AdvanceLedgers) && *outcome == (CallOutcome::ContractFailed {
                error_type: WASM_VM_ERROR_TYPE,
                error_code: INVALID_ACTION_ERROR_CODE,
            }) ==> r == Err::<(), Violation>(Violation::UnexpectedContractPanic),
            !outcome.call_returned() && !outcome.unexpected_panic() ==> r is Ok && final(self)@
                == old(self)@,
            *outcome == CallOutcome::Succeeded && within_bounds(
                old(self)@,
                *command,
                account_keys(accounts@),
            ) ==> r is Ok,
            *outcome == CallOutcome::Succeeded && *command is Approve && (*command)->Approve_amount
                >= 0 ==> r is Ok && final(self)@.allowance(
                account_keys(accounts@)[(*command)->Approve_from_account_index as int],
                account_keys(accounts@)[(*command)->Approve_spender_account_index as int],
            ) == (*command)->Approve_amount,
            r is Ok && balances_within(old(self)@, account_keys(accounts@)) ==> balances_within(
                final(self)@,
                account_keys(accounts@),
            ),
    {
        let ghost keys = account_keys(accounts@);
        proof {
            if balances_within(old(self)@, keys) {
                lemma_command_keeps_balances_within(old(self)@, *command, keys, *outcome);
            }
            old(self).lemma_wf_amounts_nonnegative();
            if command.amount_of() matches Some(amount) ==> amount >= 0 {
                lemma_nonnegative_amount_never_flagged(old(self)@, *command, keys, *outcome);
            }
            if !(command is AdvanceLedgers) && *outcome == (CallOutcome::ContractFailed {
                error_type: WASM_VM_ERROR_TYPE,
                error_code: INVALID_ACTION_ERROR_CODE,
            }) {
                lemma_contract_panic_always_flagged(old(self)@, *command, keys, *outcome);
            }
            if !outcome.call_returned() && !outcome.unexpected_panic() {
                lemma_failed_call_changes_nothing(old(self)@, *command, keys, *outcome);
            }
            if within_bounds(old(self)@, *command, keys) {
                lemma_within_bounds_accepted(old(self)@, *command, keys);
            }
            if let Command::Approve { from_account_index, spender_account_index, amount, expiration_ledger } = *command {
                if amount >= 0 {
                    lemma_approve_succeeds(old(self)@, from_account_index, spender_account_index, amount, expiration_ledger, keys);
                }
            }
        }
        let amount = match command {
            Command::Mint { amount, .. } => *amount,
            Command::Approve { amount, .. } => *amount,
            Command::TransferFrom { amount, .. } => *amount,
            Command::Transfer { amount, .. } => *amount,
            Command::BurnFrom { amount, .. } => *amount,
            Command::Burn { amount, .. } => *amount,
            Command::AdvanceLedgers { .. } => {
                return Ok(());
            },
        };
        let returned = match outcome {
            CallOutcome::Succeeded => true,
            CallOutcome::ConversionFailed => true,
            _ => false,
        };
        if amount < 0 && returned {
            return Err(Violation::NegativeAmountAccepted);
        }
        if !verify_token_contract_result(outcome) {
            return Err(Violation::UnexpectedContractPanic);
        }
        match outcome {
            CallOutcome::Succeeded => {},
            CallOutcome::ConversionFailed => {
                return Err(Violation::ResultConversionFailed);
            },
            _ => {
                return Ok(());
            },
        }
        match command {
            Command::Mint { to_account_index, amount } => {
                assert(keys[*to_account_index as int] == accounts@[*to_account_index as int]@);
                if let Err(e) = self.checked_credit(&accounts[*to_account_index], *amount) {
                    return Err(e);
                }
                self.record_mint(*amount);
                Ok(())
            },
            Command::Approve { from_account_index, spender_account_index, amount, .. } => {
                assert(keys[*from_account_index as int] == accounts@[*from_account_index as int]@);
                assert(keys[*spender_account_index as int]
                    == accounts@[*spender_account_index as int]@);
                if *amount < 0 {
                    return Err(Violation::NegativeAllowance);
                }
                self.set_allowance(
                    &accounts[*from_account_index],
                    &accounts[*spender_account_index],
                    *amount,
                );
                Ok(())
            },
            Command::TransferFrom {
                spender_account_index,
                from_account_index,
                to_account_index,
                amount,
            } => {
                assert(keys[*from_account_index as int] == accounts@[*from_account_index as int]@);
                assert(keys[*to_account_index as int] == accounts@[*to_account_index as int]@);
                assert(keys[*spender_account_index as int]
                    == accounts@[*spender_account_index as int]@);
                if let Err(e) = self.checked_debit(&accounts[*from_account_index], *amount) {
                    return Err(e);
                }
                if let Err(e) = self.checked_credit(&accounts[*to_account_index], *amount) {
                    return Err(e);
                }
                if let Err(e) = self.checked_reduce_allowance(
                    &accounts[*from_account_index],
                    &accounts[*spender_account_index],
                    *amount,
                ) {
                    return Err(e);
                }
                Ok(())
            },
            Command::Transfer { from_account_index, to_account_index, amount } => {
                assert(keys[*from_account_index as int] == accounts@[*from_account_index as int]@);
                assert(keys[*to_account_index as int] == accounts@[*to_account_index as int]@);
                if let Err(e) = self.checked_debit(&accounts[*from_account_index], *amount) {
                    return Err(e);
                }
                if let Err(e) = self.checked_credit(&accounts[*to_account_index], *amount) {
                    return Err(e);
                }
                Ok(())
            },
            Command::BurnFrom { spender_account_index, from_account_index, amount } => {
                assert(keys[*from_account_index as int] == accounts@[*from_account_index as int]@);
                assert(keys[*spender_account_index as int]
                    == accounts@[*spender_account_index as int]@);
                if let Err(e) = self.checked_debit(&accounts[*from_account_index], *amount) {
                    return Err(e);
                }
                if let Err(e) = self.checked_reduce_allowance(
                    &accounts[*from_account_index],
                    &accounts[*spender_account_index],
                    *amount,
                ) {
                    return Err(e);
                }
                self.record_burn(*amount);
                Ok(())
            },
            Command::Burn { from_account_index, amount } => {
                assert(keys[*from_account_index as int] == accounts@[*from_account_index as int]@);
                if let Err(e) = self.checked_debit(&accounts[*from_account_index], *amount) {
                    return Err(e);
                }
                self.record_burn(*amount);
                Ok(())
            },
            Command::AdvanceLedgers { .. } => Ok(()),
        }
    }
}

} // verus!
