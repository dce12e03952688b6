# token_fuzzer

A verified model for fuzzing a Soroban token contract. The fuzzer sends
generated commands (mint, approve, transfer, transfer-from, burn, burn-from,
advance ledgers) to the contract and, after each one, checks the contract
against the state it expects.

- `src/` is the library, verified with Verus:
  - `model.rs`: the expected state (`ContractState`) and its abstract view;
  - `commands.rs`: how each command's outcome moves the expected state;
  - `run.rs`: one step of a run in order (metadata, allowances after
    advancing ledgers, the command's outcome, the check), and the laws that
    hold over a whole run;
  - `audit.rs`: the comparison with what the contract reports, and taking
    over reported allowances;
  - `accounts.rs`: screening of the run's accounts (distinct, contracts);
  - `ledger.rs`: advancing ledger sequence and time in steps of a day;
  - `table.rs`: the byte-keyed amount table under the state. Balances and
    allowances are keyed by addresses' strkey bytes. vstd specifies
    `BTreeMap` only for keys whose type obeys its ordering specification,
    which it gives to integers and tuples of them but not to `Vec<u8>`, so a
    `BTreeMap` keyed by bytes could not be reasoned about. The table keeps
    keys and amounts in two vectors instead, with no key stored twice as its
    invariant;
  - `bigint.rs`: the num-bigint operations the supply bookkeeping uses.
- `app/` drives a real contract through soroban-sdk's test environment and
  hands the library plain values.
- `tests/` runs the library on concrete values.
