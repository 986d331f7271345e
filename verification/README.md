# staking

A staking and reward-distribution ledger for a CosmWasm chain, written in
Verus.

Holders deposit a cw20 token; rewards paid in a native coin are shared among
the holders in proportion to their deposits (with `cosmwasm_std::Decimal`
rounding), and each holder can claim what it has earned or withdraw its
deposit.

- `src/` is the verified ledger: `state` (the records and their invariant),
  `executions` (deposits, withdrawals, rewards, claims), `queries`,
  `contract` (the entry points as functions on the ledger), `laws` (properties
  across operations), `ledger` (lists of balances seen as maps) and `utils`
  (denominations, decimal arithmetic, number text).
- `app/` is the contract around it: entry points, storage through
  `cw-storage-plus`, and the serde forms of messages and errors.
- `tests/` runs the ledger on concrete requests.
