# call_registry

A prediction-call registry and its governance rules, verified with Verus.

- `src/` is the verified library. The registry is a state machine: every operation
  takes the current time and the addresses that authorised it, and either refuses
  with an error (changing nothing) or returns the new state together with the token
  movements, vault calls and events for the host to carry out.
  - `fees.rs`: the surge-fee schedule and integer helpers.
  - `ledger.rs`: the stake ledger and its sums.
  - `types.rs`: calls, effects, events, errors.
  - `model.rs`: the state as a mathematical value, each operation as a transition,
    and the consistency predicate `valid`.
  - `registry.rs`: the executable registry, each operation proved to follow `model.rs`.
  - `laws.rs`: what the operations keep (validity, solvency) and what sequences of
    them give.
  - `governance.rs`: owner and councilor roles, the fee-update timelock, soulbound marks.
- `app/` is the Soroban contract glue: storage, authorisation, token and vault calls,
  events.
- `tests/` runs the library on concrete scenarios.
