# massa_execution

Smart contract execution of the Massa network, written in Verus. The library under `src/` decides
what an execution does to the ledger, the history of steps and the events, and proves it. Hashing,
signatures, the clock, files and the bytecode runtime are outside of it: where an execution needs
one of these it says so, and goes on with the answer.

- `models`, `timeslots`: identifiers, amounts, slots, and when slots happen
- `vec_map`: a map kept as a vector of entries
- `sce_ledger`: the ledger and changes to it, and how changes compose
- `ledger_step`: the ledger as a step sees it, and transfers of coins
- `event_store`: events of contracts, filters and pruning
- `rng`: the generator that contracts draw from
- `types`: what is executed, and the state of an execution
- `interface_impl`, `interface_laws`: what running contracts can ask for, and what holds of it
- `progress`, `vm_model`, `vm`: executions of steps and of read-only requests
- `vm_laws`, `run_laws`, `trace_laws`, `replay_laws`, `query_laws`: what holds of executions, of
  what they create, of when they give the same, and of queries for events

`app/` connects the library to a node: it hashes, runs bytecode, reads the initial ledger and
converts values. `tests/` runs the library on concrete values.
