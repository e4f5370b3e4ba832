# lau_agent_unify

A single type system that treats room ensigns and git-native agents as the same thing:
an agent is an agent whether it lives in a room or a repo.

## Layout

- `src/` is the library, written in Verus and verified:
  - `kinds.rs`: agent types, locations, capabilities and statuses, with their labels and
    descriptions;
  - `agent.rs`: the unified agent, its identifier, capabilities, connections and
    description;
  - `registry.rs`: the registry of agents (lookup, registration, selection, counts by
    type), with the laws that tie registration and lookup together;
  - `bridge.rs`: connections between agents, and the rules by which messages are sent and
    broadcast;
  - `text.rs`: joining, lowercasing and the other text helpers.
- `app/` holds what the verified library does not: serde forms of every public type, and
  the budget arithmetic, which is floating point (budgets and progress are kept in the
  library as the bit patterns of `f64`s).
- `tests/` exercises the library.
