# sourcery

Building blocks for event-sourced systems, with contracts that Verus proves.

Aggregates are rebuilt from their events and decide which events a command brings
about; a repository loads them, executes commands and commits what they decide, all
of it or nothing; projections fold events into read models; subscriptions keep read
models up to date; reactors perform side effects.

## Layout

- `src/` is the library. Contracts say what its functions return or change, and Verus
  proves them.
  - `aggregate`, `event`, `projection`, `reactor`, `key`, `from_events`: what users
    implement, and what follows from their implementations.
  - `store`, `snapshot`: events and snapshots in memory. The log of the event store is a
    sequence, the contents of the snapshot store a map.
  - `repository`, `subscription`: the decisions between the calls into a store, and whole
    workflows over the stores in memory.
  - `concurrency`, `message`, `order`: conflicts, texts of errors, the order of positions.
  - `derive`: the source text of derived implementations.
  - `test`: given-when-then tests of aggregates, and seeding of repositories.
  - The files named `laws` hold what is true of several operations together: what is
    committed is loaded back, snapshots change nothing but the time that loading takes,
    a stale decision conflicts, a subscription misses nothing and applies nothing twice.
    `subscription/mirroring` holds what reading one's own writes rests on: global progress
    never runs ahead of the read model.
- `app/` awaits stores, shares them between tasks, runs subscriptions and reactors in
  the background, and reads the attributes of the derive macros.
- `tests/` runs the library.

## What is taken on trust

Each of these stands in `src/` with the contract that is believed of it: copying a JSON
value, `NonEmpty::from_vec`, `String::from` and `String::push`, the case conversions of
`heck` (their results have names, and nothing more is said of them), and the text that
`{:?}` gives (of which nothing is said).

Traits that users implement promise what their contracts say: that an aggregate's
`apply` is a function of its state and the event, that decoding is a function of what is
stored, that a subscriber's filter set is a function of its instance. Proofs about a
user's types rest on those promises.
