# nanostores

Reactive stores after the JavaScript nanostores API: atoms, maps, keyed
collections, derived (`computed`, `batched`) stores, lifecycle hooks and a
scheduler for batched recomputes.

## Layout

- `src/` — the verified library. Each store is a decision core: it holds the
  value, registers listeners and hooks under ids, and says for every
  operation which listeners and hooks are to be called next, with what.
  Contracts state these decisions over abstract views (`StoreView`,
  `ComputedView`, `CollectionView`, ...); `src/laws.rs` states the
  properties that span several operations.
  - `store.rs`: the store core (registration, the change pipeline with set
    and notify hooks, the delivery queue that drops superseded
    notifications).
  - `atom.rs`, `map.rs`, `collection.rs`, `computed.rs`, `any.rs`: the kinds
    of stores.
  - `lifecycle.rs`, `scheduler.rs`, `context.rs`, `subscription.rs`,
    `error.rs`, `naming.rs` (how a map's field keys are named).
- `tests/` — tests that drive the cores the way a runtime does.
- `app/` — the thread-safe, closure-based handles (`Atom`, `MapStore`,
  `Computed`, ...) that keep a core behind a lock and call the callbacks it
  names, and, on the web target, the bridge to JavaScript.
