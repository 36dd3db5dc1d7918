# StellarSwap

A constant-product (`x * y = k`) automated market maker for a pair of tokens,
written in Rust and verified with Verus. One pool instance serves exactly one
pair.

- `src/` is the verified library: the pool's arithmetic, prices, share ledger,
  storage layout and entry points.
- `app/` makes a Soroban contract of it: it loads ledger entries, calls the
  library, and carries out what the library asks for.
- `tests/` runs the library.

## How a call works

The library never performs I/O. A call works on an `Env`: the pool's ledger
entries as plain values, and a list of actions. It decides, updates the entries,
and appends to the list what the host is to do, in order: write an entry, extend
its lifetime, demand an authorization, transfer tokens, publish an event. The
host carries the list out. A refused call leaves the entries as they were and
returns a `PoolError`.

## What is proved

Every entry point states exactly when it is refused and with which error, what
it returns, and which actions it asks for. On top of that:

- `curve_laws`: prices. Every swap strictly grows the product of the reserves;
  an output never exhausts a reserve; an exact output costs the least input that
  buys it; a round trip loses; deposits keep the price; neither deposits nor
  withdrawals dilute a share.
- `pool_laws`: the state from call to call. The supply is what the accounts hold
  plus the locked minimum; once there is liquidity, both reserves stay positive.
- `call_laws`: every call alike. Nothing runs inside another call; a refused call
  changes nothing; only the caller can lose shares; what a share is worth never
  falls.
- `trace_laws`: actions and their order. Effects precede interactions, under the
  lock; authorization comes first; carried out in order, the actions yield the
  ledger that the pool has reckoned with; reserves are backed by token transfers.
