# relay

Metering, pricing and hard spend caps for AI provider calls, verified with Verus.

A call is checked before any network request: the model key must resolve to a
verified price, the request must fit the model's context, and its worst-case cost,
added to the day's and the month's settled spend and held reservations, must fit
both caps. The provider's reported usage then settles the call at its actual cost,
rounded up to whole micro-dollars.

## Layout

- `src/` — the verified library.
  - `decimal.rs`: exact decimal amounts (parsing and arithmetic through `rust_decimal`).
  - `pricing.rs`: the price table, cost in micro-dollars, USD amounts.
  - `config.rs`: caps, model aliases, provider credential variables.
  - `ledger.rs`: settled calls, reservations and the cap check.
  - `service.rs`: the metered call in steps (`begin_call`, `reserve_call`, `finish_call`).
  - `adapters.rs`: token estimates, provider wire formats and replies.
  - `credentials.rs`: rules for provider names and secrets.
  - `cli.rs`: the command-line grammar.
  - `laws.rs`: properties that span the ledger's operations and the cost arithmetic.
- `tests/` — tests of the library.
- `app/` — the `relay` command: files under `~/.relay`, the SQLite ledger,
  HTTP calls to providers, the OS credential vault, and output.
