# carbon_registry

A verified registry for tokenized carbon credits: projects, credit issuance,
escrowed sale listings, purchases settled in a stablecoin, and permanent
retirement with immutable certificates.

- `src/` is the library, verified with Verus. `CarbonRegistry` holds the whole
  state; each operation's contract states exactly when it succeeds, which
  error it returns otherwise, and the resulting state. `src/laws.rs` states
  what holds of every reachable state: every issued credit is held, listed
  or retired (and the retired ones are exactly those the certificates
  record), a project's `available` pool is exactly what its owner holds of
  it, no balance exceeds the unretired issuance, a listing is open exactly
  while credits remain, the configuration never changes once set, and what
  every operation keeps. `CarbonRegistry::required_signer` names the party
  that must authorize each operation.
- `tests/` exercises the library on concrete scenarios.
- `app/` is the Soroban contract around the library: per-entry storage with
  TTL bumps, the host's authorization of the party the library names, the
  token transfer that settles a purchase, ledger time and events.
