# RWA toolkit

The rules of a toolkit for tokenized real-world assets, written in Verus. Every
executable function of the library is verified against the contract that stands
in its header.

Four contracts work together:

- **compliance** keeps the KYC allowlist and the blocked jurisdictions, and says
  whether an address may hold or move an asset;
- **asset token** moves nothing without asking compliance about both sides;
- **registry** indexes the tokenized assets and their total value;
- **dividend** pays a yield to the holders on a frozen list, from escrow.

## Layout

| Path | What it is |
|------|------------|
| `src/compliance.rs`, `src/asset_token.rs`, `src/registry.rs`, `src/dividend.rs` | one contract each: its storage as a plain value, the mathematical view of it, when each call is refused and with what, and the calls themselves |
| `src/*_laws.rs` | what each contract promises across calls: the invariants, what a call leaves unchanged, what one call undoes of another |
| `src/roles.rs` | the administrator's role and its two-step handover |
| `src/invocation.rs` | what a call learns from the ledger and leaves behind there |
| `src/table.rs`, `src/index.rs`, `src/address.rs`, `src/amounts.rs` | storage tables, id lists, addresses, the range of amounts |
| `src/seen.rs` | the set of addresses met in a list, kept in a map of `soroban-sdk`; the only place where something is taken on trust |
| `app/` | the contracts as they run on the ledger: storage, signatures, calls to other contracts, events |
| `tests/` | tests of the library |

## How a call is made

A contract value holds what is in storage. A call takes an `Invocation`: the
ledger sequence, who signed, and room for the events, payments and lifetime
extensions that the call leaves behind. A call that lacks something from outside
(a signature, the answer of another contract) returns an `Abort` that names it
and changes nothing; the caller obtains it and makes the call again. Every error
leaves storage and invocation as they were.
