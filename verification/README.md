# router

A multi-hop swap router for Soroban, verified with Verus.

A path is an ordered list of token addresses. The router asks the factory for the pool of each
adjacent pair and passes the whole output of one pool into the next. The caller's slippage guard
binds the last pool only.

- `src/` is the verified library. Every function states which calls it makes to the host, with
  which arguments and in which order, and what it returns for every reply of the host.
  `factory_laws.rs` and `route_laws.rs` state what holds of the router as a whole.
- `app/` is the contract around the library: it hands the host to the library, and aborts the
  invocation when the library refuses a request.
- `tests/` runs the library on a test ledger, with a factory and constant-product pools.

The functions of `src/host.rs` and `src/path.rs` that are marked `external_body` are the only
places that call `soroban_sdk`. Their contracts are taken on trust: each of them says which call
was made and that the reply is what the caller gets, or what a path or an address holds.

Only contracts can be called on the ledger. The router looks at an address before it calls it, and
refuses a request that comes to a factory or a pool that is an account.
