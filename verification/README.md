# qubit

Routing, reflection and TypeScript generation for a JSON-RPC server whose handlers are written in
Rust and called from TypeScript, with the logic verified by Verus.

- `src/` is the verified library: ordered maps keyed by strings and ids (`strmap`, `idmap`), the
  handler graph and the router built on it (`graph`, `router`), the string-keyed tree of handlers
  (`node`), the TypeScript types of routers (`ts_router`, `ts`), code generation with its
  backends, parameter pairing, dependent types and prefix map (`codegen`), type reflection
  (`reflection`, `reflect`), the type registry (`builder`), RPC method names and the body of
  `GET` requests (`router::rpc`), and the index file of the bindings (`bindings`).
- `app/` holds what Verus does not see: handler registration with `jsonrpsee`, the HTTP service,
  walks over types with `ts-rs`, and file output.
- `tests/` exercises the library through its public interface.
