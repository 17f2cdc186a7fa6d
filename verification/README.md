# overseerd_tooling

The planning, tooling-projection and routing logic of the overseerd application framework,
as a Verus library: every function in `src/` carries a contract that Verus proves.

- `src/scope.rs`, `src/plan.rs`: scope topologies (validation, ancestry, reachability) and the
  partition of component descriptors into singleton, transient and scoped construction.
- `src/contribution.rs`, `src/labels.rs`, `src/projection.rs`, `src/composition.rs`,
  `src/dependencies.rs`, `src/providers.rs`, `src/application.rs`, `src/document.rs`,
  `src/resource_ids.rs`: the tooling document of a prepared application.
- `src/failure.rs`, `src/output.rs`, `src/target.rs`: probe failure reports, the rules for
  publishing a probe response, and the probed target's identity.
- `src/route.rs`, `src/wire.rs`, `src/client.rs`, `src/inference.rs`, `src/http_responses.rs`,
  `src/handlers.rs`, `src/json_ws.rs`: route attributes, wire inputs, client planning, response
  inference, how `#[handlers]` binds and mounts methods, and the JSON WebSocket framing.
- `app/`: file-system, environment, serde and syn plumbing around the library.
- `tests/`: executable tests of the library.

Label maps (`labels.rs`) and the resource labels of a contribution are kept as `Vec`s of
pairs with strictly increasing keys, the order a `BTreeMap<String, _>` iterates in. Verus
accepts calls on a `BTreeMap` keyed by `String`, but with such keys not even the size after
one insertion could be proved, so the sorted `Vec` carries the same contents with its order as
the stated invariant. Prepared scope topologies are a
sorted list of boundaries searched by identity, as they are in the framework itself.
