# wasm_shim

The logic of a proxy-wasm plugin that runs Kuadrant's auth and rate limit
actions on HTTP requests, verified with Verus.

- `src/` is the library. Each module states what its functions return in
  `requires` / `ensures` contracts, proved by Verus:
  property paths, header operations, CEL string functions and values,
  the attribute store, the descriptor registry, the operation and action
  dispatchers, the request pipeline's executor, the decisions of its tasks
  (rate limit, store, token usage, headers, replies), the replies of the
  auth and rate limit services, and the plugin's metrics.
  Tasks that alternate reads of the host with decisions are state machines:
  given what the last read gave, they say what to do next.
  The executor's contracts say which queued tasks it applies and in what
  order, and what it does with each outcome a task gives; what a task's
  `apply` does is up to the task, which the library takes as a generic
  parameter.
- `app/` is the host side: proxy-wasm calls for properties, maps, buffers
  and metrics, and the loops that run the store and token usage machines against the host
  (with the token usage task's host work for JSON bodies). Evaluating CEL
  predicates and expressions is the CEL engine's work and is not here.
- `tests/` runs the library on concrete values.
