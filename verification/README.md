# open_feature_flagd

The decision logic of the flagd OpenFeature provider, verified with Verus:
parsing flag configurations (with shared evaluator references), the
targeting operators (`fractional`, `sem_ver`, string comparisons), the
run of a targeting rule through the JSONLogic engine against the exact
JSON text of the evaluation context, flag resolution and its errors, the flag store's updates and change reports,
LRU and in-memory caches and the cache service, connection targets
(including Envoy names), retry backoff, provider options read from the
`FLAGD_*` variables, and telemetry names and attributes.

Layout:

- `src/` — the verified library; contracts state each function's result,
  and public `law_*` proof functions state properties that span calls.
- `tests/` — tests of the library on concrete values.
- `app/` — the runtime around it: parsing JSON text, OpenFeature types,
  the engine's hooks for the custom operators, file watching, async tasks, tracing and metrics.
