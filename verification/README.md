# tessivum

A plugin host: scopes and fibers that own what plugins create, services with
realms and staged registries, typed events, a transactional loader for entry
trees, native plugins, and WebAssembly guests behind a permission check. The
library in `src/` states what each part does in contracts that Verus proves.

## Layout

- `src/lifecycle.rs`, `src/disposal.rs`: scopes, fibers, effects, and disposal
  in reverse order.
- `src/service.rs`, `src/service_order.rs`, `src/registry.rs`,
  `src/registry_laws.rs`, `src/context.rs`, `src/context_laws.rs`: providers,
  generations, realms, intercepts and dependency subscriptions.
- `src/events.rs`, `src/dispatch.rs`, `src/combine.rs`, `src/dynamic.rs`,
  `src/event_laws.rs`, `src/listener_laws.rs`: listeners and the five ways to
  dispatch an event.
- `src/config.rs`, `src/tree.rs`, `src/patch.rs`, `src/tree_laws.rs`,
  `src/decode.rs`, `src/read_laws.rs`, `src/persist.rs`, `src/replace.rs`,
  `src/loader.rs`: configuration expressions, entry trees, patches, documents,
  the replacement of a file, and transactions on the committed tree.
- `src/schema.rs`, `src/native.rs`, `src/native_instance.rs`,
  `src/native_update.rs`, `src/managed.rs`: native plugins, their updates, and
  the worker that follows the services they need.
- `src/manifest.rs`, `src/module.rs`, `src/package.rs`, `src/capability.rs`,
  `src/guest.rs`, `src/envelope.rs`, `src/engine.rs`, `src/extism_guest.rs`,
  `src/instance.rs`, `src/wasm_runtime.rs`: WebAssembly packages and guests.
- `src/fixture.rs`, `src/conformance.rs`, `src/report.rs`, `src/catalog_*.rs`:
  conformance fixtures and the scenarios that they name.
- `src/bench.rs`: what the benchmark reads, computes and reports.
- `src/json.rs`, `src/document.rs`, `src/forms.rs`, `src/repeats.rs`,
  `src/text.rs`, `src/ids.rs`, `src/error.rs`: values, the forms that records
  and names may take, fields given twice, texts, identifiers and errors.

Functions that a host calls between outside work (a plugin's hook, a guest's
call, an await) are steps: they take what happened and say what to do next.
`app/` runs those steps with Tokio, files and the Extism runtime, and is the
command line of the project:

    tessivum conformance <fixture>
    tessivum bench --wasm <guest.wasm>
    tessivum bench --paired-only --workload <workload.json>
