# diagweave

Diagnostic reports for Rust errors, with their behaviour stated as Verus
contracts and proved.

A report wraps an error with metadata (error code, severity as a typestate,
category, retryable flag), trace context and events, business and system
context, attachments, a stack trace, display causes and source-error chains.
The library renders reports as a one-line summary and as JSON sections, and
holds the decisions of the `set!`, `union!` and error-derive macros: error-set
algebra and resolution, constructor names, display templates, union planning
and option checking.

Layout:

- `src/` — the verified library. `report_model`,
  `report_json`, `display_text`, `ordering`, `values` and `json` cover reports
  and their rendering; `source_chain`, `chain_depth`, `chain_export` and
  `traversal` the source-error arenas; `set_resolver`, `bitset`, `naming`,
  `template`, `variant_model` and `macro_plan` the macro decisions;
  `otel_model`, `otel_bridge` and `levels` the exporters' records and
  decisions; `fast_map` the hash collections and their key-sorted listings.
- `app/` — plain Rust around it: serde forms, the global context injector,
  `Display`, walks over `std::error::Error` sources, the OpenTelemetry and
  `tracing` bridges, and reading macro input with `syn`.
- `tests/` — tests of the library.

Collections: `FastMap` and `FastSet` wrap std's hash collections, and their
contracts hold for key types that follow vstd's hash-key model (the integer
types among them). The report context (`ContextMap`, keyed by `String`) and the
sets of errors met while walking source chains (`SeenErrorAddrs`,
`PathSeenErrorAddrs`, keyed by the library's `ErrorIdentity`, whose `Eq` and
`Hash` are derived) have keys outside that model: over a hash collection
their contents could not be proved. They are vectors with an invariant
instead: keys occur once, and each keeps the place where it first came, which
is also the order in which the context is shown.
