# syljs

Verified building blocks of a small research browser engine, written in Verus.

`src/` is the verified library. Each module states its behaviour in
`requires`/`ensures` contracts over mathematical models (views), and the
laws that span several operations are public proof functions:

- `span`, `diagnostic`: source spans and frontend errors.
- `text`, `keyed`: character-level string helpers and sorted string/id tables.
- `http`: methods, headers, MIME sniffing, cache-control, fetch decisions.
- `security`: origins, sandbox flags, CSP, mixed content and the request gate.
- `script_scan`, `cache_api`: service-worker script analysis, Cache API and
  registrations.
- `event_loop`: the deterministic microtask/task/timer loop.
- `script_pipeline`: script discovery, async/defer scheduling and hooks.
- `dom`, `cssom`: a deterministic DOM tree, inline styles, stylesheets and a
  small cascade.
- `invalidation`: coalescing of invalidation inputs into render plans.
- `lexer`: the script lexer, specified by a lexical grammar over the
  source characters (tokens with byte spans, every diagnostic in order).
- `ast`, `bytecode`, `compiler`: the script syntax tree (number literals
  kept as their source text), the bytecode it compiles to, and the
  compiler, with the law that every jump it emits lands inside the
  compiled code. The parser from tokens to the syntax tree is not part of
  the library.
- `canvas`, `media`: the Canvas 2D host and the media element / Media Source
  host. Their times and coordinates are IEEE-754 doubles kept as bit
  patterns; the library never computes with them.
- `site_compat`, `benchmark`: synthetic workload configuration, scripts and
  scoring.

`tests/` exercises the library through its public API. `app/` holds what the
verified library leaves to ordinary Rust: serializable copies of data types,
the `std::error::Error` form of the frontend error, and the floating-point
side: paint rectangles, canvas text metrics, and the media arithmetic on
segment lengths, durations and volumes.
