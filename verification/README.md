# seki (席)

The logic of a typed shell-prompt renderer, verified with Verus.

- `src/` — the library. Each status segment has a module holding what it
  computes: its label, its format rendering (`markup`), and the parsers for
  the text its probe reads (porcelain git status, JSON-ish snapshots,
  `nix flake metadata`, `caixa.lisp`, toolchain files). `daemon` holds the
  refresh daemon's decisions (event classification and the
  generation-validated status cache), `probe_cache` the TTL cache every
  probing segment keeps, `text` and `table` the shared character, number
  and table primitives. Every public function states its result exactly;
  the `law_*` proof functions state properties across calls (the wire form
  round-trips, a bumped repository is never served stale, markup-free text
  renders as itself, …). The probing segments (`mado_session`,
  `shigoto`, `tend`, `shikumi_config`) also hold the decision of one
  render: from the cache, the time and the probe's answer to the next
  cache and the text shown.
- `tests/` — the library's tests.
- `app/` — the `seki` binary: the refresh daemon's socket server and
  file-system watcher, and the probes (commands, sockets, HTTP, files)
  whose answers the library parses.

The library's crate root is `src/lib.rs`; its tests run with `cargo test`.

## What is not here

The prompt engine itself — the `seki_core` crate with the module trait and
registry, the segment and style types, the tiered configuration
(`SEKI_TIER`, the preset configs) and the `seki prompt` / `init` /
`module` / `config-show` commands built on them — is not available to this
project, so those parts are absent: no segment's `render` is wired into a
prompt, and the binary runs only the refresh daemon (`seki daemon`). The
probes in `app/` are complete but not yet called by any command. The
Borealis night palette is absent too: the `ishou-tokens` release available
here (0.1.24) has no `BorealisPalette` to resolve it from.
