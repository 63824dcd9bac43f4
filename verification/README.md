# boxferry_quadlet

The Podman Quadlet boundary of BoxFerry as a verified library: the value grammars, encoders and
decoders, and the per-unit decisions that turn a container application's settings into Quadlet
unit entries and read such entries back. Every function in `src/` carries a `requires`/`ensures`
contract proved by Verus; the native Quadlet parser and renderer (`quadlet_lens`) and
`serde_json` are called behind small trusted functions whose contracts say what those crates
document.

## Layout

- `src/text.rs`, `charset.rs`, `number.rs`, `grammar.rs`: character classes, splitting, decimal
  and octal numbers, and the accepted spellings of Quadlet values.
- `src/encode.rs`, `scalar.rs`, `path.rs`, `issue.rs`: JSON and label encodings, booleans,
  assignments, unit references and path resolution.
- `src/port.rs`, `mount.rs`, `host.rs`, `secret.rs`, `health.rs`, `security.rs`, `service.rs`,
  `dns.rs`: container settings, each written as an entry and read back.
- `src/volume.rs`, `network.rs`, `ipam.rs`, `pod.rs`: volume, network and pod units, written as
  entry plans and read back entry by entry.
- `src/healthcheck.rs`, `container.rs`, `execution.rs`, `image.rs`: a container's health check,
  single-valued settings, execution context and filesystem source, written as entry plans and
  (but for the filesystem source) read back entry by entry.
- `src/capability.rs`: gating each volume write by the capability catalogue's support over the
  target range; `src/document.rs`: reading a parsed volume unit's native entries into settings.
- `src/relations.rs`, `graph.rs`, `grouping.rs`, `target.rs`: service dependencies as unit
  relations, the dependency graph, single-pod grouping, and the Podman target range.
- `src/source.rs`, `output.rs`, `export.rs`: parsing Quadlet documents, generated output files,
  and the exporter's settings.
- `tests/`: executable tests against the compiled library.
- `app/`: standard-library trait implementations (`Display`, `Error`, redacted `Debug`) for
  library types.

The round-trip laws (a setting written as entries reads back as the same setting) are public
proof functions named `lemma_*_reads_back` in the module of each setting.
