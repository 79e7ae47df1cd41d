# tangopatch

The rules of a `.tangopatch` package's `manifest.toml`, verified with Verus.

- `src/` is the verified library: patch-name rules (`name`), the netplay
  compatibility strings (`manifest`, with proofs that writing and reading a
  compatibility round-trips and that each has exactly one spelling), the
  manifest's own rules and file names (`manifest`), the upgrade of legacy
  format-1 manifests (`manifest::compat`), ROM targets (`target`), per-ROM
  overrides and their chip-range check (`overrides`), versions (`version`),
  errors (`error`) and small text helpers (`text`).
- `app/` decodes TOML into these types and encodes them back (`toml`,
  `serde`, `semver`), calling the library for every check.
- `tests/` runs the library on concrete values.
