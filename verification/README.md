# bolt

An npm-compatible package manager whose decision-making core is verified with
Verus.

- `src/` is the verified library: reading and editing `package.json` and
  `package-lock.json`, semver requirements, dependency specifiers, the
  resolver (a step machine that says what it needs fetched and settles each
  requirement with what came back), lockfile construction, integrity checks,
  the extraction plan of a package tarball (every path and link target kept
  inside the package directory), workspaces, binary shims and scripts, audit
  payloads and reports, `why`, `outdated` and SBOM documents. Each public
  function carries a contract; `src/laws.rs` states the properties that relate
  several operations.
- `app/` is the `bolt` command around it: argument parsing, files, HTTP,
  git and child processes, and the serde shapes of the JSON documents.
- `tests/` runs the library on concrete values.
