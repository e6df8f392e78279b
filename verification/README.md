# no_useless_path_segments

A lint rule, verified with Verus, that finds useless segments in the paths of JavaScript and
TypeScript imports and proposes the shorter path:

| import            | proposed     |
|-------------------|--------------|
| `./../bar`        | `../bar`     |
| `./foo/../bar`    | `./bar`      |
| `./`              | `.`          |
| `./deep//a`       | `./deep/a`   |
| `./foo/index.js`  | `./foo`, with the option `noUselessIndex` |

- `src/` is the library. `proposal.rs` says what is proposed, `rule.rs` computes it, and
  `normalize_laws.rs` and `proposal_laws.rs` hold what is proved of it as a whole.
- `tests/` runs the library.
- `app/` connects it to a linter: configuration, syntax trees and file paths.
