# recent_merged_pr

Shows the recently merged pull requests that a GitHub profile owner made to other
people's repositories, as a Markdown block in a profile README.

The library (`src/`) is written in Verus and every function in it carries a
contract that Verus proves:

- `model`: pull requests, repositories and groups, with their views.
- `selection`: which pull requests count as external contributions, and the
  stable newest-first sort (with a proof that its result is unique).
- `grouping`: grouping by repository under the repository and per-repository limits.
- `render`, `block`: the Markdown lines, the block, and the replacement of the
  marked block in the README (with the law that updating twice equals updating once).
- `config`, `numbers`: settings from the input variables and the command line.
- `github`: the paging of the search as a state machine, and the owner's login.
- `clock`, `output`: dates through `chrono`, and the action output text.
- `text`: character-level helpers (lexicographic order, UTF-8 prefixes, decimals).

`app/main.rs` is the program: it reads the environment and files, talks to the
GitHub API through `ureq` and `serde`, and hands plain values to the library.
