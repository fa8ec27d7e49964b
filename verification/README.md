# tfpin

A linter that keeps a Terraform repository on the versions and conventions declared in a
`.tfpin.toml`: the Terraform version, provider and module versions, an S3 backend convention
whose state `key` mirrors the file's path, and leftover refactoring blocks.

The rules are a Verus library under `src/`, each with a contract over a model of the parsed
Terraform file:

- `syntax` — the parse tree (`parse` hands the text to the `hcl` crate);
- `value` — TOML values, as the configuration gives them;
- `config` — the rules of `.tfpin.toml`;
- `hcl_nav` — lookups in the tree, literal comparison and rendering;
- `checks` — one module per rule, and `run_all`;
- `paths` — which files a run looks at, and the `{dir}` of a file;
- `lint` — what is printed for one file;
- `text` — joining, decimal and quoted rendering, replacing;
- `laws` — properties of the library as a whole.

`app/` is the command: arguments, reading `.tfpin.toml` with `toml`, walking the tree with
`globwalk`, reading files and printing.
