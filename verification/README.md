# am

The core of Agent Manager: isolated sessions for coding agents, each in a worktree of its own and, where a
container runtime is installed, in a container of its own. The library decides; it is written in Verus, and
every function in it is verified against its contract.

## Layout

- `src/` is the library.
  - `config` layers settings: built-in values, the global file, the project's, the environment.
  - `container` and `compose` say which command lines start, enter and end a session.
  - `devcontainer` reads devcontainer configs and image labels, merges them, applies the trust gate and names
    images. `devcontainer::native` resolves Features, orders them and renders the Dockerfile that installs them.
  - `text`, `path`, `shell`, `sort`, `strmap`, `json`, `toml_text`, `digest` and `decode` are what the others
    are made of.
- `tests/` are its tests.
- `app/` is what surrounds the library: arguments, files, processes and the network.

## What is trusted

Calls into other crates stand behind small functions whose contracts are taken on trust. They are marked
`external_body` and documented where they stand: reading JSON (`serde_json`, `serde_json_lenient`) and TOML
(`toml`), quoting JSON strings, SHA-256 (`sha2`), base64 (`base64`), gzip (`flate2`), and a few functions of
the standard library on text.
