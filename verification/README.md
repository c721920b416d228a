# devignite

The back end of DevIgnite, a manager of sandboxed language runtimes: it
downloads a runtime, checks its SHA-256 checksum, unpacks it under
`~/.devignite/runtimes`, links its binaries into `~/.devignite/bin`, puts that
directory on the user's PATH, smoke-tests the runtime and diagnoses the
sandbox.

## Layout

- `src/` is the library, written in Verus. Its functions carry
  `requires`/`ensures` contracts that Verus proves, except three small
  wrappers whose contracts are taken on trust: `sha256_digest` (the `sha2`
  digest), `to_lowercase` (`str::to_lowercase`) and `push_char`
  (`String::push`).
  - `text`, `paths`: string and path operations with their models
    (`str::trim`, `str::lines`, `Path::join`, ...).
  - `checksum`: digests (through `sha2`), checksum comparison and parsing of
    checksum files.
  - `download`: the install pipeline as a state machine; success is reported
    only for content whose digest matched.
  - `symlink_engine`, `path_manager`, `doctor`: the sandbox's links, the
    PATH and shell profiles, and the diagnostic checks. Each function takes
    what was observed of the file system and returns what is to be done.
  - `smoke_test`: default test suites per language and the suite runner's
    state machine.
  - `schema`, `models`, `commands`: migrations, records and the command
    decisions.
- `app/` is plain Rust around the library: file system, processes, HTTP,
  SQLite, the Windows registry and the commands of the user interface.
- `tests/` exercises the library on concrete values.
