# codex_runway

The core of a Windows tray companion for the Codex CLI, written in Verus:
every rule the app applies to Codex's files and to OpenAI's answers is an
executable function with a contract that Verus proves.

## Layout

- `src/` — the verified library.
  - `pricing` — the frozen price book, model classification, exact
    per-turn cost in nano-dollars.
  - `session` — reading `task_complete` turns out of session logs and
    summarising them (per-model rows, recent turns).
  - `cost` — the API-equivalent cost report: per-model totals in id order,
    rows in cost order, unknown models.
  - `auth`, `account` — credential usability, the object written as the
    official `auth.json`, JWT claims, and the account library's index
    operations.
  - `oauth` — PKCE session, callback parsing (path, `error`, CSRF `state`),
    the token request and the credential built from its answer, the
    callback listener's HTTP pages.
  - `quota` — quota API requests and replies, reset credits, and the
    counts and instants that the endpoint sends as numbers or as texts.
  - `paths` — the on-disk layout and id sanitising.
  - `tray_icon`, `crashlog`, `error` — tray icon geometry and compositing,
    crash report texts, error kinds and messages.
  - `text`, `json`, `codec`, `time` — character-level helpers, the JSON
    tree, and the calls into `serde_json`, `base64`, `sha2`, `rand` and
    `chrono`, each behind a small trusted wrapper.
- `tests/` — tests of the library on concrete values.
- `app/` — the unverified shell: files, HTTP, the OAuth listener, the panic
  hook, the tray icon's pixels and the command surface.

Public proof functions named `lemma_*` state the properties that hold
across calls, such as "removing an account undoes storing it" or "a
callback yields a code only with the expected state".
