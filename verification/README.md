# jirakeep

A gateway between language-model clients and one Jira site. Clients speak MCP to
it; it speaks REST to the site. Every issue that a tool touches is first
classified against a policy, and what the policy does not grant is neither
served nor changed, and cannot be told from what does not exist.

## Layout

- `src/` is the library, verified with Verus. It decides; it does no I/O.
  - `policy`, `policy_file`: rules, levels of access, and how they are written
    down.
  - `meta`: what a policy looks at in an issue.
  - `guard`, `search`, `scrub`, `project`: assessment of issues, filtering of
    search results, removal of references to hidden issues, and what is served
    of an issue.
  - `client`, `reply`: requests to the site, and how its answers are read.
  - `tools`, `flow`, `run`: the tools, the state machine that each call is, and
    the code that runs it.
  - `server`, `config`, `audit`, `manual`: credentials, settings, the audit log,
    the manual page.
  - `laws`, `visibility`, `secrecy`: what holds of every call, whatever the site
    answers.
  - `json`, `table`, `text`, `encoding`, `keymap`, `keyset`: the values that the
    rest is written in.
- `app/` is the program around it: arguments, files, the network.
- `tests/` runs the library on concrete values.

## How a call runs

`JiraKeep::start` gives a `Run` and a `Step`. A `Step::Call` is a request that
the program sends; its answer goes into `JiraKeep::resume`, which gives the next
`Step`. A `Step::Finish` holds what the client is told. `flow` says, as a
function, what each step is; `run` is proved to do that.

## What is taken on trust

The parsers and writers of other crates: JSON, TOML, timestamps, URLs, SHA-256
and base64; and of the standard library, upper case, quoting for logs and the
growth of a string.
Each stands under a doc comment that says what is claimed of it.
