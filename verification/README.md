# ara

The core of a coding agent, written and verified in Verus: the message model and the Chat
Completions protocol, the agent loop, the session journal, prompt templates, and the discovery of
context files and skills.

- `src/` is the library. It decides; it performs no I/O. Every public function states what it
  returns, but for `now_ms`, which reads the clock. Functions named `law_...` state what holds across functions.
- `tests/` runs the library on concrete values.
- `app/` is the command line host `ara`: it reads files, talks HTTP, runs tools and writes the
  journal as the library says. Called as `ara-fake-upstream` it serves a scripted endpoint.

What the library takes on trust are the calls into other crates and into `std`, each behind a
small function marked `#[verifier::external_body]` whose comment says what is claimed of the call.

The host reads the texts of its prompts from `$ARA_HOME/prompts`:
`system-prompt.md`, `project-prompt.md`, `custom-system-prompt.md`, `active-repo-context.md`,
`date-cwd-reminder.md` and `personalities/{default,friendly,pragmatic}.md`.
