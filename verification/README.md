# review_agent

The core of a code review agent: it takes a change (a pull request, a diff, files), decides what of
it fits the token budget, builds the prompts for a language model, and makes findings, statistics
and comments of the answers.

The library under `src/` is written in Rust with [Verus](https://github.com/verus-lang/verus).
Every function there carries a contract over mathematical models of its data, and Verus proves it.
The program around it, under `app/`, is ordinary Rust: the command line, HTTP, git, files and the
servers.

## Layout

| Module | What it holds |
|---|---|
| `review` | One review, step by step: what is done after each event, and what holds of every review |
| `engine` | What the steps decide: sources, prompts, answers, posting, results, files reviewed one by one |
| `diff`, `diff_parser` | Unified diffs, read and written |
| `budget`, `tokens` | Token estimates, and which files fit a budget |
| `services` | Skip list, file checks, findings out of answers, prompts and rules, relocation of findings, false positives, sticky comments, what is taken out of an answer |
| `config`, `sensitive` | Settings and secrets |
| `github`, `ai`, `retry`, `error` | Addresses, requests, answers, errors and when to try again |
| `session` | Session records, fingerprints and resuming |
| `mcp` | The protocol of the MCP server and its tools |
| `tools` | The tools that the model may call, and the step summary |
| `sarif`, `report` | Results as JSON |
| `json`, `text`, `numeral`, `letters`, `paths`, `glob`, `language`, `web`, `utf8`, `git` | What the rest is built on |

Proof functions that state what holds of several functions together stand beside them and are
public. Calls into other crates stand behind small functions whose contracts are trusted; the doc
comment of each names the function that it calls and what is claimed of it.

## Running

```text
review-agent review --pr-url https://github.com/owner/repo/pull/1
review-agent review-file src/main.rs
review-agent review-glob 'src/**/*.rs'
review-agent review-local --repo-path . --base-ref main --head-ref feature
git diff | review-agent review-stdin --title "My change"
review-agent mcp
review-agent serve --port 8080
```

The program goes by the name of its file, which is `review-agent` here: settings, sessions, project
rules and the mark on sticky comments are found by that name, so a program that is installed under
another name keeps to files and comments of its own.

Settings come from the first of `$GITHUB_WORKSPACE/.github/review-agent.toml`,
`review-agent.toml`, `.review-agent.toml` and `~/.config/review-agent/config.toml` that can be
read; `AI_API_KEY`, `AI_API_BASE`, `MODEL` and `GITHUB_TOKEN` override them.
