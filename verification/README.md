# caucus

A multi-LLM consensus engine and a project-name availability checker, with their decision
logic verified in Verus.

## Layout

- `src/` — the verified library.
  - `ratio.rs` exact fractions and similarity thresholds.
  - `text.rs` text similarity (bigram and word-set), replacement, joining.
  - `fmt.rs` decimal and percentage text.
  - `types.rs` candidates, consensus results, strategy kinds and errors.
  - `vote.rs` majority voting with fuzzy grouping, and its laws.
  - `judge.rs` the judge's prompt and how its verdict becomes a consensus.
  - `debate.rs` the multi-round debate as a state machine between LLM calls.
  - `hybrid.rs` debate followed by a majority vote.
  - `semantic.rs` the parts of semantic clustering that are not floating point.
  - `pipeline.rs` strategy names, pipelines, and their step-by-step run.
  - `provider.rs` the mock provider and the registry of providers by model.
  - `format.rs` plain and "Supreme Court" output.
  - `cli.rs` command-line decisions and arguments of `caucus`, the HTTP pipeline request
    and the MCP dispatch.
  - `names.rs` name generation: prompt, parsing, validation and ranking.
  - `wide.rs`, `score.rs` exact availability scores in basis points, and their laws.
  - `check.rs` configuration, sorting and the listing of availability results.
- `tests/` — tests of the library.
- `app/` — the programs around the library: LLM calls over HTTP, the async drivers of the
  state machines, the command lines, the HTTP and MCP servers, the Python module, the
  floating-point strategies (weighted vote, semantic clustering) and serialization.
