# ais_agent

The decision logic of an AIS planning agent, written in Verus and proved
against its contracts: how the agent's context is collected, projected,
budgeted and packed for a model; how the segmented planner and the agent
brain decide after each model call; how inputs are normalised and stored;
how LLM providers are planned, chained and answered; and how an off-chain
call is prepared and its attempts judged.

Layout:

- `src/` — the verified library. Every public function states what it
  returns or changes in `requires`/`ensures` over spec functions and views;
  laws that relate several functions stand as public proof functions
  (`lemma_*`). Calls into `serde_json`, `url` and a few std functions go
  through small trusted wrappers whose doc comments say what is assumed.
- `tests/` — ordinary Rust tests that run the compiled library.
- `app/` — the unverified shell: HTTP providers and the off-chain HTTP loop
  (`reqwest`), serde bridges, operator prompts, and the loops that make the
  model calls and hand each answer to the library's step functions.
