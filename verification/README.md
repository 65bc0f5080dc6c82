# memory_orchestrator

The decision logic of a tiered memory for an assistant, written and proved in Verus.

* `src/` is the library. Three tiers keep a memory: notes of the running session, memories extracted from
  conversations, and dreams that consolidate what several sessions left behind; on top of the dreams, hypotheses
  are imagined and verified claim by claim. The library decides when each of them runs, what the model is asked,
  how its answers are read, and what is written where. It also decides what starts at the end of a turn, what is
  kept of it for a restart, and which transcripts and watched trees are looked at.
* `app/` runs the library: files, clocks, channels, the wire formats and floating-point arithmetic.
* `tests/` runs the library on concrete values.

Scores travel through the library as the bit patterns of doubles. The library compares and clamps them; their
arithmetic is done in `app/`.

Paths travel through the library as texts with `/` between their names, as Unix writes them. Where the system writes
them in another way, `app/` puts them into that form and back.

JSON is parsed and written by `serde_json`, digests come from `sha2`, UUIDs from `uuid`. The functions that call them
are marked `external_body`, and say in their doc comments what is taken on trust.
