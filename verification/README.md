# esplora-quorum

Read Bitcoin chain state from several Esplora providers without trusting any one
of them, with the rules for doing so verified by Verus.

The library performs no I/O: you hand it what the providers answered, it hands
you a verdict. Every rule states in its contract what the verdict is, for every
list of answers; what the rules promise beyond a single call (that lag is never
a disagreement, that spent beats unspent, that an honest majority bounds the
tip, that silence is not a vote) stands beside them as proof functions.

## Layout

- `src/policy.rs` and `src/policy/`: the rules. `tip`, `tx`, `hex`, `outspend`
  and `address` hold one question each; `agreement` says when answers agree and
  where they first part ways.
- `src/client.rs`: which URLs to ask, and what the replies come to.
- `src/types.rs`, `src/error.rs`: the REST shapes, the routes, the errors.
- `src/text.rs`: text as a sequence of characters.
- `app/`: an async client over `reqwest` that performs the requests.
- `tests/`: the rules on concrete answers.

## What is trusted

Three functions are believed rather than proved: how `str` writes itself with
`{:?}`, how a `u64` is read from text, and how `reqwest` writes a status code.
Each says in its documentation what is claimed of it.

## What this does not do

It cannot make two providers into three. Below `MIN_PROVIDERS_FOR_MAJORITY` the
outlier filter is a no-op: `two_cannot_outvote` proves it, and `quorum_warning`
says so at startup.

It also does not verify anything cryptographically. It reconciles what several
sources claim. A provider that lies consistently, and alone, is believed.

## Licence

MIT OR Apache-2.0.
