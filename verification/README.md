# zap

The verified core of the ZAP campaign store: the naming and capability
rules of its registry, trust bindings, change buffers, commit receipts and
replay checks, and the pure decision rules of its domain layer (change
economics and holds, information opportunities, milestones and plans,
lowering, worker packets, offline bundles and the Dreamer).

Every function of the library carries a contract that Verus proves; the
laws that relate several functions stand as public proof functions beside
them.

## Model

- Identities are integers wrapped in their own types: only equality and
  order are ever read.
- Digests, canonical encodings and fingerprints are values handed to the
  functions that compare them; no function here computes one.
- Store reads are handed in as the records, or record facts, that a rule
  reads; a rule never reaches into a store itself.
- Sets are strictly increasing vectors.

## Layout

- `src/`: the library, one module per concern.
- `tests/`: tests that run the compiled library on concrete values.
