# quant_engine

The decision logic of a quantitative trading engine, as a library whose behaviour is stated in contracts
and proved by Verus.

## Layout

| Path | What it holds |
|---|---|
| `src/decimal.rs`, `src/bytes.rs`, `src/text.rs`, `src/order.rs`, `src/domain.rs` | exact decimals over `rust_decimal`, byte and text encodings, stable orders, instants, bars and identifiers |
| `src/signal/` | rolling windows, indicators, the formula language and its reference semantics, the catalogue, feature vectors, genomes, bar reconstruction, market regimes |
| `src/storage/` | ordered keys, record layouts, tables over an ordered listing, coverage, provenance tags, the read cache |
| `src/telemetry.rs` | configuration and correlation of log records |
| `src/validation/` | combinatorial cross-validation, overfitting, reality checks, null models, the information-coefficient screen, trial counts and their floors |
| `src/venue/` | request keys, rate limiting and retries, stream subscriptions and sockets, the user-data session |
| `src/vintage/` | a sealed research artefact: its figures, evidence, checks, seal and load rules |
| `app/` | what surrounds the library: files, LMDB, HTTP, clocks, logging, JSON, and floating-point statistics |
| `tests/` | the library seen from outside |

## How it is stated

Every stateful type has a view, a plain mathematical value. A step of such a type is a spec function from
a view to a view and a result, and the method's contract says that it takes that step. What holds across
steps and across modules stands as public proof functions named `law_*`.

Floating point does not enter the library. Where a decision depends on floating-point values, the library
takes what the decision reads of them: keys that order them, signs, comparisons that were made, or their
bits. `app/` computes the values and asks the library what follows.

## What is trusted

The items that Verus believes without proof are the four arithmetic operations and the comparison of
`rust_decimal::Decimal` (`src/decimal.rs`), SHA-256 and the UTF-8 check (`src/bytes.rs`), and
`String::push` (`src/text.rs`). Each says in its doc comment what it claims.
