# macro_workshop

Verified decision logic for four procedural macros:

- `#[derive(Builder)]` — `src/builder.rs`: which accessors each field gets
  (`#[builder(each = "...")]`), how the builder stores it, and whether
  `build` requires it.
- `#[derive(CustomDebug)]` — `src/debug.rs`: `#[debug = "..."]` format
  strings, `Debug` bounds on type parameters, and whether the impl needs the
  item's generics.
- `seq!` — `src/seq.rs`: the `N in a..b { ... }` grammar and the repetition
  of the block.
- `#[sorted]` / `#[sorted::check]` — `src/sorted.rs`: variant and match-arm
  order, wildcard placement, and which error is reported.

`src/syntax.rs` holds plain-value models of the Rust syntax the macros read;
`src/text.rs` small string helpers. `app/` converts between compiler tokens
(`proc_macro2`, `syn`) and those models and renders the expansions with
`quote`. `tests/` exercises the library on concrete inputs.
