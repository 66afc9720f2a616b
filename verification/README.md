# misleading_return_type

Detects return type annotations that are misleadingly wider than what the
implementation actually returns, as in

```ts
function getStatus(b: boolean): string { if (b) return "loading"; return "idle"; }
```

where `"loading" | "idle"` would tell callers more. The rule is written in Verus:
every function of the library is proved to meet its contract.

- `src/types.rs`, `src/syntax.rs`: the type graph and the syntax tree that the rule reads.
- `src/matching.rs`, `src/traversal.rs`, `src/widening.rs`, `src/property.rs`, `src/union.rs`:
  when one type is the same as another, or wider.
- `src/classify.rs`: what kind of type an annotation or a returned expression has.
- `src/returned.rs`: which types a function returns, and whether `as const` is used for it.
- `src/text.rs`, `src/describe.rs`: the suggested return type, as text.
- `src/rule.rs`: the rule itself.
- `src/laws.rs`: what holds of the rule as a whole.
- `app/`: reads the syntax trees of the linter, and shows diagnostics in its form.

Suggested return types are only shown when their text is up to 80 characters
long, counted in bytes.
Longer unions fall back to a generic note.
