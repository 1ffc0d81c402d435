# phpantom

Verified building blocks of a PHP language server, written in Verus.

- `src/code_actions/phpstan/remove_unreachable.rs`: the "Remove unreachable
  code" quick fix for PHPStan's `deadCode.unreachable` (which diagnostics
  it applies to, the edit that deletes the dead rest of a block, staleness).
- `src/virtual_members/phpdoc.rs` and `src/docblock.rs`: `@method` and
  `@property` docblock tags as virtual class members.
- `src/diagnostics/unknown_members.rs`: warnings for member accesses that
  exist on none of the classes their subject may stand for.
- `src/util.rs`: a small PHP lexer (strings and comments), brace matching
  and balanced semicolon search; `src/text.rs`: trimming, line splitting
  and case folding with their specifications.
- `app/lib.rs`: conversions to and from `tower-lsp` types, and the JSON
  encoding of the code-action payloads that the library builds.
