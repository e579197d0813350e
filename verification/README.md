# spaghetti

A detector of spaghetti code and architectural smells in Python packages, with its logic
verified by Verus.

## What it does

Given the files of a package, it parses each of them and looks for

- long, deeply nested, complex or badly typed functions, mutable defaults, swallowed
  exceptions, dead code, missing branches,
- unused, star, circular and layer-breaking imports,
- god classes, lazy classes, deep inheritance, pass-through methods, message chains,
- magic numbers and strings, global mutable state, broken encapsulation,
- long files and `TODO` markers,
- across files: import cycles, duplicated function bodies and pairs of a sync and an async
  function that are nearly the same.

A comment `# spaghetti-ignore[rule]: reason` on the line of a finding, or on the line above
it, suppresses the finding and keeps the reason. Without `[rule]` it suppresses every rule.

The findings are shown as a text report, as JSON or as a plan of what to fix first. The
program ends with 0 where there is nothing worse than a note, with 1 where there are
warnings and with 2 where there are errors.

```
spaghetti
spaghetti --packages package1 package2
spaghetti --severity error
spaghetti --top 10 --exclude tests/ examples/
spaghetti --json
spaghetti --plan --top 10
spaghetti --config spaghetti.yaml
spaghetti --package my-lib=my-lib/src/my_lib
```

## Layout

`src/` is the library. Every function in it has a contract, and Verus proves all of them but
those of the wrappers named below.

| Module | What it holds |
| --- | --- |
| `checks` | the rules: per file (`functions`, `flow`, `imports`, `classes`, `literals`, `scope`, `text_per_file`) and per package (`cycles`, `duplicates`, `twins`), and what all findings have in common (`provenance`) |
| `scanner` | a scan of a package |
| `suppression` | markers in the source |
| `scoring` | priorities and remediation plans |
| `cli` | what the command line decides, and the text report |
| `config`, `registry` | thresholds, workspaces and the packages to scan |
| `models` | findings and results |
| `ast_helpers`, `walk`, `unparse`, `structure` | functions, their measures, walks through trees, statements as text, what a tree holds besides positions |
| `similarity`, `graph`, `table` | how alike two texts are, cycles in graphs, rows in order |
| `syntax`, `patterns` | the parser's trees and regular expressions as the library sees them |
| `text`, `paths`, `order` | texts, POSIX paths, sorting |

Calls into outside crates stand behind small functions marked
`#[verifier::external_body]`, each with a contract that says what is relied on. They are in
`syntax`, `patterns`, `table`, `unparse`, `config` and `cli`; `text` relies on
`String::push`.

`app/` is the program around the library: arguments, directories and files, threads, JSON
and the health score, which is a floating-point number.

`tests/` runs the library.
