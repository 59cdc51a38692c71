# wp_lang

Building blocks of WPL, a small language for describing how log lines are cut
into typed fields, written in Verus and verified.

`src/` is the verified library:

- `text`, `chars`, `encoding`: the cursor model used by every parser
  (`&mut &str` advanced past what was taken), character classes, UTF-8.
- `utils`, `string`: names, keys, quoted and raw strings, parentheses,
  `key:"value"` tags and escape decoding.
- `sep`: field, group and inherited separators, their priorities and the
  readers that cut a value at the next separator.
- `error`: the line/column report of a parse failure.
- `tag`: rule annotations (tags in key order), merging of inherited tags, and
  the `key:value` form of a tag. The tags are kept in a `Vec` sorted by key
  rather than a `BTreeMap`: vstd's map contracts hold only for key types that
  obey its comparison spec, and it gives `String` none, so nothing about a map
  keyed by text could be proved.
- `pipe`, `fun_args`, `codec`: the field pipes (checks such as `f_chars_has`,
  selectors such as `take` and `last`, rewrites such as `json_unescape` and
  `base64_decode`), the field index, and the argument builders.
- `json`: flattening of a JSON document into fields named by their paths, and
  the fields of JSON values inside an array field. Only documents without
  sub-field configuration are flattened here; configured sub-fields, which
  hand their text to further field parsers, are not covered. The exact checks
  of a configured document stand as functions of their own: `exact_check`, and
  `check_required_members` for the required members of an object (over the
  configured paths and their optional flags).
- `protocol`: field parsers that read a whole encoded value: an exact JSON
  document (read by `serde_json`, flattened in exact mode) and a Base64 text up
  to the field's separator.
- `network`: domain, e-mail, URL and mobile phone values.
- `builtins`: Base64 preprocessing of raw input.
- `gen_rule`: sample-field generators (kind, range, render format) and a
  builder that keeps one generator per field name.
- `data_type`: a field read from its text as characters, a symbol, a decimal
  integer or a boolean.
- `checker`, `setting`, `group`, `desc`, `pkg`, `wild_map`, `field_error`,
  `combined`: smaller pieces (check levels, group kinds, package identifiers,
  a map with wildcard keys, ...).

`app/` holds what touches the process and the outside traits: the shared
package-id counter, notices, serialisable copies of library types, generator
rules read from TOML, the Base64 pipeline unit, rule-file discovery, and
the reading of float and IPv4 fields from their text.

Not covered: the parser of pipe-function calls (`take(..)`, `f_chars_has(..)`,
...) is built from the call and array combinators of the `wp_parser` crate,
which is not among this project's dependencies, and its address arguments are
read with `std::net`; the builders that turn parsed arguments into pipe
functions are here (`fun_args`). Printing rules and field sets, running
compiled rules, and flattening JSON with configured sub-fields need types and
evaluators that are not part of these sources.

`tests/` runs the library on concrete inputs.
