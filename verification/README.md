# cyberdeck

The rules of a deck that runs local language models: which models are on the
machine, which engine can run them with how much context, how a loadout becomes
a service, how trials are measured and compared, and how workflows of models
run.

- `src/` is the library. Its functions state what they return, and Verus proves
  it. Texts are modelled as sequences of characters, measured speeds as doubles
  by their bit patterns, JSON documents as trees. `src/engines/` holds what
  concerns running engines, `src/store/` the rules of what is kept. What is asked
  of the machine or of a runner goes through `swap_ops`, `service_ops`, `boots`
  and `turns`, which keep a record of it that the contracts speak of.
- `app/` connects the library to the machine: the database, the filesystem, the
  processes and the HTTP interfaces of the engines, and the arithmetic on
  floating-point numbers.
- `tests/` runs the library on concrete values.

What is believed without proof stands in functions marked
`#[verifier::external_body]` and in `assume_specification` items; the comment
above each says what it claims of which outside function.
