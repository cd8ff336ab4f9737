# claw_wire

The verified core of two wire protocols of the claw command line:

- the messages that go to a model provider and come back from it (`input`, `request`,
  `output`, `response`, `stream`, with their errors in `fault`, over the JSON values of `json`);
- the event channel to the host application, one JSON object per line, with
  acknowledgements, reconnection and control commands (`endpoint`, `frame`, `bridge`).

Every function in `src/` has a contract that Verus proves. The public proof functions named
`law_...` state what holds of several functions together: that a block of an unknown type is
replayed as it came, that a frame is read back as it was written, that a flush ends.

What is not proved is marked `external_body`, `assume_specification` or `uninterp`, each with
a doc comment that says what is claimed: `String::push`, `String::from` and `From` of a type
for itself, `String::from_utf8_lossy`, `Debug` of a string, `Vec::from_iter` on a `BTreeMap`,
and taking a `serde_json::Value` apart.

`app/` holds what touches sockets, threads, clocks, floating-point prices and `serde`
derives. `tests/` holds the tests.
