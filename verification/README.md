# awl

`awl` is a small, sharp command-line tool for the AWS operations that come up in
day-to-day work. This crate holds its logic as a Verus library: what a command line
asks for, what is sent to a service, and what is shown of the answer is stated in
contracts over mathematical models and proved.

- `src/` is the verified library.
  - `cli`, `client`, `error`: the command line, how a connection is set up, and the
    ways in which a command fails.
  - `json`, `output`: JSON values, and the output formats (`table`, `json`, `jsonl`,
    `toml`, `yaml`, `tsv`, `plain`).
  - `text`, `number`, `bytes`, `measure`: texts, whole numbers, encoded bytes, and
    floating-point measures by their bits.
  - `services`: a module for each service, with plans (what a command asks for), rows
    (what is shown), and state machines for what takes several requests, such as
    `s3 sync`, `sqs receive` and `logs tail --follow`.
- `app/` is the program around it: argument parsing, network and file access, and
  the AWS SDK. It reads the catalog of instance types from
  `data/ec2_instance_types.json`.
- `tests/` runs the library on concrete values.

Calls into other crates stand behind small functions whose contracts are trusted;
each says which function it calls and what it claims of it. Facts that hold of
several functions at once are proved as functions named `law_...`.
