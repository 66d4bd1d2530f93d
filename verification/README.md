# swarm

Telemetry for a swarm of simulated devices: a `bee` sends sensor payloads over
UDP, the `hive` forwards them to a NATS JetStream, and the `beekeeper` reads
them back.

- `src/` is the verified library:
  - `buffer`: a bounded FIFO ring buffer that drops its oldest item when full,
    with the laws that it keeps the most recent `SIZE` items in order and
    loses nothing while it does not overflow;
  - the crate root: reading a bee id from the command line, including the
    decimal parse of a `u64`;
  - `config`: the configuration types;
  - `consumer`: the stream and consumer settings and the decisions of the
    consume loop.
- `app/` holds the programs (`swarm <bee|hive|beekeeper|pub|sub>`), the
  network and file I/O, configuration loading, and the FlatBuffers payload.
- `tests/` runs the library on concrete values.
