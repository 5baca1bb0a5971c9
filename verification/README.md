# agave_events

A verified library for two pieces of a validator's plumbing:

- an **event system**: named event streams, the stream policy that switches
  them on and off (`off,network.=on,network.repair=off`), the names and seals
  of the queue files that publish them, and a subscriber that reads all
  streams in turn;
- a **transaction framer**: it checks the structure of a serialized legacy,
  v0 or v1 transaction or message and records where each section lies, so
  that the fields can be read in place.

Every function in `src/` is verified with Verus against a contract stated
over mathematical models (`Seq`, `Map`, `int`). The laws of the library stand
in `src/` as proof functions, for example:

- `stream_policy::lemma_longest_prefix_wins`: the longest matching prefix
  decides a stream's rule;
- `stream_policy::lemma_last_directive_wins`, `lemma_last_default_wins`: later
  directives replace earlier ones;
- `queue_file::lemma_queue_file_name_round_trip`: a queue file name gives back
  the identifier it was made from;
- `stream_directory::lemma_stream_name_is_single_component`: a valid stream
  name never names a path outside the streams directory;
- `transaction::prefix::lemma_frame_ignores_trailing_bytes`: bytes after a
  transaction never change how it is framed;
- `transaction::sections::lemma_transaction_frame_within`: every section that
  a frame describes lies within the framed bytes;
- `transaction::embedding::lemma_transaction_message_reads_alike`: the message
  part of a transaction frames as the message alone, shifted;
- `transaction::prefix::lemma_message_rejects_trailing_bytes`: a message
  buffer with bytes after the message is refused;
- `subscriber::lemma_busy_stream_is_served`: the subscriber starves no stream
  that always has events;
- `stream_policy::lemma_parsed_prefixes_trimmed`: the prefixes of a parsed
  policy are non-empty and carry no surrounding whitespace.

Layout:

- `src/` the verified library;
- `tests/` tests of the library on concrete values;
- `app/` the filesystem, shared-memory and clock code around the library
  (directory creation, `memfd` queues and their seals, schema files).
