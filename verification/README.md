# ise

Buckets of a storage service as drives: a command to create, list and delete
buckets and their files, and a flat filesystem that presents one bucket as a
volume.

- `src/` is the library, verified with Verus. It holds the mapping between
  volume paths and object keys, the state of open handles, the decisions behind
  each filesystem callback, listings, the deletion of buckets, and the
  configuration of drives. Nothing in it does input or output: a decision that
  needs the storage service returns the request, and another one takes the
  reply.
- `app/` is the command itself: arguments, the configuration file, the calls of
  the storage service, and the WinFSP volume on Windows.
- `tests/` runs the library.

The configuration file stands in the user's configuration directory, as
`infinite-storage-engine/config.json`.
