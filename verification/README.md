# lvq

`lvq` provisions LVM2 storage (physical volumes, a volume group, logical
volumes, filesystems, mounts and `/etc/fstab` entries) as a transaction:
plan, verify against the live system, confirm, execute.

The library in `src/` is written in Verus and proved against its contracts:

- `types`: the domain model (sizes, filesystems, requests, calls, drafts).
- `text`: decimal rendering, number parsing, splitting, and the few
  standard-library text functions it relies on.
- `units`, `request`: parsing and rendering of sizes, filesystems and
  `name:size[:fs[:mount]]` requests, with round-trip lemmas.
- `cli`: the command line of `provision`.
- `planner`: lowering a request into an ordered plan of calls.
- `probes`, `state`: which facts of the system a plan needs, and the
  snapshot built from the answers.
- `reports`: what the text of `/etc/fstab`, `/proc/mounts`,
  `/proc/swaps` and the reports of `lsblk` and `blkid` say about a device.
- `checks`: idempotency, safety, uniqueness and capacity checks, and the
  verification pipeline that moves a draft to `Done`, `Ready`, `Dirty` or
  `Invalid`.
- `commands`: the shell commands for a plan, with the `/etc/fstab` staging
  and swap activation rules, and the confirmation and authorization gates.

`app/` holds the program around the library: argument collection, reading
the system's files and running its tools, the confirmation prompt, running the commands and the audit log.

The snapshot holds its sets of paths and names in `NameSet`, `PairSet` and
`SizeMap`, small sets and maps over `Vec` whose views are `Set` and `Map` of
texts and whose operations are proved against those views. With `String`
keys, the standard `HashSet` and `HashMap` would leave even the effect of a
single `insert` unproved, so the snapshot does without them.
