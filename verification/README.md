# canoe-storage

Checked USB mass storage and the filesystem sessions that live on it.

The library performs no transfer and mounts nothing. Each operation is a small
state machine: it names the next bulk transfer or engine call, and takes the
outcome to decide what comes next. Verus proves of it what is sent, what a reply
means, and when a session can no longer be trusted.

- `exchange`, `scsi`, `ready`: one SCSI command over the bulk-only transport, a
  session of them, and bringing a unit to readiness. `exchange_laws` states what
  holds of a whole exchange, whatever the device answers.
- `range`: bounded byte ranges over a session; `range_laws` states what they read
  and write on a medium, down to the bytes on the wire.
- `qualify`: the commands that qualify an export without writing to it.
- `usb`: which interface is used, and what its control replies, its release and
  its close amount to.
- `path`, `guard`, `engine`, `directory`, `journal`: paths, the guarded block
  device, the calls to a filesystem engine, directory blocks, journals.
- `session`, `stat`, `list`, `read`, `mutate`, `lifecycle`: filesystem sessions.
  `session_laws` states what every operation keeps; `walk_laws` states what
  lookups, listings and reads amount to.
- `volume`: the files of a FAT or ext4 volume, and what it is for an engine to
  serve them truthfully. `volume_laws` states what every operation then does to
  them.
- `fastboot`, `managed`, `probe`: the sessions that a browser holds.

`app/` runs the machines: transfers over nusb, engines over fatfs and fs_ext4, and
the browser bindings. `tests/` drives them over scripted transports and over real
engines on volumes in memory.
