# ysos

The logic of the YatSenOS teaching kernel, written in Verus with its
contracts proved.

- `src/` is the verified library: paths and the shell's command lines
  (`path`, `shell`), the FAT16 volume reader (`fat16`, `listing`,
  `fat16_impl`, `fat16_fs`, `filesystem`), processes and scheduling
  (`pid`, `process`, `manager`, `service`, `proclist`, `semaphore`), memory
  (`frames`, `boot`), input (`input`, `serial`), the log line format
  (`logger`), wall-clock time (`clock`, `user`) and the decisions of the
  user programs (`dinner`, `mq`, `fish`).
- `tests/` runs the library on concrete values.
- `app/` is a host shell over a FAT16 image (`run fish` runs the fish
  program's workers on threads), and the kernel's hardware
  edges: the UART driver, the `x86_64` frame-allocator traits, the logger
  registration and the floating-point memory report.
