# isekai

Project Isekai installs a live Linux system beside Windows: it shrinks a
Windows partition, creates the live partitions, copies the payload of an ISO
image and chains the live system from the Windows Boot Manager. A daemon
serves a user interface over a named pipe; a command line offers the same
operations interactively.

## Layout

- `src/` — the library, verified with Verus: the `lsblk` device tree and its
  walks, the partition planner, partition labels, the DiskPart and `bcdedit`
  command texts, boot configuration menus and relabelling, the workflow
  checks and their saga, the request/response protocol and the installation
  slot, BitLocker and AutoPlay decisions, the resumable download's
  bookkeeping, SHA-256 checksums over the bytes fed to `sha2`, the
  installation's rollback decisions and the shrink sequences, and the command line's parsing, completion and
  tables.
- `tests/` — tests of the library on concrete values.
- `app/` — the program around it: argument parsing, logging, processes,
  WMI and the registry, the network, the named pipe and the interactive
  line editor.
