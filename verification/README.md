# scanner

Inventory of a layer root file system in a single pass, without caching:
binaries and their ELF interpreters and needed libraries, shared libraries,
desktop entries and sessions, icons, cursor themes, themes, fonts, man pages,
locales, kernel modules, toolchains, services, mime definitions, firmware,
udev and polkit configuration, and the populated package-manager
directories. Records are classified by their layer-relative path and, where
needed, by a few bytes of their content; paths in the profile are relative to
the root and every list comes out ordered by path.

The library is verified with Verus. The scan is a state machine: it asks for
file-system facts (`fsio::Request`) and decides from the replies
(`fsio::Reply`). Each step of the scan, of the walk of a tree and of the ELF
reader has a contract that fixes what it records and where it goes next;
the I/O stays outside. What a whole scan of a given tree yields is not
stated as one theorem: the tree is only seen through the replies, and the
scans of concrete trees are tests.

## Layout

- `src/scan.rs` — the scan of one root: hierarchy detection, package-manager
  counts, one walk per top-level directory, then every binary read.
- `src/walk.rs` — the walk of one directory tree: resource directories are
  walked in full, unclassified ones probed to a bounded depth, service
  collections recognised by a sampled vote, files routed by path.
- `src/route.rs` — the routing of directories and files by path.
- `src/vote.rs` — the service vote and the diversity gate over a sample.
- `src/parse/` — the record parsers: ELF reading, binaries, libraries,
  desktop entries, services, themes, cursors, icons, fonts, man pages,
  kernel modules, C runtimes.
- `src/records.rs`, `src/laws.rs` — what holds of every record and of a
  finished scan, and what a whole reading of an ELF file and a whole count
  of a package-manager tree yield when the replies come from a given file
  or tree.
- `src/toolchains.rs` — toolchains found by their artifacts.
- `src/layer.rs`, `src/order.rs` — merging profiles and ordering them by path.
- `src/text.rs`, `src/bytes.rs`, `src/content.rs` — text and byte helpers.
- `app/` — the driver that answers requests from a directory tree on disk,
  and the scans of one or several roots (several on threads).
- `tests/` — scans of in-memory trees, the parsers on concrete inputs, and
  the laws on concrete values.
