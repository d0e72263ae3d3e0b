# scanner

A read-only disk usage scanner whose logic is verified with Verus.

From the entries read below a path, the library computes the total size, the
files and directories with their sizes (largest first, equal sizes in the
order they were found), likely cleanup candidates (temporary, cache, log,
dump, backup and Windows metadata data) and the places that could not be
read. It never changes anything on disk.

Layout:

- `src/` — the verified library:
  - `scan.rs`: the tree of entries read from disk and `analyze`, which turns it
    into a `ScanReport`;
  - `tree_paths.rs`: where listed entries lie by path, and directory sizes as
    totals of the files listed under them;
  - `cleanup.rs`: the rules that make an entry a cleanup candidate;
  - `order.rs`: the stable largest-first ordering (a merge sort) and its laws;
  - `size_format.rs`: human-readable sizes, with the binary64 rounding of the
    values stated on integers;
  - `render.rs`: the text report;
  - `cli.rs`: the command line (`[PATH] [--top N]`, `-h`);
  - `env_expand.rs`: `%NAME%` references in a typed path;
  - `text.rs`: character and string helpers.
- `app/` — the `storage-cleanup-helper` command: walks the filesystem, calls the
  library and prints the report; also serializable copies of the report types.
- `tests/` — tests of the library, including a comparison of `format_bytes`
  with the floating-point rendering on many sizes.
