# sysdiff

Compares a target file system with a reference image of the same
distribution (downloaded from the distribution's image servers, or a second
file system given with `--user`) and lists the files whose contents occur
only in the target, compared by MD5 digest.

Layout:

- `src/` is the verified library (Verus):
  - `text.rs`: characters of strings, substring search, `str::lines`
    semantics, trimming of double quotes;
  - `os_release.rs`: reading `KEY=value` settings from an os-release file;
  - `value_pattern.rs`: the compiled `^KEY=(.*)$` pattern and its calls
    into `fancy_regex`;
  - `download.rs`: choosing the reference image and its URL;
  - `args.rs`: the command line;
  - `extract.rs`: the decisions of the walk that copies a disk image's
    files out (listing entries, destination paths, mounts, counts);
  - `compare.rs`: content digests (through `md5`), the comparison of the
    two file systems and the results file.
- `app/main.rs` is the command itself: arguments, file and network I/O,
  libguestfs, archive unpacking and logging.
- `tests/` runs the library on concrete inputs.
