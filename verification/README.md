# onezipper

OneZipper walks a directory tree and collapses each folder that directly holds
more than `-n` files into a single zip inside that folder, so a sync client
uploads one archive instead of thousands of small files.

- `src/` is the verified library: command-line reading (`cli`), which folders
  qualify (`select`, `paths`, `ignore_list`), the reports and exit codes
  (`report`), the archive marker (`marker`), the checks around building,
  appending to and verifying an archive (`archive`, `checksum`), the decisions
  of archiving one folder, step by step (`job`), the order in which the
  tree is walked (`walk`), and zip timestamps (`timestamp`).
- `app/` is the program: it reads the file system, writes the archives with
  the `zip` crate, and carries out the steps the library decides on.
- `tests/` exercises the library on concrete values.
