# zwi

zwi zips a directory while honouring its ignore files (`.gitignore` files
found while descending, or one custom ignore file). The `.git` directory is
always left out.

- `src/` is the verified library: parsing of the command-line values, the
  memory budget shared by compression workers, buffer sizes and the ZIP64
  decision, path handling and archive names, the ordering of entries, the
  compression plan, and the input checks with their messages.
- `app/` is the command-line program: argument parsing, the directory walk,
  the worker threads, progress display and the ZIP writing, all of which call
  into the library for their decisions.
- `tests/` exercises the library on concrete values.
