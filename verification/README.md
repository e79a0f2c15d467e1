# webdav_wasi

A file-system backend for a WebDAV server (run as a `wasmtime serve` guest or
as a standalone server), verified with Verus.

- `src/` — the verified library: path normalization and parents (`path`),
  the error mapping of host I/O failures (`error`), file metadata and the
  order of directory listings (`metadata`), the decisions of every backend
  operation (`fs_backend`), the order and destinations of a copy's walk
  (`copy_walk`), the standalone server's command line and smoke
  test check (`cli`), and the guest's choice of served directory and
  response headers (`guest`).
- `app/` — the host side: the `std::fs` calls that the backend decides on,
  the command line and smoke test over the network, and the HTTP plumbing of
  the guest.
- `tests/` — tests of the library on concrete values.

Every operation takes what the host reported for the paths involved (a
`HostProbe`) and returns a plan naming host paths; each such path lies under
the served root and is reached through no symbolic link.
