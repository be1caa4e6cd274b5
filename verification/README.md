# update_delivery_system

The core of UDS, the update delivery system of MindWork AI Studio, written in
Verus with its behaviour stated in contracts and proved.

- `src/` is the verified library: build metadata and banner, semantic
  versions, changelog parsing, wrapping and viewer state, shutdown
  bookkeeping of transfers, error classification, the request paths of the
  administration API, release-import preparation and the listener transport
  choice. Calls into outside crates (`semver`, `url`, `sha2`, `hex`, `uuid`)
  go through small trusted items whose contracts are documented beside them.
- `tests/` runs the library on concrete inputs.
- `app/` is the `uds` program around the library: command line, terminal
  viewer, HTTP client and server plumbing. It performs the I/O and hands the
  library plain values.
