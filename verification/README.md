# CDI GPU selection, verified

Helpers that turn a driver's GPU request into CDI device IDs: a normalized
inventory of NVIDIA GPU IDs, round-robin default selection over it, and request
resolution. Every function in `src/` carries a contract proved by Verus.

- `src/text.rs`: trimming, prefixes, `String` ordering, `u64` parsing and
  decimal rendering over character sequences.
- `src/sorted.rs`: strictly sorted sequences under a strict total order.
- `src/inventory.rs`: `CdiGpuInventory` and the default device family.
- `src/selection.rs`, `src/round_robin.rs`: round-robin selection and the
  shared cursor.
- `src/request.rs`: resolving a `DriverGpuResourceRequirement`.
- `src/error.rs`: `CdiGpuSelectionError` and its messages.
- `src/laws.rs`: properties across operations.
- `app/lib.rs`: `Display`/`Error` for the error type and a generic inventory
  constructor.
