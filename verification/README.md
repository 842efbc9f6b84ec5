# lhm_cache

A verified cache of the hardware and sensors reported by Libre Hardware Monitor.

- `src/` is the library, verified with Verus:
  - `tree.rs`: hardware as read from the system (`HardwareNode`, `SensorNode`),
    the records the cache keeps, and `flatten_forest`, the depth-first order in
    which a tree of hardware is stored.
  - `cache.rs`: `HardwareCache`, its invariant, filling (`init`), lookups by
    identifier and by position, mutable access and `clear`.
  - `structure.rs`: depth-first order of the items and the grouping of
    sensors by owner that filling produces.
  - `query.rs`: what a filtered query over hardware or sensors selects.
  - `lookup.rs`: the content of an identifier lookup table.
  - `kinds.rs`: hardware and sensor types and the bridge's numbering of them.
  - `options.rs`: which kinds of hardware the monitor looks at.
- `app/` holds the bindings to the native `lhm-bridge` library and reads the
  hardware tree through them into the cache.
- `tests/` exercises the library on concrete trees.
