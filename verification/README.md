# hyades_engine

The integer-valued core of the Hyades simulation engine, verified with Verus.

- `src/` — the verified library: entity handles and component storage
  (`ecs`), per-empire knowledge sets (`knowledge`), the hull, role and class
  taxonomy with the sorted, duplicate-free Design roster (`hulls`, over the
  generic sorted-insert lemmas in `sorted`), fleet grouping (`fleets`), the
  snapshot vehicle kinds (`snapshot`), the basic mineral colours
  (`resources`) and the named rungs of the Band ladder (`units`).
- `app/` — the floating-point half of the engine (Band ladder readings, hull
  shell geometry, mineral bills, transcendental kernels), ordinary Rust that
  uses the library's discrete types.
- `tests/` — tests of the library's public behaviour.

The discrete-event simulation itself (`Simulation` with its world, event
queue, reports, snapshots and combat systems) is in neither `src/` nor
`app/`: it is floating point throughout and is built on the galaxy,
vector-math, card, autopilot, log, matching and random-number modules, which
this project does not hold.
