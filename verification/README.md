# kerr_spacetime

The discrete core of a simulation of two observers falling through the equatorial plane of a
Kerr black hole and signalling to each other, verified with Verus.

The simulation's physics is numerical integration in doubles. The library (`src/`) holds no
floating point; it holds what the physics *decides* and *keeps*, as plain values:

- `observer` - the observer modes, releases and local rest frames; which mode an observer is
  actually following where they stand, which frames a speed is quoted against, and the case split
  a step and a rewind make.
- `trail` - the bounded, ordered record of a worldline, and the bisection a rewind keeps by.
- `as_seen` - why nothing can be seen, where on a worldline an emission event is read from, and
  the order a cold image solve tries its candidates in, and what a sweep for candidates
  reports when it finds none.
- `simulation` - the FNV-1a fingerprint of a run's state (every number fed as its bit pattern) and
  the invariants every reachable state satisfies, with proofs that the check is exactly those
  invariants.
- `local_frame` - the causal character of a drawn surface.

`app/` is the floating-point side: the Kerr-Schild geometry, the geodesic integrator, the energy a
release implies, the observers' stepping and rewinding around the library's trail and case
splits, and the glue that reads a run's doubles into the library's plain values and turns
a refusal back into a sentence. `tests/` exercises the library from outside.
