# hekate_sim

The verified core of the hekate traffic simulation kernel, written in Verus.

`src/` holds the kernel's discrete logic with its contracts and laws: the
identifiers and closed code sets (`ids`, `stage`), the typed event union and
its within-tick order (`event`), the named random streams (`rng`), the
edge-triggered safety and hitch-limit monitors (`safety`, `articulated`), the
close-pass interval bookkeeping (`close_pass`), the maneuver lifecycle and the
tactical decisions (`lifecycle`, `tactic`, `choice`, `following`, `handoff`,
`traversal`, `signals`), the admission queue (`demand`), the per-slot roster
passes (`roster`) and the run records (`run`). Measured quantities travel as
exact IEEE-754 bit patterns (`measure`); the floating-point geometry and
motion models that compute them stay outside the library.

`app/` is plain Rust around the library: the floating-point helpers and the
articulated kinematics, the error type with its `Display`, and the
conversions between library values and `f64`.

`tests/` exercises the library through its public API. Everything here is
Rust and Verus, so there is no `extras/` directory.
