# copy_circuit

A verified copy circuit: the constraints and lookups for the read and write steps of bytes that are
copied during the execution of a block, such as by CALLDATACOPY, CODECOPY or the LOG opcodes.

The library declares the circuit in a constraint system of `halo2_axiom` and computes the assignment
of its rows. Verus proves what every constraint evaluates to and states of the cells, what the
assignment writes, and laws that connect the two.

The circuit has columns of two phases, a challenge between them, and lookups in columns of other
circuits. `halo2_axiom` is the line of halo2 on crates.io that has these; the crate `halo2_proofs`
there has none of them.

- `src/prime.rs`, `src/field.rs`: arithmetic modulo a prime, and field elements.
- `src/expression.rs`, `src/constraint_system.rs`, `src/constraint_builder.rs`: polynomials over
  cells, and the constraint system that they are declared in.
- `src/binary_number.rs`, `src/less_than.rs`: numbers held as bits, and comparisons.
- `src/copy_event.rs`, `src/table.rs`: what is copied, and the tables.
- `src/config.rs`, `src/gates.rs`, `src/configure.rs`: the columns of the circuit, what its
  constraints state, and how they are built and declared.
- `src/region.rs`, `src/assign.rs`, `src/circuit.rs`: the assignment of the rows.
- `src/witness.rs`, `src/consistency.rs`, `src/soundness.rs`: laws. What the filled rows hold and
  satisfy, that no cell is given two values, and what the constraints mean on all rows of a copy.
- `app/lib.rs`: hands the assignment to a layouter of `halo2_axiom`.

The claims on `halo2_axiom` and `halo2curves` that are believed without proof stand on the functions
marked `external_body` in `src/field.rs` and `src/constraint_system.rs`.
