# burn_automata

The integral logic of adaptive multiscale particle training, verified with
Verus: memory preflight of MLP training buffers, chunked gradient-reduction
shapes, temporal snapshot schedules, rollout and sampler seeds, canonical
material layouts and seed ordering, coupled-fine member packing, exact-budget
merge selection, and the shape and configuration checks of the training
batches.

- `src/` is the verified library; every public function states its result
  in `ensures`.
- `tests/` exercises the library on concrete values.
- `app/` holds serde forms of the configuration enums and the
  floating-point edges (rank and utility targets, selection reports, seed
  ordering from represented measures) that call into the library.
