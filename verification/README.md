# semantic_geo

A memory of facts seen as a space: the three-channel combiner, the
pre-inference filter, the proximity graph, the ordered walk of a text with
its dynamic time warping, the bridge from cells to points and the Pareto
pruning of the quantum collapse.

## Layout

- `src/` is the verified library (Verus). The decisions of the library
  live here, with their contracts: the verdict of the filter and its budget,
  Pareto comparisons and fronts, the decoherence filter and representative of
  the collapse, the k-nearest ranking, the assembly and the metrics of the
  graph, the ordered-sparse sequence (sorting, signature, positional
  overlap), the contract of the walk and of the server answers, the band, the
  pruning guard and the warp path of the alignment, the coherence and the
  centroid projection of the bridge.
- `app/` holds what the verifier does not see: double-precision arithmetic
  (normalization, scores, percentile interpolation, distances, amplitudes)
  with the comparisons made only on its intermediate results (the sort inside
  the percentile, the largest summed amplitude of the collapse), the clock,
  file loading, the serde forms of the server answers and the C ABI of the
  native scorer.
- `tests/` exercises the library.

## Reals

The library never computes with floating point. A real value is carried as
the bit pattern of a double (`f64::to_bits`); a single-precision value is
carried widened to a double, which is exact. The library compares such
values in the IEEE order (`src/reale.rs`): both zeros are equal and every
comparison with a NaN is false, exactly as the hardware compares them.
