# resonators

A bank of resonators, verified with Verus: a spectrum analyzer that is updated
sample by sample instead of window by window.

* `src/` is the verified library. It works on single-precision numbers by their
  bits and is generic in the arithmetic. The contracts say which operation is
  applied to which operands, and assume nothing of what it returns.
  * `number`, `config` and `dynamics`: the values, the parameters of a resonator
    and weights for a frequency.
  * `arithmetic`: the operations that a bank needs.
  * `model`: what a bank is and how samples, stabilization and hops change it.
  * `bank`: `ResonatorBank`, each operation proved against the model.
  * `laws`: blocks and single samples agree, a reset restores a fresh bank, the
    spectrogram agrees with streaming, resonators do not disturb each other.
  * `outcomes`: what two runs on repeatable arithmetic have in common, and what
    any run of operations keeps.
  * `scaling`: phasors do not depend on the samples, readings scale with them.
* `app/` is the same bank on `f32`, with the arithmetic of the machine and of
  `wide`, and readings as `num_complex` values.
* `tests/` runs the bank on that arithmetic and on integers.
