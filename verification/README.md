# blip25_mbe_py

The verified core of the Python façade over the `blip25-mbe` vocoder
engine, written in Verus.

- `src/` — the library: argument checks (`errors`, `rate33`), MSB-first
  byte ⇄ dibit conversion (`dibits`), the half-rate info vectors ⇄ natural
  7-byte frame (`natural`, over the bit model in `bits`), the DVSI
  soft-decision packet header and big-endian packet serialization
  (`soft_decision`), the façade enums and analysis-kind names (`enums`),
  streaming result collection (`stream`) and decimal text for the
  `__repr__` strings (`fmt`). Round-trip laws are public proof functions
  beside the functions they relate.
- `tests/` — concrete-value tests of every public function and law.
- `app/` — the pyo3 / numpy module: it moves values between Python, the
  engine and the library.
