# tinyruntime-python

The Python provider's decisions, verified with Verus: which spellings read as
a Python version and what version they read as, whether a version lies within
a requested floor and exclusive ceiling, which standalone build of a release
a host takes, where an install keeps its interpreter, and which host
interpreters are probed in which order.

* `src/` — the verified library (`version`, `distribution`, `layout`,
  `system`, `error`).
* `app/` — the network, process and file-system work around it: reading the
  release index, probing interpreters, looking for files.
* `tests/` — the scenarios, run against the compiled library.
