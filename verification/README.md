# cargo-mutants

Find places where bugs could be inserted into a Rust program without any test noticing.

* `src/` is the verified library. It finds the mutants of a parsed source file (`visit`; what it finds is stated in
  `opportunities`, and attributes are read in `attrs` and `metas`), names and describes them and shows their diffs
  (`mutant`, `hunks`, `unified`, `list`), knows which files of a tree are walked (`walk`, `modules`) and how cargo is called
  (`cargo`), and decides what is done with each mutant (`lab`, `coverage`, `artifacts`, `process`).
* `app/` reads source trees, runs cargo and the LLVM tools, and writes the lists. It does what the library decides.
* `tests/` runs the library on concrete input.

Outside crates are called from `src/` behind small functions, each with a contract and a comment that says what is
believed of the call.
