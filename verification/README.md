# ultrascip

Writes SCIP indexes of a source package with tools that need no build, and
companion indexes that link names across languages. The indexers of build
systems are not part of it: `ultrascip` reports that it has none, runs the
other passes and records what they wrote.

An indexer such as scip-python or rust-analyzer covers one language. When a
Python module is implemented in Rust or C, the Python index and the native
index describe the same function under two symbols. Each augmenter reads the
native sources, finds the names that they export to another language, and
writes a small SCIP index that relates each exported name to the native symbol
behind it.

| program                    | links                                        |
|----------------------------|----------------------------------------------|
| `scip-pyo3-augment`        | Python names to Rust functions and classes   |
| `scip-c-python-augment`    | Python names to C functions                  |
| `scip-c-ruby-augment`      | Ruby names to C functions                    |
| `scip-node-addon-augment`  | JavaScript names to C and C++ functions      |
| `scip-jni-augment`         | Java native methods to C and C++ functions   |
| `scip-c-abi-augment`       | C names to Rust functions                    |
| `ultrascip`                | passes over a source package, and a manifest |

## Layout

* `src/` is the library, written in Verus: every function has a contract that
  says what it returns, and Verus proves that it does.
* `app/` holds the programs: arguments, files, running tools, JSON.
* `tests/` runs the library with the outside crates that it calls: tree-sitter
  for C and C++, syn for Rust, scip and protobuf for indexes.

What Verus believes of the outside crates is stated at the few functions marked
`external_body` and in the `assume_specification` items. A parser's result is
given a name there (`syntax::c_syntax`, `pyo3::rust::rust_syntax`,
`pyo3::rust::argument_pairs`), and the scanners are proved against that name;
the functions that take what was parsed (`scan_tree`, `scan_items`,
`pick_name`) have contracts of their own.
