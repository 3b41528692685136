//! SCIP indexes of source trees, and companions that link across languages.
//!
//! An index says where each symbol of a source tree is defined and used, for
//! one language. Where native code implements what another language calls,
//! two indexes speak of the same thing under different symbols. The
//! augmenters here read the native sources, find what they export, and write
//! a companion index whose documents relate each exported name to the native
//! symbol behind it:
//!
//! * [`pyo3`]: Rust functions and classes exported to Python;
//! * [`c_python`]: CPython extension modules in C;
//! * [`c_ruby`]: Ruby extensions in C and C++;
//! * [`node_addon`]: Node.js addons in C and C++;
//! * [`jni`]: Java native methods in C and C++;
//! * [`c_abi`]: Rust functions exported under C names.
//!
//! [`passes`] decides which passes run over a source tree, and [`manifest`]
//! says what they left behind. The remaining modules are what these are made
//! of: indexes and symbols ([`index`], [`symbol`], [`lookup`],
//! [`companion`]), syntax trees ([`syntax`]), names and versions of packages
//! ([`python`], [`version`]), paths and text ([`paths`], [`text`]).
//!
//! What holds of them all together is stated as laws, beside each augmenter and
//! in [`shape`], [`symbol_laws`], [`text_laws`], [`companion_laws`] and
//! [`run_laws`].

pub mod c_abi;
pub mod c_python;
pub mod c_ruby;
pub mod companion;
pub mod companion_laws;
pub mod index;
pub mod jni;
pub mod lookup;
pub mod manifest;
pub mod node_addon;
pub mod passes;
pub mod paths;
pub mod pyo3;
pub mod python;
pub mod run_laws;
pub mod shape;
pub mod symbol;
pub mod symbol_laws;
pub mod syntax;
pub mod text;
pub mod text_laws;
pub mod version;
