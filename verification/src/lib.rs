//! A guarded directory-deletion library.
//!
//! The library holds the decision logic of a command that deletes a
//! directory tree only when the target is a direct child of the current
//! working directory and the operator has confirmed the deletion. Paths
//! are modelled as sequences of segments; the containment check, the
//! argument handling and the confirmation rule are all verified. The
//! filesystem itself (canonicalization, the directory query, the
//! recursive delete) stays with the caller, which hands the library
//! plain values.

pub mod args;
pub mod confirm;
pub mod error;
pub mod path;
pub mod validate;
