//! The platform policy for comparing file names.

use vstd::prelude::*;

verus! {

/// Whether the target filesystem tells file names apart by letter case.
///
/// Selected once at startup; it decides both how output-name collisions are
/// detected and which character filter guards link rewriting.
#[derive(Clone, Copy, PartialEq, Eq, Structural, Debug)]
pub enum CaseFolding {
    /// Names that differ in case are distinct files.
    Sensitive,
    /// Names that differ only in case are the same file.
    Insensitive,
}

} // verus!
