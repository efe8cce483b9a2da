//! Typed errors of the library.

use vstd::prelude::*;

verus! {

/// Failure to parse a version string: a duplicated epoch (`!`) or
/// local-version (`+`) delimiter, or an epoch that is not an integer.
#[derive(Clone, Copy, Debug, PartialEq, Eq, PartialOrd, Ord, Hash, Structural)]
pub enum ParseError {
    MalformedVersion,
}

/// A component index beyond the component count.
#[derive(Clone, Copy, Debug, PartialEq, Eq, PartialOrd, Ord, Hash, Structural)]
pub struct IndexOutOfRange;

} // verus!
