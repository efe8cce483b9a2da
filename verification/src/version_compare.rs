//! The comparison facade: string-in, ordering-out.

use vstd::prelude::*;

use crate::comp_op::{op_matches, CompOp};
use crate::conda::tokenize_spec;
use crate::errors::ParseError;
use crate::ordering::version_cmp;
use crate::version::Version;

verus! {

/// Stateless facade over parsing and comparison.  All its methods are
/// associated functions; no value of it is ever needed.
pub struct VersionCompare {}

impl VersionCompare {
    /// Compare two version number strings: `Lt`, `Eq` or `Gt`, or an error
    /// when either string does not parse.
    pub fn compare(a: &str, b: &str) -> (r: Result<CompOp, ParseError>)
        ensures
            match (tokenize_spec(a@), tokenize_spec(b@)) {
                (Some(pa), Some(pb)) => r matches Ok(c) && c == version_cmp(pa, pb),
                _ => r matches Err(ParseError::MalformedVersion),
            },
    {
        let a_ver = Version::from(a);
        let b_ver = Version::from(b);
        match (a_ver, b_ver) {
            (Ok(av), Ok(bv)) => Ok(av.compare(&bv)),
            (Err(e), _) => Err(e),
            (_, Err(e)) => Err(e),
        }
    }

    /// Compare two version number strings and report whether the given
    /// relational operator holds of the result, or an error when either
    /// string does not parse.
    pub fn compare_to(a: &str, b: &str, operator: &CompOp) -> (r: Result<bool, ParseError>)
        ensures
            match (tokenize_spec(a@), tokenize_spec(b@)) {
                (Some(pa), Some(pb)) => r matches Ok(m) && m == op_matches(
                    version_cmp(pa, pb),
                    *operator,
                ),
                _ => r matches Err(ParseError::MalformedVersion),
            },
    {
        let a_ver = Version::from(a);
        let b_ver = Version::from(b);
        match (a_ver, b_ver) {
            (Ok(av), Ok(bv)) => Ok(av.compare_to(&bv, operator)),
            (Err(e), _) => Err(e),
            (_, Err(e)) => Err(e),
        }
    }
}

} // verus!
