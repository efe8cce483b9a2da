//! Parsing and ordering of package-version strings.
//!
//! A raw version string such as `"1:2.3.4rc1+build_5"` is tokenized into a
//! sequence of typed components (epoch, integers, identifiers), and two such
//! sequences are compared under the ecosystem's precedence rules: epochs
//! dominate, trailing zero components are insignificant, and identifier
//! sub-tokens rank as `dev` < `a`/`alpha` < `b`/`beta` < `rc`/`c` < final
//! release < `post`/`rev`.

pub mod comp_op;
pub mod errors;
pub mod digits;
pub mod version_part;
pub mod conda;
pub mod ordering;
pub mod laws;
pub mod repodata;
pub mod version;
pub mod version_compare;

pub use comp_op::CompOp;
pub use conda::conda_parser;
pub use errors::{IndexOutOfRange, ParseError};
pub use repodata::Repodata;
pub use version::Version;
pub use version_compare::VersionCompare;
pub use version_part::{SubToken, VersionPart};
