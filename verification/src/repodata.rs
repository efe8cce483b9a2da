//! In-memory form of a package-index document.
//!
//! The index itself is read from disk and deserialized outside the library;
//! these types only hold the result as plain values.  The one contract the
//! library has with the loader is that each record's `version` field is a
//! valid input to `Version::from`.

use vstd::prelude::*;

verus! {

/// One package record of the index.
#[derive(Debug, Clone, PartialEq)]
pub struct Record {
    pub build: String,
    pub build_number: u16,
    pub depends: Vec<String>,
    pub md5: String,
    pub name: String,
    pub sha256: String,
    pub size: u64,
    pub timestamp: u64,
    pub version: String,
}

/// The index's top-level metadata.
#[derive(Debug, Clone, PartialEq)]
pub struct RepodataInfo {
    pub subdir: String,
}

/// A package-index document: metadata, the package records keyed by their
/// filename, and the filenames that were removed.
#[derive(Debug, Clone, PartialEq)]
pub struct Repodata {
    pub info: RepodataInfo,
    pub packages: Vec<(String, Record)>,
    pub packages_conda: Vec<(String, Record)>,
    pub repodata_version: u8,
    pub removed: Vec<String>,
}

impl Repodata {
    /// Well-formedness of a loaded index: within each package table, the
    /// filenames are distinct, as they are keys of a map in the document.
    pub open spec fn wf(self) -> bool {
        &&& forall|i: int, j: int|
            0 <= i < j < self.packages@.len() ==> (#[trigger] self.packages@[i]).0@ != (
            #[trigger] self.packages@[j]).0@
        &&& forall|i: int, j: int|
            0 <= i < j < self.packages_conda@.len() ==> (#[trigger] self.packages_conda@[i]).0@
                != (#[trigger] self.packages_conda@[j]).0@
    }
}

} // verus!
