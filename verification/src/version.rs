//! The `Version` struct: a parsed version string.
//!
//! A version is created once by parsing, keeps the original string and its
//! component sequence, and is never mutated.  Comparison walks the component
//! sequences under the order of [`crate::ordering`].

use core::cmp::Ordering;

use vstd::prelude::*;
use vstd::string::StringExecFns;

use crate::comp_op::{op_matches, CompOp};
use crate::conda::{conda_parser, tokenize_spec};
use crate::errors::{IndexOutOfRange, ParseError};
use crate::ordering::version_cmp;
use crate::version_part::{all_parts_wf, cmp_parts_pair, parts_vview, PartV, VersionPart};

verus! {

/// The mathematical value of a parsed version: the original characters and
/// the component values.
pub struct VersionV {
    pub version: Seq<char>,
    pub parts: Seq<PartV>,
}

/// A parsed version string: the original text, and its ordered component
/// sequence.
#[derive(Debug)]
pub struct Version {
    version: String,
    parts: Vec<VersionPart>,
}

impl View for Version {
    type V = VersionV;

    closed spec fn view(&self) -> VersionV {
        VersionV { version: self.version@, parts: parts_vview(self.parts@) }
    }
}

impl Version {
    #[verifier::type_invariant]
    spec fn type_inv(self) -> bool {
        all_parts_wf(self.parts@)
    }

    /// Parse a version string with the standard tokenizer.
    ///
    /// Succeeds exactly when the tokenizer accepts the string, and the
    /// parsed components are then exactly what the string tokenizes to.
    pub fn from(version: &str) -> (r: Result<Version, ParseError>)
        ensures
            match tokenize_spec(version@) {
                Some(ps) => r matches Ok(v) && v@.version == version@ && v@.parts == ps,
                None => r matches Err(ParseError::MalformedVersion),
            },
    {
        match conda_parser(version) {
            Ok(parts) => Ok(Version { version: String::from_str(version), parts }),
            Err(e) => Err(e),
        }
    }

    /// Parse a version string with the given tokenizing function, the
    /// library's extension point.  The parsed components are whatever the
    /// function returned, so the function must only produce well-formed
    /// components.
    pub fn parse<'a, F: Fn(&'a str) -> Result<Vec<VersionPart>, ParseError>>(
        version: &'a str,
        parser: &F,
    ) -> (r: Result<Version, ParseError>)
        requires
            call_requires(*parser, (version,)),
            forall|s: &'a str, pr: Result<Vec<VersionPart>, ParseError>|
                call_ensures(*parser, (s,), pr) ==> (pr matches Ok(ps) ==> all_parts_wf(ps@)),
        ensures
            match r {
                Ok(v) => v@.version == version@ && exists|ps: Vec<VersionPart>|
                    #[trigger] call_ensures(*parser, (version,), Ok(ps)) && v@.parts
                        == parts_vview(ps@),
                Err(e) => call_ensures(
                    *parser,
                    (version,),
                    Err::<Vec<VersionPart>, ParseError>(e),
                ),
            },
    {
        match parser(version) {
            Ok(parts) => {
                let v = Version { version: String::from_str(version), parts };
                Ok(v)
            },
            Err(e) => Err(e),
        }
    }

    /// The original version string.
    pub fn as_str(&self) -> (r: &str)
        ensures
            r@ == self@.version,
    {
        self.version.as_str()
    }

    /// The component at `index`, or an error when the index is out of
    /// bounds.
    pub fn part(&self, index: usize) -> (r: Result<&VersionPart, IndexOutOfRange>)
        ensures
            match r {
                Ok(p) => index < self@.parts.len() && p@ == self@.parts[index as int],
                Err(_) => index >= self@.parts.len(),
            },
    {
        if index >= self.parts.len() {
            return Err(IndexOutOfRange);
        }
        Ok(&self.parts[index])
    }

    /// All components, in order.
    pub fn parts(&self) -> (r: &Vec<VersionPart>)
        ensures
            parts_vview(r@) == self@.parts,
    {
        &self.parts
    }

    /// The number of components.
    pub fn part_count(&self) -> (r: usize)
        ensures
            r == self@.parts.len(),
    {
        self.parts.len()
    }

    /// Compare this version to `other`: one of `Lt`, `Eq`, `Gt`.
    pub fn compare(&self, other: &Version) -> (r: CompOp)
        ensures
            r == version_cmp(self@.parts, other@.parts),
    {
        proof {
            use_type_invariant(self);
            use_type_invariant(other);
        }
        Self::compare_iter(&self.parts, &other.parts)
    }

    /// Compare this version to `other` and report whether the given
    /// relational operator holds of the result.
    pub fn compare_to(&self, other: &Version, operator: &CompOp) -> (r: bool)
        ensures
            r == op_matches(version_cmp(self@.parts, other@.parts), *operator),
    {
        let result = self.compare(other);
        match result {
            CompOp::Eq => match operator {
                CompOp::Eq | CompOp::Le | CompOp::Ge => true,
                _ => false,
            },
            CompOp::Lt => match operator {
                CompOp::Ne | CompOp::Lt | CompOp::Le => true,
                _ => false,
            },
            CompOp::Gt => match operator {
                CompOp::Ne | CompOp::Gt | CompOp::Ge => true,
                _ => false,
            },
            _ => false,
        }
    }

    /// Compare two component sequences: epochs first, then position by
    /// position with placeholder padding.
    fn compare_iter(a: &Vec<VersionPart>, b: &Vec<VersionPart>) -> (r: CompOp)
        requires
            all_parts_wf(a@),
            all_parts_wf(b@),
        ensures
            r == version_cmp(parts_vview(a@), parts_vview(b@)),
    {
        let ghost av = parts_vview(a@);
        let ghost bv = parts_vview(b@);
        let alen = a.len();
        let blen = b.len();
        let (ea, sa): (i32, usize) = if alen > 0 {
            match &a[0] {
                VersionPart::Epoch(e) => (*e, 1),
                _ => (0, 0),
            }
        } else {
            (0, 0)
        };
        let (eb, sb): (i32, usize) = if blen > 0 {
            match &b[0] {
                VersionPart::Epoch(e) => (*e, 1),
                _ => (0, 0),
            }
        } else {
            (0, 0)
        };
        proof {
            assert(ea as int == crate::ordering::epoch_of(av));
            assert(eb as int == crate::ordering::epoch_of(bv));
            assert(crate::ordering::body_of(av) == av.skip(sa as int));
            assert(crate::ordering::body_of(bv) == bv.skip(sb as int));
        }
        if ea < eb {
            return CompOp::Lt;
        }
        if eb < ea {
            return CompOp::Gt;
        }
        let pad = VersionPart::Empty;
        let mut ia: usize = sa;
        let mut ib: usize = sb;
        while ia < alen || ib < blen
            invariant
                alen == a@.len(),
                blen == b@.len(),
                av == parts_vview(a@),
                bv == parts_vview(b@),
                all_parts_wf(a@),
                all_parts_wf(b@),
                sa <= ia <= alen,
                sb <= ib <= blen,
                pad == VersionPart::Empty,
                crate::ordering::epoch_of(av) == crate::ordering::epoch_of(bv),
                crate::ordering::body_of(av) == av.skip(sa as int),
                crate::ordering::body_of(bv) == bv.skip(sb as int),
                crate::ordering::parts_cmp(av.skip(sa as int), bv.skip(sb as int))
                    == crate::ordering::parts_cmp(av.skip(ia as int), bv.skip(ib as int)),
            decreases (alen - ia) + (blen - ib),
        {
            let x: &VersionPart = if ia < alen {
                &a[ia]
            } else {
                &pad
            };
            let y: &VersionPart = if ib < blen {
                &b[ib]
            } else {
                &pad
            };
            proof {
                assert(x@ == crate::ordering::head_or_empty(av.skip(ia as int)));
                assert(y@ == crate::ordering::head_or_empty(bv.skip(ib as int)));
            }
            let c = cmp_parts_pair(x, y);
            if c != CompOp::Eq {
                proof {
                    assert(av.skip(ia as int).len() > 0 || bv.skip(ib as int).len() > 0);
                    assert(crate::ordering::parts_cmp(av.skip(ia as int), bv.skip(ib as int))
                        == c);
                }
                return c;
            }
            proof {
                if ia < alen {
                    assert(crate::version_part::tail_or_empty(av.skip(ia as int)) =~= av.skip(
                        ia + 1 as int,
                    ));
                } else {
                    assert(crate::version_part::tail_or_empty(av.skip(ia as int)) =~= av.skip(
                        ia as int,
                    ));
                }
                if ib < blen {
                    assert(crate::version_part::tail_or_empty(bv.skip(ib as int)) =~= bv.skip(
                        ib + 1 as int,
                    ));
                } else {
                    assert(crate::version_part::tail_or_empty(bv.skip(ib as int)) =~= bv.skip(
                        ib as int,
                    ));
                }
            }
            if ia < alen {
                ia = ia + 1;
            }
            if ib < blen {
                ib = ib + 1;
            }
        }
        proof {
            assert(av.skip(alen as int).len() == 0);
            assert(bv.skip(blen as int).len() == 0);
        }
        CompOp::Eq
    }
}

impl PartialEq for Version {
    /// Two versions are equal exactly when they compare as `Eq`.
    fn eq(&self, other: &Self) -> (r: bool) {
        self.compare_to(other, &CompOp::Eq)
    }
}

impl vstd::std_specs::cmp::PartialEqSpecImpl for Version {
    open spec fn obeys_eq_spec() -> bool {
        true
    }

    open spec fn eq_spec(&self, other: &Version) -> bool {
        version_cmp(self@.parts, other@.parts) == CompOp::Eq
    }
}

impl PartialOrd for Version {
    /// Versions order by their comparison result.
    fn partial_cmp(&self, other: &Self) -> (r: Option<Ordering>) {
        self.compare(other).ord()
    }
}

impl vstd::std_specs::cmp::PartialOrdSpecImpl for Version {
    open spec fn obeys_partial_cmp_spec() -> bool {
        true
    }

    open spec fn partial_cmp_spec(&self, other: &Version) -> Option<Ordering> {
        match version_cmp(self@.parts, other@.parts) {
            CompOp::Lt => Some(Ordering::Less),
            CompOp::Eq => Some(Ordering::Equal),
            CompOp::Gt => Some(Ordering::Greater),
            _ => None,
        }
    }
}

} // verus!
