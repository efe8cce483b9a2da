use libronda::{CompOp, IndexOutOfRange, ParseError, Version, VersionCompare, VersionPart};

#[test]
fn trailing_zeros_insignificant() {
    assert_eq!(VersionCompare::compare("1.2", "1.2.0.0"), Ok(CompOp::Eq));
    assert_eq!(VersionCompare::compare("1", "1.0.0.0"), Ok(CompOp::Eq));
    assert_eq!(VersionCompare::compare("0.0.0", "0"), Ok(CompOp::Eq));
}

#[test]
fn epoch_dominates() {
    assert_eq!(VersionCompare::compare("1996.07.12", "1:0.4.1"), Ok(CompOp::Lt));
    assert_eq!(VersionCompare::compare("1:3.4.1", "2:0.4.1"), Ok(CompOp::Lt));
}

#[test]
fn pre_release_ordering() {
    assert_eq!(VersionCompare::compare("0.4.0", "0.4.1.rc"), Ok(CompOp::Lt));
    assert_eq!(VersionCompare::compare("0.4.1.rc", "0.4.1"), Ok(CompOp::Lt));
}

#[test]
fn dev_alpha_release_post_chain() {
    assert_eq!(VersionCompare::compare("1.0", "1.1dev1"), Ok(CompOp::Lt));
    assert_eq!(VersionCompare::compare("1.1dev1", "1.1a1"), Ok(CompOp::Lt));
    assert_eq!(VersionCompare::compare("1.1a1", "1.1.0dev1"), Ok(CompOp::Lt));
    assert_eq!(VersionCompare::compare("1.1.0dev1", "1.1.dev1"), Ok(CompOp::Eq));
}

#[test]
fn post_release_above_bare_release() {
    assert_eq!(VersionCompare::compare("1.1.0", "1.1.0post1"), Ok(CompOp::Lt));
}

#[test]
fn case_insensitive_identifiers() {
    assert_eq!(VersionCompare::compare("0.4.1.rc", "0.4.1.RC"), Ok(CompOp::Eq));
}

#[test]
fn lexicographic_fallback() {
    assert_eq!(VersionCompare::compare("0.5a2", "0.5b1"), Ok(CompOp::Lt));
}

#[test]
fn operator_satisfaction() {
    // compare("1.2", "1.3") is Lt: Ne, Lt, Le hold; Gt, Ge, Eq do not.
    assert_eq!(VersionCompare::compare("1.2", "1.3"), Ok(CompOp::Lt));
    assert_eq!(VersionCompare::compare_to("1.2", "1.3", &CompOp::Ne), Ok(true));
    assert_eq!(VersionCompare::compare_to("1.2", "1.3", &CompOp::Lt), Ok(true));
    assert_eq!(VersionCompare::compare_to("1.2", "1.3", &CompOp::Le), Ok(true));
    assert_eq!(VersionCompare::compare_to("1.2", "1.3", &CompOp::Gt), Ok(false));
    assert_eq!(VersionCompare::compare_to("1.2", "1.3", &CompOp::Ge), Ok(false));
    assert_eq!(VersionCompare::compare_to("1.2", "1.3", &CompOp::Eq), Ok(false));
}

#[test]
fn malformed_duplicate_delimiters() {
    assert_eq!(Version::from("1!2!3").unwrap_err(), ParseError::MalformedVersion);
    assert_eq!(Version::from("1+2+3").unwrap_err(), ParseError::MalformedVersion);
    assert_eq!(VersionCompare::compare("1!2!3", "1"), Err(ParseError::MalformedVersion));
    assert_eq!(VersionCompare::compare("1", "1+2+3"), Err(ParseError::MalformedVersion));
}

#[test]
fn malformed_epoch_text() {
    assert_eq!(Version::from("abc!1.2").unwrap_err(), ParseError::MalformedVersion);
    assert_eq!(Version::from("!1.2").unwrap_err(), ParseError::MalformedVersion);
}

#[test]
fn empty_string_equivalence() {
    assert_eq!(VersionCompare::compare("", ""), Ok(CompOp::Eq));
    assert_eq!(VersionCompare::compare("", "0.1"), Ok(CompOp::Lt));
    assert_eq!(VersionCompare::compare("0.1", ""), Ok(CompOp::Gt));
}

#[test]
fn empty_string_single_placeholder() {
    let v = Version::from("").unwrap();
    assert_eq!(v.part_count(), 1);
    assert_eq!(v.part(0), Ok(&VersionPart::Empty));
    let dots = Version::from("...").unwrap();
    assert_eq!(dots.part_count(), 1);
    assert_eq!(dots.part(0), Ok(&VersionPart::Empty));
}

#[test]
fn part_accessors() {
    let v = Version::from("1.2.3").unwrap();
    assert_eq!(v.part(0), Ok(&VersionPart::Integer(1)));
    assert_eq!(v.part(1), Ok(&VersionPart::Integer(2)));
    assert_eq!(v.part(2), Ok(&VersionPart::Integer(3)));
    assert_eq!(v.part(3), Err(IndexOutOfRange));
    assert_eq!(v.part_count(), 3);
    assert_eq!(v.parts().len(), 3);
    assert_eq!(v.as_str(), "1.2.3");
}

#[test]
fn part_counts() {
    assert_eq!(Version::from("1").unwrap().part_count(), 1);
    assert_eq!(Version::from("1.2.3.4.5.6.7.8").unwrap().part_count(), 8);
    assert_eq!(Version::from("1.2.dev").unwrap().part_count(), 3);
    assert_eq!(Version::from("1.2_alpha_4").unwrap().part_count(), 4);
    assert_eq!(Version::from("snapshot.1.2").unwrap().part_count(), 3);
}

#[test]
fn epoch_part() {
    let v = Version::from("2:1.5").unwrap();
    assert_eq!(v.part(0), Ok(&VersionPart::Epoch(2)));
    assert_eq!(v.part(1), Ok(&VersionPart::Integer(1)));
    assert_eq!(v.part_count(), 3);
}

#[test]
fn local_version_concatenates() {
    // The local segment continues the main sequence.
    let v = Version::from("1.2+build_3").unwrap();
    assert_eq!(v.part_count(), 4);
    assert_eq!(v.part(0), Ok(&VersionPart::Integer(1)));
    assert_eq!(v.part(3), Ok(&VersionPart::Integer(3)));
    assert_eq!(VersionCompare::compare("1.2+3", "1.2.3"), Ok(CompOp::Eq));
}

#[test]
fn numeric_comparisons() {
    assert_eq!(VersionCompare::compare("1.2.3", "1.2.4"), Ok(CompOp::Lt));
    assert_eq!(VersionCompare::compare("123", "1.2.3"), Ok(CompOp::Gt));
    assert_eq!(VersionCompare::compare("2", "1.2.3.4"), Ok(CompOp::Gt));
    assert_eq!(VersionCompare::compare("1.09", "1.9"), Ok(CompOp::Eq));
}

#[test]
fn huge_numbers_compare_by_value() {
    // Tokens beyond the 32-bit range still compare numerically.
    assert_eq!(
        VersionCompare::compare("1.99999999999999999999", "1.100000000000000000000"),
        Ok(CompOp::Lt)
    );
    assert_eq!(
        VersionCompare::compare("1.18446744073709551616", "1.18446744073709551616"),
        Ok(CompOp::Eq)
    );
}

#[test]
fn invert_and_opposite() {
    assert_eq!(CompOp::Eq.invert(), CompOp::Ne);
    assert_eq!(CompOp::Lt.invert(), CompOp::Ge);
    assert_eq!(CompOp::Le.invert(), CompOp::Gt);
    assert_eq!(CompOp::Gt.invert(), CompOp::Le);
    assert_eq!(CompOp::Lt.opposite(), CompOp::Gt);
    assert_eq!(CompOp::Ge.opposite(), CompOp::Le);
    assert_eq!(CompOp::Eq.opposite(), CompOp::Ne);
}

#[test]
fn compare_to_inverse_operators() {
    let a = Version::from("1.2").unwrap();
    let b = Version::from("1.3.2").unwrap();
    assert!(a.compare_to(&b, &CompOp::Lt));
    assert!(!a.compare_to(&b, &CompOp::Lt.invert()));
    assert!(a.compare_to(&b, &CompOp::Le));
    assert!(!a.compare_to(&b, &CompOp::Le.invert()));
    let c = Version::from("1.2").unwrap();
    assert!(a.compare_to(&c, &CompOp::Eq));
    assert!(!a.compare_to(&c, &CompOp::Eq.invert()));
}

#[test]
fn alternate_parser_is_pluggable() {
    let v = Version::parse("1.2.3", &libronda::conda_parser).unwrap();
    assert_eq!(v.part_count(), 3);
    assert_eq!(v.as_str(), "1.2.3");
}

#[test]
fn unrecognized_words_rank_below_numbers() {
    assert_eq!(VersionCompare::compare("1.2.snapshot", "1.2.0"), Ok(CompOp::Lt));
    assert_eq!(VersionCompare::compare("1.2.snapshot", "1.2.snapshot"), Ok(CompOp::Eq));
    assert_eq!(VersionCompare::compare("1.2.aardvark", "1.2.snapshot"), Ok(CompOp::Lt));
}

#[test]
fn marker_aliases_rank_equal() {
    assert_eq!(VersionCompare::compare("1.0a1", "1.0alpha1"), Ok(CompOp::Eq));
    assert_eq!(VersionCompare::compare("1.0b2", "1.0beta2"), Ok(CompOp::Eq));
    assert_eq!(VersionCompare::compare("1.0rc1", "1.0c1"), Ok(CompOp::Eq));
    assert_eq!(VersionCompare::compare("1.0post1", "1.0rev1"), Ok(CompOp::Eq));
}
