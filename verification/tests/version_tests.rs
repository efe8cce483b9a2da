use libronda::{CompOp, Version};

#[test]
fn compare_to_neq() {
    // Assert an exceptional case, compare to not equal
    assert!(Version::from("1.2")
        .unwrap()
        .compare_to(&Version::from("1.2.3").unwrap(), &CompOp::Ne,));
}

#[test]
fn display() {
    assert_eq!(Version::from("1.2.3").unwrap().as_str(), "1.2.3");
}

#[test]
fn debug() {
    assert_eq!(
        format!("{:?}", Version::from("1.2.3").unwrap().parts()),
        "[Integer(1), Integer(2), Integer(3)]",
    );
    assert_eq!(
        format!("{:#?}", Version::from("1.2.3").unwrap().parts()),
        "[\n    Integer(\n        1,\n    ),\n    Integer(\n        2,\n    ),\n    Integer(\n        3,\n    ),\n]",
    );
}

#[test]
fn partial_eq_neq() {
    // Assert an exceptional case, compare to not equal
    assert!(Version::from("1.2").unwrap() != Version::from("1.2.3").unwrap());
}

#[test]
fn version_test_less_specific_less_than_more_specific() {
    // 0.4 < 0.4.0
    let a = Version::from("0.4");
    let b = Version::from("0.4.0");
    assert_eq!(a == b, true);
}

#[test]
fn version_test_rc_greater_than_earlier_version_less_than_release() {
    // 0.4.0 < 0.4.1.rc < 0.4.1
    let a = Version::from("0.4.0");
    let b = Version::from("0.4.1.rc");
    let c = Version::from("0.4.1");
    assert_eq!(a < b, true);
    assert_eq!(b < c, true);
}

#[test]
fn version_test_case_insensitive_rc() {
    // 0.4.1.rc == 0.4.1.RC
    let a = Version::from("0.4.1.rc");
    let b = Version::from("0.4.1.RC");
    assert_eq!(a == b, true);
}

#[test]
fn version_test_lexicographical_sort_numbers() {
    // 0.5a1 < 0.5a2
    let a = Version::from("0.5a1");
    let b = Version::from("0.5a2");
    assert_eq!(a < b, true);
}

#[test]
fn version_test_lexicographical_sort() {
    // 0.5a2 < 0.5b1
    let a = Version::from("0.5a2");
    let b = Version::from("0.5b1");
    assert_eq!(a < b, true);
}

#[test]
fn version_test_dev_special_case_horribleness() {
    // 1.0 < 1.1dev1 < 1.1a1 < 1.1.0dev1 == 1.1.dev1
    let a = Version::from("1.0");
    let b = Version::from("1.1dev1");
    let c = Version::from("1.1a1");
    let d = Version::from("1.1.0dev1");
    let e = Version::from("1.1.dev1");
    assert_eq!(a < b, true);
    assert_eq!(b < c, true);
    assert_eq!(c < d, true);
    assert_eq!(d == e, true);
}

#[test]
fn version_test_rc_with_number() {
    let a = Version::from("1.1.dev1");
    let b = Version::from("1.1.a1");
    let c = Version::from("1.1.0rc1");
    let d = Version::from("1.1.0");
    assert_eq!(a < b, true);
    assert_eq!(b < c, true);
    assert_eq!(c < d, true);
}

#[test]
fn version_test_post_gt_release() {
    let a = Version::from("1.1.0");
    let b = Version::from("1.1.0post1");
    let c = Version::from("1996.07.12");
    assert_eq!(a == b, false);
    assert_eq!(a > b, false);
    assert_eq!(a < b, true);
    assert_eq!(b < c, true);
}

#[test]
fn version_test_epoch() {
    let a = Version::from("1996.07.12");
    let b = Version::from("1:0.4.1");
    let c = Version::from("1:3.4.1");
    let d = Version::from("2:0.4.1");
    assert_eq!(a < b, true);
    assert_eq!(b < c, true);
    assert_eq!(c < d, true);
}

#[test]
fn conda_test_less_specific_less_than_more_specific() {
    // 0.4 < 0.4.0
    let parts = libronda::conda_parser("0.4").unwrap();
    assert_eq!(parts.len(), 2);
}

#[test]
fn version_old_test_less_specific_less_than_more_specific() {
    // 0.4 < 0.4.0
    let a = Version::from("0.4");
    let b = Version::from("0.4.0");
    assert_eq!(a == b, true);
}

#[test]
fn version_old_test_rc_greater_than_earlier_version_less_than_release() {
    // 0.4.0 < 0.4.1.rc < 0.4.1
    let a = Version::from("0.4.0");
    let b = Version::from("0.4.1.rc");
    let c = Version::from("0.4.1");
    assert_eq!(a < b, true);
    assert_eq!(b < c, true);
}

#[test]
fn version_old_test_case_insensitive_rc() {
    // 0.4.1.rc == 0.4.1.RC
    let a = Version::from("0.4.1.rc");
    let b = Version::from("0.4.1.RC");
    assert_eq!(a == b, true);
}

#[test]
fn version_old_test_lexicographical_sort_numbers() {
    // 0.5a1 < 0.5a2
    let a = Version::from("0.5a1");
    let b = Version::from("0.5a2");
    assert_eq!(a < b, true);
}

#[test]
fn version_old_test_lexicographical_sort() {
    // 0.5a2 < 0.5b1
    let a = Version::from("0.5a2");
    let b = Version::from("0.5b1");
    assert_eq!(a < b, true);
}

#[test]
fn version_old_test_dev_special_case_horribleness() {
    // 1.0 < 1.1dev1 < 1.1a1 < 1.1.0dev1 == 1.1.dev1
    let a = Version::from("1.0");
    let b = Version::from("1.1dev1");
    let c = Version::from("1.1a1");
    let d = Version::from("1.1.0dev1");
    let e = Version::from("1.1.dev1");
    assert_eq!(a < b, true);
    assert_eq!(b < c, true);
    assert_eq!(c < d, true);
    assert_eq!(d == e, true);
}

#[test]
fn version_old_test_rc_with_number() {
    let a = Version::from("1.1.dev1");
    let b = Version::from("1.1.a1");
    let c = Version::from("1.1.0rc1");
    let d = Version::from("1.1.0");
    assert_eq!(a < b, true);
    assert_eq!(b < c, true);
    assert_eq!(c < d, true);
}

#[test]
fn version_old_test_post_gt_release() {
    let a = Version::from("1.1.0");
    let b = Version::from("1.1.0post1");
    let c = Version::from("1996.07.12");
    assert_eq!(a == b, false);
    assert_eq!(a > b, false);
    assert_eq!(a < b, true);
    assert_eq!(b < c, true);
}

#[test]
fn version_old_test_epoch() {
    let a = Version::from("1996.07.12");
    let b = Version::from("1:0.4.1");
    let c = Version::from("1:3.4.1");
    let d = Version::from("2:0.4.1");
    assert_eq!(a < b, true);
    assert_eq!(b < c, true);
    assert_eq!(c < d, true);
}
