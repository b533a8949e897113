use std::cmp::Ordering;
use xpm::version::{vercmp, Version};

#[test]
fn test_version_comparison() {
    let v1 = Version::new("1.0.0-1");
    let v2 = Version::new("1.0.1-1");
    let v3 = Version::new("1:0.5.0-1");
    let v4 = Version::new("2.0.0-1");

    assert!(v1 < v2);
    assert!(v2 < v4);
    assert!(v3 > v4); // Epoch takes precedence.
    assert!(v1 == Version::new("1.0.0-1"));
}

#[test]
fn test_version_parsing() {
    let v = Version::new("1:2.3.4-5");
    assert_eq!(v.epoch, Some(1));
    assert_eq!(v.pkgver, "2.3.4");
    assert_eq!(v.pkgrel, "5");
}

#[test]
fn versions_without_epoch_or_release() {
    let v = Version::new("2.3.4");
    assert_eq!(v.epoch, None);
    assert_eq!(v.pkgver, "2.3.4");
    assert_eq!(v.pkgrel, "");
    assert_eq!(v.to_string(), "2.3.4");
}

#[test]
fn an_epoch_that_is_no_number_is_left_out() {
    let v = Version::new("x:1.0-2");
    assert_eq!(v.epoch, None);
    assert_eq!(v.pkgver, "1.0");
    assert_eq!(v.pkgrel, "2");
    assert_eq!(v.full, "x:1.0-2");
}

#[test]
fn segments_are_compared_as_numbers() {
    assert_eq!(vercmp("1.9", "1.10"), Ordering::Less);
    assert_eq!(vercmp("1.10", "1.9"), Ordering::Greater);
    assert_eq!(vercmp("1.0", "1.0"), Ordering::Equal);
}

#[test]
fn letters_are_compared_as_text() {
    assert_eq!(vercmp("1.a", "1.b"), Ordering::Less);
    assert_eq!(vercmp("1.0a", "1.0b"), Ordering::Less);
    assert_eq!(vercmp("1.0ä", "1.0ä"), Ordering::Equal);
    assert_eq!(vercmp("1.0äb", "1.0ä"), Ordering::Greater);
    assert_eq!(vercmp("1_0", "1.0"), Ordering::Equal);
}

#[test]
fn order_is_reflexive_antisymmetric_and_transitive() {
    let list = ["1.0-1", "1.0-2", "1.0.1-1", "1.10-1", "1:0.1-1", "2:0.0-1"];
    for i in 0..list.len() {
        for j in 0..list.len() {
            let a = Version::new(list[i]);
            let b = Version::new(list[j]);
            assert_eq!(a.cmp(&b), i.cmp(&j), "{} {}", list[i], list[j]);
            assert_eq!(a.cmp(&b), b.cmp(&a).reverse());
        }
    }
}

#[test]
fn a_higher_epoch_wins() {
    assert!(Version::new("1:0.1-1") > Version::new("999.9-9"));
    assert!(Version::new("2:0.1-1") > Version::new("1:999-1"));
}
