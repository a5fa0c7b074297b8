//! Python version handling.

use tinyruntime_python::{parse_version, satisfies, Version};

fn version(raw: &str) -> Version {
    parse_version(raw).unwrap_or_else(|| panic!("`{raw}` should parse"))
}

#[test]
fn every_spelling_that_turns_up_in_practice_parses() {
    assert_eq!(version("Python 3.12.4").to_string(), "3.12.4");
    assert_eq!(version("3.12.4").to_string(), "3.12.4");
    assert_eq!(version("  Python 3.12.4\n").to_string(), "3.12.4");
}

#[test]
fn a_series_with_no_patch_reads_as_the_first_release_of_it() {
    assert_eq!(version("3.12").to_string(), "3.12.0");
}

#[test]
fn a_release_candidate_parses_as_its_series() {
    assert_eq!(version("3.13.0rc1").to_string(), "3.13.0");
    assert_eq!(version("3.13.2b1").to_string(), "3.13.2");
}

#[test]
fn something_that_is_not_a_version_does_not_parse() {
    assert_eq!(parse_version("latest"), None);
    assert_eq!(
        parse_version("3"),
        None,
        "a bare major is not a python version"
    );
    assert_eq!(parse_version(""), None);
}

#[test]
fn versions_order_by_component_rather_than_lexically() {
    assert!(version("3.12.0") > version("3.9.20"));
    assert!(version("3.12.10") > version("3.12.9"));
    assert!(version("4.0.0") > version("3.99.99"));
}

#[test]
fn a_request_names_a_floor_rather_than_an_exact_version() {
    assert!(satisfies(version("3.12.4"), "3.12", None));
    assert!(
        satisfies(version("3.13.1"), "3.12", None),
        "newer satisfies a floor"
    );
    assert!(!satisfies(version("3.11.9"), "3.12", None));
}

#[test]
fn an_exclusive_ceiling_keeps_selection_off_a_newer_series() {
    assert!(satisfies(version("3.14.1"), "3.12", Some("3.15")));
    assert!(!satisfies(version("3.15.0"), "3.12", Some("3.15")));
    assert!(
        !satisfies(version("3.15.0"), "3.12", Some("3.15")),
        "the ceiling is exclusive, so 3.15.0 itself is out"
    );
}

#[test]
fn a_blank_ceiling_is_no_ceiling() {
    assert!(satisfies(version("3.99.0"), "3.12", Some("")));
    assert!(satisfies(version("3.99.0"), "3.12", Some("   ")));
    assert!(satisfies(version("3.99.0"), "3.12", None));
}

#[test]
fn a_floor_that_is_not_a_version_accepts_nothing() {
    assert!(!satisfies(version("3.12.4"), "latest", None));
}

#[test]
fn a_ceiling_that_is_not_a_version_accepts_nothing() {
    assert!(!satisfies(version("3.12.4"), "3.12", Some("nonsense")));
}

#[test]
fn a_rendered_version_parses_back_to_itself() {
    for v in [
        Version { major: 0, minor: 0, patch: 0 },
        Version { major: 3, minor: 12, patch: 4 },
        Version { major: 4_294_967_295, minor: 10, patch: 1_000_000 },
    ] {
        assert_eq!(parse_version(&v.to_string()), Some(v));
    }
}

#[test]
fn the_rendering_is_major_minor_patch_without_padding() {
    let v = Version { major: 3, minor: 9, patch: 20 };
    assert_eq!(v.to_string(), "3.9.20");
    let v = Version { major: 10, minor: 0, patch: 105 };
    assert_eq!(v.to_string(), "10.0.105");
}

#[test]
fn a_component_parses_as_an_unsigned_integer_would() {
    // A leading plus sign is accepted, as `str::parse` accepts it.
    assert_eq!(
        parse_version("+3.+12"),
        Some(Version { major: 3, minor: 12, patch: 0 })
    );
    // A minus sign is not, and neither is a value past `u32::MAX`.
    assert_eq!(parse_version("-3.12"), None);
    assert_eq!(parse_version("4294967296.1"), None);
    assert_eq!(parse_version("3."), None);
    assert_eq!(parse_version(".12"), None);
}

#[test]
fn a_patch_that_cannot_be_read_is_zero() {
    assert_eq!(version("3.12.x").to_string(), "3.12.0");
    assert_eq!(version("3.12.").to_string(), "3.12.0");
    assert_eq!(version("3.12.99999999999").to_string(), "3.12.0");
    assert_eq!(version("3.12.7.1").to_string(), "3.12.7");
}

#[test]
fn unicode_white_space_is_trimmed_like_str_trim() {
    assert_eq!(version("\u{3000}Python \u{a0}3.12.4\t").to_string(), "3.12.4");
    assert_eq!(parse_version("python 3.12.4"), None);
}

#[test]
fn a_ceiling_is_read_after_trimming() {
    assert!(satisfies(version("3.14.9"), "3.12", Some("  3.15 ")));
    assert!(!satisfies(version("3.15.0"), "3.12", Some("  3.15 ")));
}

#[test]
fn the_floor_itself_is_accepted() {
    assert!(satisfies(version("3.12.0"), "3.12", Some("3.13")));
    assert!(!satisfies(version("3.12.0"), "3.12", Some("3.12")));
}
