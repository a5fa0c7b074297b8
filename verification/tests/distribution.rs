//! Standalone build selection.

use tinyruntime_python::distribution::{
    select_for_suffix, select_from, suffix_for, ArchiveFormat, Asset, Release,
};
use tinyruntime_python::Error;

/// The Linux x86-64 suffix, which the fixtures below are written against.
const LINUX: &str = "x86_64-unknown-linux-gnu-install_only.tar.gz";

/// The host that suffix is published for.
const OS: &str = "linux";
const ARCH: &str = "x86_64";

fn asset(name: &str, url: &str, digest: Option<&str>) -> Asset {
    Asset {
        name: name.to_string(),
        browser_download_url: url.to_string(),
        digest: digest.map(str::to_string),
    }
}

/// A release index shaped like the real one, including the assets that must be
/// ignored and the near-miss hosts that must not match.
fn release() -> Release {
    Release {
        tag_name: "20240909".to_string(),
        assets: vec![
            asset(
                "cpython-3.12.4+20240909-x86_64-unknown-linux-gnu-install_only.tar.gz",
                "https://example.invalid/3.12.4-full",
                Some("sha256:aa"),
            ),
            asset(
                "cpython-3.12.4+20240909-x86_64-unknown-linux-gnu-install_only_stripped.tar.gz",
                "https://example.invalid/3.12.4-stripped",
                Some("sha256:bb"),
            ),
            asset(
                "cpython-3.13.1+20240909-x86_64-unknown-linux-gnu-install_only.tar.gz",
                "https://example.invalid/3.13.1",
                Some("sha256:cc"),
            ),
            asset(
                "cpython-3.15.0rc1+20240909-x86_64-unknown-linux-gnu-install_only.tar.gz",
                "https://example.invalid/3.15.0rc1",
                Some("sha256:dd"),
            ),
            asset(
                "cpython-3.13.1+20240909-aarch64-apple-darwin-install_only.tar.gz",
                "https://example.invalid/darwin",
                Some("sha256:ee"),
            ),
            asset(
                "cpython-3.13.1+20240909-x86_64-unknown-linux-gnu-debug-full.tar.zst",
                "https://example.invalid/debug",
                Some("sha256:ff"),
            ),
            asset("SHA256SUMS", "https://example.invalid/sums", None),
        ],
    }
}

#[test]
fn the_newest_build_within_the_bounds_is_chosen() {
    let chosen = select_from(&release(), "3.12", Some("3.15"), OS, ARCH).expect("a build matches");
    assert_eq!(chosen.version, "3.13.1");
    assert_eq!(chosen.expected_sha256.as_deref(), Some("cc"));
}

#[test]
fn a_stripped_build_wins_a_tie_with_a_full_one() {
    let chosen = select_from(&release(), "3.12", Some("3.13"), OS, ARCH).expect("a build matches");
    assert!(
        chosen.archive_name.contains("install_only_stripped"),
        "chose {}",
        chosen.archive_name
    );
    assert_eq!(chosen.expected_sha256.as_deref(), Some("bb"));
}

#[test]
fn an_exclusive_ceiling_keeps_selection_off_a_pre_release_series() {
    let bounded = select_from(&release(), "3.12", Some("3.15"), OS, ARCH).unwrap();
    assert_eq!(bounded.version, "3.13.1");

    let unbounded = select_from(&release(), "3.12", None, OS, ARCH).unwrap();
    assert_eq!(
        unbounded.version, "3.15.0",
        "the ceiling was doing the work"
    );
}

#[test]
fn builds_for_another_host_are_not_considered() {
    let chosen = select_from(&release(), "3.12", Some("3.15"), OS, ARCH).unwrap();
    assert!(
        !chosen.archive_name.contains("darwin"),
        "chose {}",
        chosen.archive_name
    );
}

#[test]
fn artifacts_that_are_not_a_runnable_interpreter_are_ignored() {
    let chosen = select_from(&release(), "3.12", None, OS, ARCH).unwrap();
    assert!(chosen.archive_name.contains("install_only"));
    assert!(chosen.archive_name.ends_with(".tar.gz"));
}

#[test]
fn the_install_directory_is_named_from_the_asset_not_the_archive() {
    let chosen = select_from(&release(), "3.12", Some("3.15"), OS, ARCH).unwrap();
    assert_eq!(
        chosen.install_dir_name,
        "cpython-3.13.1+20240909-x86_64-unknown-linux-gnu-install_only"
    );
    assert_ne!(chosen.install_dir_name, "python");
}

#[test]
fn a_floor_nothing_reaches_is_a_distinct_failure_from_an_unreadable_index() {
    let error = select_from(&release(), "3.99", None, OS, ARCH).expect_err("nothing is that new");
    let Error::NoMatchingBuild { release, bounds } = &error else {
        panic!("got {error:?}");
    };
    assert_eq!(release, "20240909");
    assert!(
        bounds.contains("3.99"),
        "the bounds that excluded everything are named"
    );
}

#[test]
fn a_bound_that_is_not_a_version_is_refused_by_name() {
    let error = select_from(&release(), "latest", None, OS, ARCH).expect_err("refused");
    assert!(matches!(
        error,
        Error::InvalidVersion {
            bound: "minimum",
            ..
        }
    ));

    let error = select_from(&release(), "3.12", Some("nonsense"), OS, ARCH).expect_err("refused");
    assert!(matches!(
        error,
        Error::InvalidVersion {
            bound: "maximum",
            ..
        }
    ));
}

#[test]
fn a_release_with_no_digest_still_selects() {
    let release = Release {
        tag_name: "20240909".to_string(),
        assets: vec![asset(
            "cpython-3.12.4+20240909-x86_64-unknown-linux-gnu-install_only.tar.gz",
            "https://example.invalid/3.12.4",
            None,
        )],
    };
    let chosen = select_from(&release, "3.12", None, OS, ARCH).expect("a build matches");
    assert!(chosen.expected_sha256.is_none());
}

#[test]
fn every_platform_the_channel_publishes_for_is_in_the_table() {
    for (os, arch, expected) in [
        ("linux", "x86_64", LINUX),
        (
            "linux",
            "aarch64",
            "aarch64-unknown-linux-gnu-install_only.tar.gz",
        ),
        (
            "macos",
            "aarch64",
            "aarch64-apple-darwin-install_only.tar.gz",
        ),
        ("macos", "x86_64", "x86_64-apple-darwin-install_only.tar.gz"),
        (
            "windows",
            "x86_64",
            "x86_64-pc-windows-msvc-install_only.tar.gz",
        ),
    ] {
        assert_eq!(
            suffix_for(os, arch).unwrap_or_else(|_| panic!("{os}/{arch} is missing")),
            expected
        );
    }
}

#[test]
fn a_host_the_channel_does_not_publish_for_is_refused_by_name() {
    let error = suffix_for("plan9", "x86_64").expect_err("no build exists");
    assert!(error.to_string().contains("plan9"), "got `{}`", error.to_string());
}

#[test]
fn windows_on_arm_is_in_the_table_and_a_near_miss_is_not() {
    assert_eq!(
        suffix_for("windows", "aarch64").unwrap(),
        "aarch64-pc-windows-msvc-install_only.tar.gz"
    );
    assert!(suffix_for("Linux", "x86_64").is_err());
    assert!(suffix_for("linux", "x86").is_err());
    let Err(Error::UnsupportedHost { os, arch }) = suffix_for("linux", "riscv64") else {
        panic!("riscv64 has no build");
    };
    assert_eq!((os.as_str(), arch.as_str()), ("linux", "riscv64"));
}

#[test]
fn the_whole_distribution_is_filled_from_the_chosen_asset() {
    let chosen = select_from(&release(), "3.12", Some("3.13"), OS, ARCH).unwrap();
    assert_eq!(chosen.version, "3.12.4");
    assert_eq!(
        chosen.archive_name,
        "cpython-3.12.4+20240909-x86_64-unknown-linux-gnu-install_only_stripped.tar.gz"
    );
    assert_eq!(chosen.url, "https://example.invalid/3.12.4-stripped");
    assert_eq!(chosen.format, ArchiveFormat::TarGz);
    assert_eq!(
        chosen.install_dir_name,
        "cpython-3.12.4+20240909-x86_64-unknown-linux-gnu-install_only_stripped"
    );
}

#[test]
fn of_builds_that_rank_alike_the_first_in_the_index_wins() {
    let name = "cpython-3.12.4+20240909-x86_64-unknown-linux-gnu-install_only.tar.gz";
    let release = Release {
        tag_name: "20240909".to_string(),
        assets: vec![
            asset(name, "https://example.invalid/first", None),
            asset(name, "https://example.invalid/second", None),
        ],
    };
    let chosen = select_from(&release, "3.12", None, OS, ARCH).unwrap();
    assert_eq!(chosen.url, "https://example.invalid/first");
}

#[test]
fn the_name_breaks_a_tie_whatever_the_index_order() {
    let later = "cpython-3.12.4+20240910-x86_64-unknown-linux-gnu-install_only.tar.gz";
    let earlier = "cpython-3.12.4+20240909-x86_64-unknown-linux-gnu-install_only.tar.gz";
    for assets in [
        vec![asset(later, "later", None), asset(earlier, "earlier", None)],
        vec![asset(earlier, "earlier", None), asset(later, "later", None)],
    ] {
        let release = Release {
            tag_name: "t".to_string(),
            assets,
        };
        let chosen = select_from(&release, "3.12", None, OS, ARCH).unwrap();
        assert_eq!(chosen.url, "earlier");
    }
}

#[test]
fn a_digest_in_another_algorithm_is_not_taken_for_a_sha256() {
    let release = Release {
        tag_name: "t".to_string(),
        assets: vec![asset(
            "cpython-3.12.4+20240909-x86_64-unknown-linux-gnu-install_only.tar.gz",
            "u",
            Some("md5:aa"),
        )],
    };
    let chosen = select_from(&release, "3.12", None, OS, ARCH).unwrap();
    assert_eq!(chosen.expected_sha256, None);
}

#[test]
fn the_bounds_are_rendered_with_the_ceiling_as_it_takes_effect() {
    let error = select_from(&release(), "3.99", Some(" 3.100 "), OS, ARCH).unwrap_err();
    let Error::NoMatchingBuild { bounds, .. } = &error else {
        panic!("got {error:?}");
    };
    assert_eq!(bounds, ">= 3.99 and < 3.100");

    let error = select_from(&release(), "3.99", Some("  "), OS, ARCH).unwrap_err();
    let Error::NoMatchingBuild { bounds, .. } = &error else {
        panic!("got {error:?}");
    };
    assert_eq!(bounds, ">= 3.99");
}

#[test]
fn an_invalid_ceiling_is_reported_trimmed() {
    let error = select_from(&release(), "3.12", Some("  nonsense "), OS, ARCH).unwrap_err();
    let Error::InvalidVersion { value, bound } = &error else {
        panic!("got {error:?}");
    };
    assert_eq!((value.as_str(), *bound), ("nonsense", "maximum"));

    let error = select_from(&release(), " latest", None, OS, ARCH).unwrap_err();
    let Error::InvalidVersion { value, bound } = &error else {
        panic!("got {error:?}");
    };
    assert_eq!((value.as_str(), *bound), (" latest", "minimum"));
}

#[test]
fn a_release_with_nothing_for_this_host_is_an_unsupported_host() {
    let empty = Release {
        tag_name: "20240909".to_string(),
        assets: Vec::new(),
    };
    let error = select_from(&empty, "3.12", None, OS, ARCH).unwrap_err();
    let Error::UnsupportedHost { os, arch } = &error else {
        panic!("got {error:?}");
    };
    assert_eq!((os.as_str(), arch.as_str()), (OS, ARCH));

    // Builds for another host, and a debug archive for this one, are not
    // something this machine can install.
    let elsewhere = Release {
        tag_name: "20240909".to_string(),
        assets: vec![
            asset(
                "cpython-3.13.1+20240909-aarch64-apple-darwin-install_only.tar.gz",
                "d",
                None,
            ),
            asset(
                "cpython-3.13.1+20240909-x86_64-unknown-linux-gnu-debug-full.tar.zst",
                "z",
                None,
            ),
        ],
    };
    assert!(matches!(
        select_from(&elsewhere, "3.12", None, OS, ARCH),
        Err(Error::UnsupportedHost { .. })
    ));

    // The same release does hold a build for macOS on arm.
    let chosen = select_from(&elsewhere, "3.12", None, "macos", "aarch64").unwrap();
    assert_eq!(chosen.url, "d");
}

#[test]
fn a_host_missing_from_the_table_is_refused_before_the_bounds_are_read() {
    let error = select_from(&release(), "latest", None, "plan9", "x86_64").unwrap_err();
    let Error::UnsupportedHost { os, arch } = &error else {
        panic!("got {error:?}");
    };
    assert_eq!((os.as_str(), arch.as_str()), ("plan9", "x86_64"));
}

#[test]
fn builds_for_this_host_that_the_bounds_exclude_are_no_matching_build() {
    let release = Release {
        tag_name: "20240909".to_string(),
        assets: vec![asset(
            "cpython-3.11.9+20240909-x86_64-unknown-linux-gnu-install_only_stripped.tar.gz",
            "u",
            None,
        )],
    };
    let error = select_from(&release, "3.12", None, OS, ARCH).unwrap_err();
    let Error::NoMatchingBuild { release, bounds } = &error else {
        panic!("got {error:?}");
    };
    assert_eq!((release.as_str(), bounds.as_str()), ("20240909", ">= 3.12"));
}

#[test]
fn the_order_of_the_index_does_not_change_the_choice() {
    let forward = release();
    let mut backward = release();
    backward.assets.reverse();
    for (minimum, maximum) in [("3.12", Some("3.15")), ("3.12", Some("3.13")), ("3.12", None)] {
        let a = select_from(&forward, minimum, maximum, OS, ARCH).unwrap();
        let b = select_from(&backward, minimum, maximum, OS, ARCH).unwrap();
        assert_eq!(a.archive_name, b.archive_name);
        assert_eq!(a.url, b.url);
        assert_eq!(a.expected_sha256, b.expected_sha256);
    }
}

/// A host suffix outside the table, with both spellings of one build.
const OTHER: &str = "x-install_only.tar.gz";

fn other_release() -> Release {
    Release {
        tag_name: "1".to_string(),
        assets: vec![
            asset("cpython-3.12.4+1-x-install_only.tar.gz", "u1", Some("sha256:aa")),
            asset(
                "cpython-3.12.4+1-x-install_only_stripped.tar.gz",
                "u2",
                Some("sha256:bb"),
            ),
        ],
    }
}

#[test]
fn any_suffix_can_be_selected_for_and_a_stripped_build_still_wins_a_tie() {
    let chosen = select_for_suffix(&other_release(), "3.12", Some("3.13"), OTHER)
        .expect("the bounds are versions")
        .expect("a build matches");
    assert_eq!(chosen.version, "3.12.4");
    assert_eq!(
        chosen.archive_name,
        "cpython-3.12.4+1-x-install_only_stripped.tar.gz"
    );
    assert_eq!(chosen.expected_sha256.as_deref(), Some("bb"));
    assert_eq!(
        chosen.install_dir_name,
        "cpython-3.12.4+1-x-install_only_stripped"
    );
    assert_eq!(chosen.url, "u2");
}

#[test]
fn selecting_for_a_suffix_names_each_outcome() {
    assert!(matches!(
        select_for_suffix(&other_release(), "latest", None, OTHER),
        Err(Error::InvalidVersion { bound: "minimum", .. })
    ));
    assert!(matches!(
        select_for_suffix(&other_release(), "3.12", Some(" nonsense "), OTHER),
        Err(Error::InvalidVersion { bound: "maximum", .. })
    ));
    let error = select_for_suffix(&other_release(), "3.13", Some("3.15"), OTHER).unwrap_err();
    let Error::NoMatchingBuild { release, bounds } = &error else {
        panic!("got {error:?}");
    };
    assert_eq!((release.as_str(), bounds.as_str()), ("1", ">= 3.13 and < 3.15"));
    // Nothing targets this suffix: the caller names the host.
    assert!(matches!(
        select_for_suffix(&other_release(), "3.12", None, LINUX),
        Ok(None)
    ));
}

#[test]
fn selecting_for_a_suffix_does_not_depend_on_the_order_of_the_index() {
    let forward = other_release();
    let mut backward = other_release();
    backward.assets.reverse();
    let a = select_for_suffix(&forward, "3.12", None, OTHER).unwrap().unwrap();
    let b = select_for_suffix(&backward, "3.12", None, OTHER).unwrap().unwrap();
    assert_eq!((a.archive_name, a.url), (b.archive_name, b.url));
}

#[test]
fn the_host_entry_point_agrees_with_selection_for_its_suffix() {
    for (minimum, maximum) in [("3.12", Some("3.15")), ("3.12", None), ("3.12", Some("3.13"))] {
        let by_host = select_from(&release(), minimum, maximum, OS, ARCH).unwrap();
        let by_suffix = select_for_suffix(&release(), minimum, maximum, LINUX)
            .unwrap()
            .unwrap();
        assert_eq!(by_host.archive_name, by_suffix.archive_name);
        assert_eq!(by_host.version, by_suffix.version);
    }
}
