//! Host interpreter detection decisions.

use tinyruntime_python::parse_version;
use tinyruntime_python::system::{
    accept_reported, candidates, detection_plan, executable_names_for, reported_version,
};
use tinyruntime_python::Version;

#[test]
fn the_series_specific_name_is_tried_before_the_generic_one() {
    let ordered = candidates(None, parse_version("3.12").unwrap());
    assert_eq!(ordered, vec!["python3.12", "python3", "python"]);
}

#[test]
fn a_preferred_command_is_tried_first() {
    let ordered = candidates(Some("/opt/py/bin/python3"), parse_version("3.12").unwrap());
    assert_eq!(ordered[0], "/opt/py/bin/python3");
    assert_eq!(ordered[1], "python3.12");
}

#[test]
fn a_preferred_command_that_is_already_a_fallback_is_not_repeated() {
    let ordered = candidates(Some("python3"), parse_version("3.12").unwrap());
    assert_eq!(ordered, vec!["python3", "python3.12", "python"]);
}

#[test]
fn the_series_name_follows_the_configured_floor() {
    let ordered = candidates(None, parse_version("3.14").unwrap());
    assert_eq!(ordered[0], "python3.14");
}

#[test]
fn a_preferred_series_name_is_not_repeated_either() {
    let ordered = candidates(Some("python3.12"), parse_version("3.12.7").unwrap());
    assert_eq!(ordered, vec!["python3.12", "python3", "python"]);
    let ordered = candidates(Some("python"), parse_version("3.9").unwrap());
    assert_eq!(ordered, vec!["python", "python3.9", "python3"]);
}

#[test]
fn standard_output_is_preferred_and_standard_error_is_the_fallback() {
    assert_eq!(
        reported_version(true, "Python 3.12.4\n", "ignored").as_deref(),
        Some("Python 3.12.4")
    );
    assert_eq!(
        reported_version(true, "  \n", " Python 2.7.18\n").as_deref(),
        Some("Python 2.7.18")
    );
}

#[test]
fn a_failed_or_silent_probe_reports_nothing() {
    assert_eq!(reported_version(false, "Python 3.12.4", ""), None);
    assert_eq!(reported_version(true, " ", "\n"), None);
}

#[test]
fn a_reported_version_is_accepted_only_within_the_bounds() {
    assert_eq!(
        accept_reported("Python 3.12.4", "3.12", None),
        Some(Version { major: 3, minor: 12, patch: 4 })
    );
    assert_eq!(accept_reported("Python 3.11.9", "3.12", None), None);
    assert_eq!(accept_reported("Python 3.15.0", "3.12", Some("3.15")), None);
    assert_eq!(accept_reported("not a version", "3.12", None), None);
    assert_eq!(accept_reported("Python 3.12.4", "latest", None), None);
}

#[test]
fn nothing_is_probed_when_the_floor_is_not_a_version() {
    assert_eq!(detection_plan(None, "latest"), None);
    assert_eq!(
        detection_plan(Some("/opt/py/bin/python3"), "3.13"),
        Some(vec![
            "/opt/py/bin/python3".to_string(),
            "python3.13".to_string(),
            "python3".to_string(),
            "python".to_string(),
        ])
    );
}

#[test]
fn a_bare_command_is_looked_for_as_itself_then_as_an_exe_on_windows() {
    assert_eq!(executable_names_for("python3", false), vec!["python3"]);
    assert_eq!(
        executable_names_for("python3", true),
        vec!["python3", "python3.exe"]
    );
}
