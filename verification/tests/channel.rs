//! What is asked of the channel, and how a failure is described.

use tinyruntime_python::distribution::{failure_message, release_url};

const API: &str = "https://api.github.com/repos/astral-sh/python-build-standalone/releases";

#[test]
fn an_unpinned_request_asks_for_the_current_release() {
    assert_eq!(release_url(API, None), format!("{API}/latest"));
}

#[test]
fn a_pinned_release_tag_is_requested_by_name() {
    assert_eq!(
        release_url(API, Some("20240909")),
        format!("{API}/tags/20240909")
    );
}

#[test]
fn a_failure_is_described_by_its_first_kind_without_the_address() {
    assert_eq!(
        failure_message(true, true, Some("404 Not Found"), true),
        "the request timed out"
    );
    assert_eq!(
        failure_message(false, true, None, false),
        "the connection could not be established"
    );
    assert_eq!(
        failure_message(false, false, Some("404 Not Found"), true),
        "the channel answered with status 404 Not Found"
    );
    assert_eq!(
        failure_message(false, false, None, true),
        "the index was not in the expected shape"
    );
    assert_eq!(failure_message(false, false, None, false), "the request failed");
}
