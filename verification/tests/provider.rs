//! The provider's defaults.

use tinyruntime_python::{parse_version, DEFAULT_VERSION};

#[test]
fn the_default_floor_is_a_version() {
    assert!(parse_version(DEFAULT_VERSION).is_some());
}
