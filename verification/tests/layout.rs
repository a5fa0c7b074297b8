//! Where an install keeps its executables.

use tinyruntime_python::layout::{interpreter_names_for, interpreter_paths_for, pip_names_for};
use tinyruntime_python::Version;

const SERIES: Version = Version {
    major: 3,
    minor: 12,
    patch: 0,
};

#[test]
fn the_package_installer_is_named_per_platform() {
    assert_eq!(pip_names_for(true), vec!["pip.exe", "pip3.exe"]);
    assert_eq!(pip_names_for(false), vec!["pip3", "pip"]);
}

#[test]
fn the_interpreter_is_named_per_platform() {
    assert_eq!(interpreter_names_for(true, Some(SERIES)), vec!["python.exe"]);
    assert_eq!(interpreter_names_for(true, None), vec!["python.exe"]);
    assert_eq!(
        interpreter_names_for(false, Some(SERIES)),
        vec!["python3.12", "python3", "python"]
    );
    assert_eq!(interpreter_names_for(false, None), vec!["python3", "python"]);
}

#[test]
fn the_channels_python_directory_is_searched_before_the_install_itself() {
    assert_eq!(
        interpreter_paths_for(false, Some(SERIES)),
        vec![
            vec!["python", "bin", "python3.12"],
            vec!["python", "bin", "python3"],
            vec!["python", "bin", "python"],
            vec!["bin", "python3.12"],
            vec!["bin", "python3"],
            vec!["bin", "python"],
        ]
    );
    assert_eq!(
        interpreter_paths_for(false, None),
        vec![
            vec!["python", "bin", "python3"],
            vec!["python", "bin", "python"],
            vec!["bin", "python3"],
            vec!["bin", "python"],
        ]
    );
}

#[test]
fn the_windows_layout_has_no_bin_directory() {
    let paths = interpreter_paths_for(true, Some(SERIES));
    assert_eq!(paths, vec![vec!["python", "python.exe"], vec!["python.exe"]]);
    assert!(paths.iter().all(|path| !path.iter().any(|part| part == "bin")));
}
