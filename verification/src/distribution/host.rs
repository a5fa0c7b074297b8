//! Which standalone Python build a machine takes.
//!
//! A plain table of host triples, because it is only correct by matching what
//! the channel actually publishes. A machine missing from it is one with no
//! standalone build, and saying so is better than guessing a filename.

use vstd::prelude::*;

use crate::error::{Error, ErrorView};
use crate::text::{chars_of, seq_eq};

verus! {

/// The asset suffix the channel publishes for an operating system and
/// architecture, as Rust names them.
pub open spec fn spec_suffix(os: Seq<char>, arch: Seq<char>) -> Option<Seq<char>> {
    if os == "macos"@ && arch == "aarch64"@ {
        Some("aarch64-apple-darwin-install_only.tar.gz"@)
    } else if os == "macos"@ && arch == "x86_64"@ {
        Some("x86_64-apple-darwin-install_only.tar.gz"@)
    } else if os == "linux"@ && arch == "aarch64"@ {
        Some("aarch64-unknown-linux-gnu-install_only.tar.gz"@)
    } else if os == "linux"@ && arch == "x86_64"@ {
        Some("x86_64-unknown-linux-gnu-install_only.tar.gz"@)
    } else if os == "windows"@ && arch == "aarch64"@ {
        Some("aarch64-pc-windows-msvc-install_only.tar.gz"@)
    } else if os == "windows"@ && arch == "x86_64"@ {
        Some("x86_64-pc-windows-msvc-install_only.tar.gz"@)
    } else {
        None
    }
}

fn is(text: &Vec<char>, literal: &str) -> (r: bool)
    ensures
        r == (text@ == literal@),
{
    seq_eq(text, &chars_of(literal))
}

/// The asset suffix for a named operating system and architecture.
///
/// Fails with [`Error::UnsupportedHost`], naming both, for a combination the
/// channel does not publish.
pub fn suffix_for(os: &str, arch: &str) -> (r: Result<&'static str, Error>)
    ensures
        match r {
            Ok(suffix) => spec_suffix(os@, arch@) == Some(suffix@),
            Err(e) => spec_suffix(os@, arch@) is None && e@ == (ErrorView::UnsupportedHost {
                os: os@,
                arch: arch@,
            }),
        },
{
    let o = chars_of(os);
    let a = chars_of(arch);
    if is(&o, "macos") && is(&a, "aarch64") {
        Ok("aarch64-apple-darwin-install_only.tar.gz")
    } else if is(&o, "macos") && is(&a, "x86_64") {
        Ok("x86_64-apple-darwin-install_only.tar.gz")
    } else if is(&o, "linux") && is(&a, "aarch64") {
        Ok("aarch64-unknown-linux-gnu-install_only.tar.gz")
    } else if is(&o, "linux") && is(&a, "x86_64") {
        Ok("x86_64-unknown-linux-gnu-install_only.tar.gz")
    } else if is(&o, "windows") && is(&a, "aarch64") {
        Ok("aarch64-pc-windows-msvc-install_only.tar.gz")
    } else if is(&o, "windows") && is(&a, "x86_64") {
        Ok("x86_64-pc-windows-msvc-install_only.tar.gz")
    } else {
        Err(Error::UnsupportedHost { os: os.to_owned(), arch: arch.to_owned() })
    }
}

} // verus!
