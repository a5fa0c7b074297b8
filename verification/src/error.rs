//! The crate-wide error type.
//!
//! A provider's failures are narrow by design: it answers questions and does
//! not install anything, so the things that can go wrong are a host it cannot
//! serve, a version bound that is not a version, and a release index it could
//! not read or that offered nothing suitable.
//!
//! Messages are lowercase and carry no credential, payload, or absolute path.
//! They travel to the router, which puts them in front of a person.

use vstd::prelude::*;
use vstd::string::StringExecFns;

verus! {

/// Everything this provider can fail with.
#[derive(Debug)]
#[non_exhaustive]
pub enum Error {
    /// The standalone Python channel publishes no build for this machine.
    UnsupportedHost {
        /// The operating system, as Rust names it.
        os: String,
        /// The architecture, as Rust names it.
        arch: String,
    },
    /// A configured version bound is not a version.
    InvalidVersion {
        /// What was configured.
        value: String,
        /// Which bound it was configured as.
        bound: &'static str,
    },
    /// The release index could not be read.
    IndexUnavailable(String),
    /// The release index was readable but held nothing this host can use.
    ///
    /// Distinct from [`Error::IndexUnavailable`] because it calls for a
    /// different response: the index is fine, and the version bounds are what
    /// excluded everything in it.
    NoMatchingBuild {
        /// The release that was searched.
        release: String,
        /// The bounds that excluded everything, rendered for display.
        bounds: String,
    },
}

/// An [`Error`] with its text fields taken as character sequences.
pub enum ErrorView {
    UnsupportedHost { os: Seq<char>, arch: Seq<char> },
    InvalidVersion { value: Seq<char>, bound: Seq<char> },
    IndexUnavailable(Seq<char>),
    NoMatchingBuild { release: Seq<char>, bounds: Seq<char> },
}

impl View for Error {
    type V = ErrorView;

    open spec fn view(&self) -> ErrorView {
        match self {
            Error::UnsupportedHost { os, arch } => ErrorView::UnsupportedHost {
                os: os@,
                arch: arch@,
            },
            Error::InvalidVersion { value, bound } => ErrorView::InvalidVersion {
                value: value@,
                bound: bound@,
            },
            Error::IndexUnavailable(reason) => ErrorView::IndexUnavailable(reason@),
            Error::NoMatchingBuild { release, bounds } => ErrorView::NoMatchingBuild {
                release: release@,
                bounds: bounds@,
            },
        }
    }
}

/// The message an error is displayed with.
pub open spec fn message(e: ErrorView) -> Seq<char> {
    match e {
        ErrorView::UnsupportedHost { os, arch } => "no standalone python build is published for "@
            + os + "/"@ + arch,
        ErrorView::InvalidVersion { value, bound } => "`"@ + value + "` is not a python version ("@
            + bound + ")"@,
        ErrorView::IndexUnavailable(reason) =>
            "the standalone python release index could not be read: "@ + reason,
        ErrorView::NoMatchingBuild { release, bounds } => "the standalone python release `"@
            + release + "` publishes no build matching "@ + bounds,
    }
}

/// The field an error's message ends with, where one does.
pub open spec fn trailing_field(e: ErrorView) -> Seq<char> {
    match e {
        ErrorView::UnsupportedHost { arch, .. } => arch,
        ErrorView::InvalidVersion { .. } => Seq::empty(),
        ErrorView::IndexUnavailable(reason) => reason,
        ErrorView::NoMatchingBuild { bounds, .. } => bounds,
    }
}

impl Error {
    /// The message this error is displayed with.
    pub fn to_string(&self) -> (r: String)
        ensures
            r@ == message(self@),
    {
        let mut out = String::new();
        match self {
            Error::UnsupportedHost { os, arch } => {
                out.append("no standalone python build is published for ");
                out.append(os.as_str());
                out.append("/");
                out.append(arch.as_str());
            },
            Error::InvalidVersion { value, bound } => {
                out.append("`");
                out.append(value.as_str());
                out.append("` is not a python version (");
                out.append(bound);
                out.append(")");
            },
            Error::IndexUnavailable(reason) => {
                out.append("the standalone python release index could not be read: ");
                out.append(reason.as_str());
            },
            Error::NoMatchingBuild { release, bounds } => {
                out.append("the standalone python release `");
                out.append(release.as_str());
                out.append("` publishes no build matching ");
                out.append(bounds.as_str());
            },
        }
        out
    }
}

/// Every message starts with a lowercase letter or a backtick, and ends in a
/// full stop only when the field it ends with does: the messages themselves
/// add no capital and no closing punctuation.
pub proof fn lemma_messages_are_lowercase_and_unpunctuated(e: ErrorView)
    ensures
        message(e).len() > 0,
        message(e)[0] == 'n' || message(e)[0] == 't' || message(e)[0] == '`',
        (trailing_field(e).len() == 0 || trailing_field(e).last() != '.') ==> message(e).last()
            != '.',
{
    reveal_strlit("no standalone python build is published for ");
    reveal_strlit("/");
    reveal_strlit("`");
    reveal_strlit("` is not a python version (");
    reveal_strlit(")");
    reveal_strlit("the standalone python release index could not be read: ");
    reveal_strlit("the standalone python release `");
    reveal_strlit("` publishes no build matching ");
    let m = message(e);
    match e {
        ErrorView::UnsupportedHost { os, arch } => {
            let head = "no standalone python build is published for "@ + os + "/"@;
            assert(m == head + arch);
            assert(m[0] == head[0]);
            if arch.len() == 0 {
                assert(m =~= head);
            } else {
                assert(m.last() == arch.last());
            }
        },
        ErrorView::InvalidVersion { value, bound } => {
            let head = "`"@ + value + "` is not a python version ("@ + bound;
            assert(m == head + ")"@);
            assert(m[0] == head[0]);
        },
        ErrorView::IndexUnavailable(reason) => {
            let head = "the standalone python release index could not be read: "@;
            assert(m == head + reason);
            assert(m[0] == head[0]);
            if reason.len() == 0 {
                assert(m =~= head);
            } else {
                assert(m.last() == reason.last());
            }
        },
        ErrorView::NoMatchingBuild { release, bounds } => {
            let head = "the standalone python release `"@ + release
                + "` publishes no build matching "@;
            assert(m == head + bounds);
            assert(m[0] == head[0]);
            if bounds.len() == 0 {
                assert(m =~= head);
            } else {
                assert(m.last() == bounds.last());
            }
        },
    }
}

} // verus!
