//! Choosing which standalone Python build to install.
//!
//! The channel is `astral-sh/python-build-standalone`, which publishes a set of
//! relocatable CPython builds per release rather than one archive per version.
//! Selection is therefore a search rather than a lookup: the index is filtered
//! to this host, filtered to the requested version range, and then ranked.
//!
//! Every build unpacks into a directory called `python`, regardless of
//! version, so the install directory is named from the asset rather than from
//! the archive's contents.

pub mod channel;
pub mod host;

pub use channel::{failure_message, release_url};
pub use host::suffix_for;
pub mod index;

pub use index::{
    select as select_from, select_for_suffix, ArchiveFormat, Asset, Distribution, Release,
};
