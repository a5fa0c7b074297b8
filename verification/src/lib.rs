//! Python as a tinyruntime provider: what counts as a compatible version,
//! which standalone build a host takes, where an install keeps its
//! executables, and which host interpreters are worth probing.
//!
//! Nothing here downloads, installs or runs anything. The decisions are
//! stated and proved here; the probing, the network and the bus are the
//! caller's.

use vstd::prelude::*;

mod text;

pub mod distribution;
pub mod error;
pub mod layout;
pub mod system;
pub mod version;

pub use error::Error;
pub use version::{parse_version, satisfies, Version};

verus! {

/// The version floor a request carries when it names none.
pub const DEFAULT_VERSION: &'static str = "3.12";

} // verus!
