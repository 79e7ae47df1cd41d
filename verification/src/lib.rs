//! Patch manifests for `.tangopatch` packages: the `manifest.toml` schema's
//! rules, the netplay compatibility strings, and the upgrade of legacy
//! format-1 manifests.
//!
//! Decoding TOML into these types and encoding them back is done at the
//! edge, by the caller; this crate checks and transforms the decoded values.

use vstd::prelude::*;

pub mod error;
pub mod manifest;
pub mod name;
pub mod overrides;
pub mod target;
pub mod text;
pub mod version;

pub use error::Error;
pub use manifest::{Compatibility, Manifest, EXTENSION, FORMAT};
pub use name::{validate_name, MAX_NAME_LEN};
pub use overrides::Overrides;
pub use target::RomTarget;
pub use version::Version;

verus! {

} // verus!
