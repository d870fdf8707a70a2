//! What is known of this build.

use vstd::prelude::*;

verus! {

/// The version of the client.
pub const PKG_VERSION: &'static str = "0.1.0";

} // verus!
