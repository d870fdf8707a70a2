//! The routing and reliability core of a mix-network client.

use vstd::prelude::*;
use vstd::string::StringExecFns;
use crate::built_info::PKG_VERSION;

pub mod acknowledgements;
pub mod built_info;
pub mod chunking;
pub mod mix;
pub mod topology;
pub mod version_checker;

verus! {

/// What the banner says before the version.
pub const BANNER_HEAD: &'static str = "\n\n      _ __  _   _ _ __ ___\n     | '_ \\| | | | '_ \\ _ \\\n     | | | | |_| | | | | | |\n     |_| |_|\\__, |_| |_| |_|\n            |___/\n\n             (client - version ";

/// What the banner says after the version.
pub const BANNER_TAIL: &'static str = ")\n\n    ";

/// What the usage note adds to the banner.
pub const USAGE_HINT: &'static str = "usage: --help to see available options.\n\n";

/// The text of the banner: the name of the client, drawn, and its version.
pub open spec fn banner_text() -> Seq<char> {
    BANNER_HEAD@ + PKG_VERSION@ + BANNER_TAIL@
}

/// The banner, then a hint at the options.
pub fn usage() -> (text: String)
    ensures
        text@ == banner_text() + USAGE_HINT@,
{
    banner().concat(USAGE_HINT)
}

/// The banner that the client shows when it starts.
pub fn banner() -> (text: String)
    ensures
        text@ == banner_text(),
{
    let mut text = String::from_str(BANNER_HEAD);
    text.append(PKG_VERSION);
    text.append(BANNER_TAIL);
    text
}

} // verus!
