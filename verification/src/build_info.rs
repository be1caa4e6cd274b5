//! Compile-time UDS version metadata and startup banner rendering.

use vstd::prelude::*;

verus! {

/// The released UDS package version.
pub const VERSION: &'static str = "26.7.1";

/// The build number of this UDS release.
pub const BUILD: &'static str = "1";

/// The version string shown by the command-line parser.
pub const CLAP_VERSION: &'static str = "26.7.1 (build 1)";

/// The text of `display_version`: `UDS v{VERSION} (build {BUILD})`.
pub open spec fn spec_display_version() -> Seq<char> {
    "UDS v"@ + VERSION@ + " (build "@ + BUILD@ + ")"@
}

/// The text of the startup banner, with the version and build in its last text line.
pub open spec fn spec_banner() -> Seq<char> {
    BANNER_HEAD@ + VERSION@ + " · build "@ + BUILD@ + "\n\n"@
}

/// The fixed part of the banner that precedes the version.
pub const BANNER_HEAD: &'static str = "
    _   _ ____  ____
   | | | |  _ \\/ ___|
   | | | | | | \\___ \\
   | |_| | |_| |___) |
    \\___/|____/|____/

   MindWork AI Studio · Update Delivery System
   v";

/// Produces `UDS v{VERSION} (build {BUILD})`.
pub fn display_version() -> (res: String)
    ensures
        res@ == spec_display_version(),
{
    let mut res = String::from_str("UDS v");
    res.append(VERSION);
    res.append(" (build ");
    res.append(BUILD);
    res.append(")");
    res
}

/// The version string handed to the command-line parser.
pub fn clap_version() -> (res: String)
    ensures
        res@ == CLAP_VERSION@,
{
    CLAP_VERSION.to_owned()
}

/// The ASCII-art startup banner naming the product, version and build.
pub fn banner() -> (res: String)
    ensures
        res@ == spec_banner(),
{
    let mut res = String::from_str(BANNER_HEAD);
    res.append(VERSION);
    res.append(" · build ");
    res.append(BUILD);
    res.append("\n\n");
    res
}

/// Whether the banner is written: only when standard output is a terminal.
pub fn should_print_banner(stdout_is_terminal: bool) -> (res: bool)
    ensures
        res == stdout_is_terminal,
{
    stdout_is_terminal
}

} // verus!
