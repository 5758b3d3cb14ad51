//! The decisions of a desktop shell that owns the lifetime of a local
//! workbench host: where the host lives, whether a directory can be started,
//! what the shell says while it works, how it stops what it started, and the
//! scripts it hands to the page.
//!
//! Nothing here touches a window, a file or a process. The caller reads the
//! environment, the file system and the network, hands the answers in, and
//! carries out what comes back.

use vstd::prelude::*;

pub mod host;
pub mod json;
pub mod lifecycle;
pub mod path;
pub mod status;
pub mod text;
pub mod theme;
pub mod titlebar;

use crate::titlebar::{fullscreen_statement, injected_script, SCRIPT};

verus! {

/// The title-bar injection, so that another window can behave exactly like
/// the shell's.
pub fn titlebar_script() -> (s: String)
    ensures
        s@ == injected_script(SCRIPT@),
{
    titlebar::script()
}

/// Whether the window is fullscreen, said to the page.
pub fn fullscreen_script(on: bool) -> (s: String)
    ensures
        s@ == fullscreen_statement(on),
{
    titlebar::fullscreen_script(on)
}

} // verus!
