//! The game `ap`.

use vstd::prelude::*;

verus! {

/// The title of the window of the game.
pub const WINDOW_TITLE: &'static str = "AzurPromilia";

/// The argument with which the program of the game is started.
pub const LAUNCH_ARGUMENT: &'static str = "-start=azurpromilia_launcher";

} // verus!
