//! The game configuration as the command line delivers it.

use vstd::prelude::*;

verus! {

/// Board dimensions, mine count and life count, before they are turned
/// into a session configuration.
#[derive(Debug, Clone, Copy, PartialEq, Eq, Structural)]
pub struct Config {
    pub width: u32,
    pub height: u32,
    pub mines: u32,
    pub lives: u32,
}

impl Config {
    /// Relies on std's formatting machinery to render the configuration's
    /// two-line description.
    #[verifier::external_body]
    pub fn display_string(&self) -> String {
        format!(
            "Minefield: width = {}, height = {}.\nThere are {} mines and players have a combined total of {} lives.",
            self.width, self.height, self.mines, self.lives,
        )
    }
}

} // verus!
