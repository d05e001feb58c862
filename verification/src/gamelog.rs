//! The game's append-only message log.

use vstd::prelude::*;

verus! {

/// An append-only ordered sequence of user-facing messages.
pub struct GameLog {
    pub entries: Vec<String>,
}

impl GameLog {
    /// An empty log.
    pub fn new() -> (r: GameLog)
        ensures
            r.entries@ == Seq::<String>::empty(),
    {
        GameLog { entries: Vec::new() }
    }

    /// Append one message; earlier entries are never changed.
    pub fn log(&mut self, msg: String)
        ensures
            final(self).entries@ == old(self).entries@.push(msg),
    {
        self.entries.push(msg);
    }
}

} // verus!
