//! The movement log of a worker: the name of its file and the text of its
//! entries. Writing them is left to the caller.

use vstd::prelude::*;
use vstd::string::StringExecFns;
use crate::player::Position;
use crate::text::{signed_decimal, signed_decimal_of};

verus! {

/// The movement log of one worker.
#[derive(Debug, Clone, PartialEq, Eq)]
pub struct MovementLog {
    pub player_name: String,
}

/// The name of the log file of the worker `player_name`.
pub open spec fn log_file_name(player_name: Seq<char>) -> Seq<char> {
    player_name + "_movements.log"@
}

/// The log entry for a move `movement` that ended on the cell `(x, y)`,
/// without the line break that ends it in the file.
pub open spec fn log_entry(x: int, y: int, movement: Seq<char>) -> Seq<char> {
    "Position: ("@ + signed_decimal(x) + ", "@ + signed_decimal(y) + "), Mouvement: "@ + movement
}

impl MovementLog {
    /// The name of the file that holds this log.
    pub fn file_name(&self) -> (name: String)
        ensures
            name@ == log_file_name(self.player_name@),
    {
        let mut name = self.player_name.clone();
        name.append("_movements.log");
        name
    }

    /// The entry that records the move `movement` and the position it ended
    /// on.
    pub fn entry(&self, position: &Position, movement: &str) -> (line: String)
        ensures
            line@ == log_entry(position.x as int, position.y as int, movement@),
    {
        let mut line = String::from_str("Position: (");
        line.append(signed_decimal_of(position.x as i64).as_str());
        line.append(", ");
        line.append(signed_decimal_of(position.y as i64).as_str());
        line.append("), Mouvement: ");
        line.append(movement);
        line
    }
}

} // verus!
