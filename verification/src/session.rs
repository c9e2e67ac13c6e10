//! One turn of a worker's session: what the worker does with a radar view.
//! Reading the view from the server and sending the move are left to the
//! caller, which runs the loop.

use vstd::prelude::*;
use crate::navigation::{simple_choice, simple_decide_move, tremaux_decide_move};
use crate::player::{lemma_name_round_trip, lemma_room_to_move, move_player, Direction, PlayerState};
use crate::radar_shape::lemma_well_formed_radar;
use crate::radar::{
    cell_rows, decode_b64, decoded_bytes, decoded_line, first_invalid, horizontal_rows, lines,
    process_blocks, valid_symbols, vertical_rows, well_formed, RadarError,
};

verus! {

/// What a worker made of one radar view: the three grids it decoded, and the
/// move it chose and applied.
pub struct RadarTurn {
    pub horizontal: Vec<String>,
    pub vertical: Vec<String>,
    pub cells: Vec<String>,
    pub direction: &'static str,
}

/// The decoded line of a radar string.
pub open spec fn radar_line(encoded: Seq<char>) -> Seq<char> {
    decoded_line(decoded_bytes(encoded))
}

/// Whether a radar string can be played: every symbol belongs to the
/// alphabet, and the decoded line has the structure of a radar payload.
pub open spec fn playable(encoded: Seq<char>) -> bool {
    valid_symbols(encoded) && well_formed(radar_line(encoded))
}

/// A radar string can be played exactly when it is made of fifteen symbols of
/// the alphabet or more.
pub proof fn lemma_playable(encoded: Seq<char>)
    ensures
        playable(encoded) <==> valid_symbols(encoded) && encoded.len() >= 15,
{
    if valid_symbols(encoded) {
        lemma_well_formed_radar(encoded);
    }
}

/// Plays one radar view: decodes it, decides the next move on its cells, and
/// applies that move to the worker.
///
/// With `random_navigation` the move is chosen by the simple heuristic, else
/// by the visit-count engine. A radar string that cannot be played leaves the
/// worker as it was: the first character outside the alphabet fails with
/// `InvalidSymbol`, a decoded line without the structure of a radar payload
/// with `MalformedRadarPayload`.
pub fn play_radar_view(player_state: &mut PlayerState, encoded: &str, random_navigation: bool) -> (result:
    Result<RadarTurn, RadarError>)
    requires
        old(player_state)@.has_room(),
    ensures
        match result {
            Ok(turn) => {
                &&& playable(encoded@)
                &&& lines(turn.horizontal@) == horizontal_rows(radar_line(encoded@))
                &&& lines(turn.vertical@) == vertical_rows(radar_line(encoded@))
                &&& lines(turn.cells@) == cell_rows(radar_line(encoded@))
                &&& if random_navigation {
                    &&& turn.direction@ == simple_choice(turn.cells@).name()
                    &&& final(player_state)@ == old(player_state)@.after_move(
                        Some(simple_choice(turn.cells@)),
                    )
                } else {
                    &&& turn.direction@ == old(player_state)@.choice(turn.cells@).name()
                    &&& final(player_state)@ == old(player_state)@.after_decide(
                        turn.cells@,
                    ).after_move(Some(old(player_state)@.choice(turn.cells@)))
                }
            },
            Err(e) => {
                &&& *final(player_state) == *old(player_state)
                &&& !playable(encoded@)
                &&& match e {
                    RadarError::InvalidSymbol(c) => exists|i: int|
                        first_invalid(encoded@, i) && c == #[trigger] encoded@[i],
                    RadarError::MalformedRadarPayload => valid_symbols(encoded@),
                }
            },
        },
{
    let line = match decode_b64(encoded) {
        Ok(line) => line,
        Err(e) => {
            return Err(e);
        },
    };
    let (horizontal, vertical, cells) = match process_blocks(line.as_str()) {
        Ok(grids) => grids,
        Err(e) => {
            return Err(e);
        },
    };
    let ghost chosen = if random_navigation {
        simple_choice(cells@)
    } else {
        player_state@.choice(cells@)
    };
    let direction = if random_navigation {
        simple_decide_move(cells.as_slice())
    } else {
        tremaux_decide_move(player_state, cells.as_slice())
    };
    proof {
        lemma_name_round_trip(chosen);
        lemma_room_to_move(player_state@, chosen);
    }
    move_player(player_state, direction);
    Ok(RadarTurn { horizontal, vertical, cells, direction })
}

} // verus!
