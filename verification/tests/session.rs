use sauvequipeut::config::Config;
use sauvequipeut::movement_log::MovementLog;
use sauvequipeut::player::{Orientation, PlayerState, Position, SavedState};
use sauvequipeut::radar::RadarError;
use sauvequipeut::session::play_radar_view;
use sauvequipeut::text::{chars_of, decimal_of, signed_decimal_of, string_of};

fn strings(rows: &[&str]) -> Vec<String> {
    rows.iter().map(|row| row.to_string()).collect()
}

#[test]
fn a_radar_view_is_played() {
    let mut player = PlayerState::new();
    let turn = match play_radar_view(&mut player, "zveKvsuL8a8aaaa", false) {
        Ok(turn) => turn,
        Err(e) => panic!("{:?}", e),
    };
    assert_eq!(turn.horizontal, strings(&["00 10 01", "00 01 01", "00 01 01", "10 01 01"]));
    assert_eq!(turn.vertical, strings(&["00 10 01 01", "00 10 01 01", "01 01 01 01"]));
    assert_eq!(turn.cells, strings(&["F00", "F00", "000"]));
    assert_eq!(turn.direction, "Front");
    assert_eq!(player.position, Position::new(0, -1));
    assert_eq!(player.orientation, Orientation::North);
    assert_eq!(player.last_direction, Some("Front"));
    assert_eq!(player.visited.count(&Position::new(0, 0)), 1);
    assert_eq!(player.visited.count(&Position::new(0, -1)), 1);
}

#[test]
fn a_second_view_prefers_the_cell_not_yet_seen() {
    let mut player = PlayerState::new();
    assert!(play_radar_view(&mut player, "zveKvsuL8a8aaaa", false).is_ok());
    // cells F0F / 00F / 000: front and back are free, back leads to the start.
    let turn = match play_radar_view(&mut player, "ieysGjGO8papaaa", false) {
        Ok(turn) => turn,
        Err(e) => panic!("{:?}", e),
    };
    assert_eq!(turn.cells, strings(&["F0F", "00F", "000"]));
    assert_eq!(turn.direction, "Front");
    assert_eq!(player.position, Position::new(0, -2));
    assert_eq!(player.visited.count(&Position::new(0, -1)), 2);
    assert_eq!(player.visited.count(&Position::new(0, -2)), 1);
}

#[test]
fn the_simple_heuristic_keeps_no_history() {
    let mut player = PlayerState::new();
    let turn = match play_radar_view(&mut player, "zveKvsuL8a8aaaa", true) {
        Ok(turn) => turn,
        Err(e) => panic!("{:?}", e),
    };
    assert_eq!(turn.direction, "Front");
    assert_eq!(player.position, Position::new(0, -1));
    assert_eq!(player.last_direction, None);
    assert_eq!(player.visited.count(&Position::new(0, 0)), 0);
    assert_eq!(player.visited.count(&Position::new(0, -1)), 1);
}

#[test]
fn a_bad_radar_view_leaves_the_worker_alone() {
    let mut player = PlayerState::new();
    assert!(matches!(
        play_radar_view(&mut player, "zveKvsuL8a8a!aa", false),
        Err(RadarError::InvalidSymbol('!'))
    ));
    assert!(matches!(
        play_radar_view(&mut player, "zveKvsuL8a8aaa", false),
        Err(RadarError::MalformedRadarPayload)
    ));
    assert!(matches!(
        play_radar_view(&mut player, "", true),
        Err(RadarError::MalformedRadarPayload)
    ));
    assert_eq!(player.position, Position::new(0, 0));
    assert_eq!(player.orientation, Orientation::North);
    assert_eq!(player.last_direction, None);
    assert_eq!(player.visited.count(&Position::new(0, 0)), 0);
}

#[test]
fn log_entry_and_file_name() {
    let log = MovementLog { player_name: "player_2".to_string() };
    assert_eq!(log.file_name(), "player_2_movements.log");
    assert_eq!(
        log.entry(&Position::new(0, -1), "Front"),
        "Position: (0, -1), Mouvement: Front"
    );
    assert_eq!(
        log.entry(&Position::new(i32::MIN, i32::MAX), "Back"),
        "Position: (-2147483648, 2147483647), Mouvement: Back"
    );
    assert_eq!(
        format!("{}\n", log.entry(&Position::new(12, 305), "Left")),
        "Position: (12, 305), Mouvement: Left\n"
    );
}

#[test]
fn numerals() {
    assert_eq!(decimal_of(0), "0");
    assert_eq!(decimal_of(7), "7");
    assert_eq!(decimal_of(10), "10");
    assert_eq!(decimal_of(1_048_576), "1048576");
    assert_eq!(decimal_of(u128::from(u64::MAX)), "18446744073709551615");
    assert_eq!(decimal_of(u128::MAX), u128::MAX.to_string());
    assert_eq!(signed_decimal_of(0), "0");
    assert_eq!(signed_decimal_of(-1), "-1");
    assert_eq!(signed_decimal_of(-90), "-90");
    assert_eq!(signed_decimal_of(i64::MIN), i64::MIN.to_string());
    assert_eq!(signed_decimal_of(i64::MAX), i64::MAX.to_string());
}

#[test]
fn characters_and_strings() {
    assert_eq!(chars_of(""), Vec::<char>::new());
    assert_eq!(chars_of("a\u{e9}\u{2022}z"), vec!['a', '\u{e9}', '\u{2022}', 'z']);
    assert_eq!(string_of(&vec!['0', '1', ' ', '\u{2501}']), "01 \u{2501}");
    assert_eq!(string_of(&Vec::new()), "");
}

#[test]
fn navigation_mode_is_random_only_by_that_word() {
    let config = |mode: &str| Config {
        server_address: "127.0.0.1:8778".to_string(),
        team_name: "team_example".to_string(),
        navigation_mode: mode.to_string(),
        save_progress: false,
    };
    assert!(config("random").uses_random_navigation());
    assert!(!config("Random").uses_random_navigation());
    assert!(!config("tremaux").uses_random_navigation());
    assert!(!config("").uses_random_navigation());
    assert!(!config("random ").uses_random_navigation());
}

#[test]
fn saved_state_holds_a_position() {
    let saved = SavedState { position: Position::new(3, 4) };
    assert_eq!(saved.position, Position::new(3, 4));
    assert_eq!(saved, saved.clone());
}
