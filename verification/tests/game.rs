use sauvequipeut::game::{sum_modulo, worker_names, ChallengeError, GameState, SecretTable};

#[test]
fn test_handle_secret_sum_modulo() {
    let mut game_state = GameState::new();

    game_state.secrets.record_secret("player_1", 11);
    game_state.secrets.record_secret("player_3", 32);

    let modulo = 10;
    let result = {
        let sum: u128 = game_state.secrets.snapshot().iter().map(|&v| v as u128).sum();
        (sum % modulo as u128) as u64
    };

    assert_eq!(result, 3);
    assert_eq!(game_state.secrets.solve_modulo(modulo), Ok("3".to_string()));
}

#[test]
fn solve_modulo_over_two_secrets() {
    let mut table = SecretTable::new();
    table.record_secret("player_1", 11);
    table.record_secret("player_2", 32);
    assert_eq!(table.solve_modulo(10), Ok("3".to_string()));
    assert_eq!(table.solve_modulo(1), Ok("0".to_string()));
    assert_eq!(table.solve_modulo(44), Ok("43".to_string()));
    assert_eq!(table.solve_modulo(43), Ok("0".to_string()));
    assert_eq!(table.solve_modulo(u64::MAX), Ok("43".to_string()));
}

#[test]
fn solve_modulo_by_zero_is_undefined() {
    let mut table = SecretTable::new();
    assert_eq!(table.solve_modulo(0), Err(ChallengeError::DivisionUndefined));
    table.record_secret("player_1", 11);
    table.record_secret("player_2", 32);
    assert_eq!(table.solve_modulo(0), Err(ChallengeError::DivisionUndefined));
    assert_eq!(sum_modulo(&vec![], 0), Err(ChallengeError::DivisionUndefined));
}

#[test]
fn solve_modulo_of_an_empty_table_is_zero() {
    let table = SecretTable::new();
    assert_eq!(table.len(), 0);
    assert_eq!(table.solve_modulo(7), Ok("0".to_string()));
}

#[test]
fn a_later_secret_replaces_the_earlier_one() {
    let mut table = SecretTable::new();
    table.record_secret("player_1", 11);
    table.record_secret("player_2", 32);
    table.record_secret("player_1", 100);
    assert_eq!(table.len(), 2);
    assert_eq!(table.get("player_1"), Some(100));
    assert_eq!(table.get("player_2"), Some(32));
    assert_eq!(table.get("player_3"), None);
    assert_eq!(table.snapshot(), vec![100, 32]);
    assert_eq!(table.solve_modulo(1000), Ok("132".to_string()));
    table.record_secret("player_2", 0);
    table.record_secret("player_3", 5);
    assert_eq!(table.snapshot(), vec![100, 0, 5]);
    assert_eq!(table.solve_modulo(1000), Ok("105".to_string()));
}

#[test]
fn the_sum_is_taken_beyond_64_bits() {
    let mut table = SecretTable::new();
    table.record_secret("a", u64::MAX);
    table.record_secret("b", u64::MAX);
    table.record_secret("c", 3);
    // 2 * (2^64 - 1) + 3 = 36893488147419103233
    assert_eq!(table.solve_modulo(1_000_000_007), Ok("164688010".to_string()));
    assert_eq!(table.solve_modulo(u64::MAX), Ok("3".to_string()));
    assert_eq!(table.solve_modulo(10), Ok("3".to_string()));
    assert_eq!(
        sum_modulo(&vec![u64::MAX, 1], u64::MAX),
        Ok("1".to_string())
    );
    assert_eq!(
        sum_modulo(&vec![u64::MAX, u64::MAX - 1], u64::MAX),
        Ok("18446744073709551614".to_string())
    );
}

#[test]
fn identities_are_told_apart_exactly() {
    let mut table = SecretTable::new();
    table.record_secret("", 1);
    table.record_secret("player", 2);
    table.record_secret("player_", 3);
    table.record_secret("Player", 4);
    assert_eq!(table.len(), 4);
    assert_eq!(table.get(""), Some(1));
    assert_eq!(table.get("player"), Some(2));
    assert_eq!(table.get("player_"), Some(3));
    assert_eq!(table.get("Player"), Some(4));
    assert_eq!(table.solve_modulo(100), Ok("10".to_string()));
}

#[test]
fn workers_are_named_from_one() {
    assert_eq!(worker_names(0), Vec::<String>::new());
    assert_eq!(worker_names(1), vec!["player_1".to_string()]);
    assert_eq!(
        worker_names(3),
        vec!["player_1".to_string(), "player_2".to_string(), "player_3".to_string()]
    );
    let all = worker_names(255);
    assert_eq!(all.len(), 255);
    assert_eq!(all[9], "player_10");
    assert_eq!(all[99], "player_100");
    assert_eq!(all[254], "player_255");
}
