use sauvequipeut::frame::MAX_ACTION_LENGTH;
use sauvequipeut::message::{
    classify, decode_message, encode_message, frame_text, move_action, recognize,
    solve_challenge_action,
    ChallengeType, MessageError, RegisterTeam, ServerMessage, SubscribePlayer,
};

fn frame_of(text: &str) -> Vec<u8> {
    let mut frame = (text.len() as u32).to_le_bytes().to_vec();
    frame.extend_from_slice(text.as_bytes());
    frame
}

fn object(members: Vec<(&str, serde_json::Value)>) -> serde_json::Value {
    let mut map = serde_json::Map::new();
    for (key, member) in members {
        map.insert(key.to_string(), member);
    }
    serde_json::Value::Object(map)
}

fn text(value: &str) -> serde_json::Value {
    serde_json::Value::String(value.to_string())
}

#[test]
fn radar_view_is_recognized() {
    assert_eq!(
        decode_message(b"{\"RadarView\":\"zveKvsuL8a8aaaa\"}"),
        Ok(ServerMessage::RadarView("zveKvsuL8a8aaaa".to_string()))
    );
    assert_eq!(
        decode_message(b" { \"RadarView\" : \"\" } "),
        Ok(ServerMessage::RadarView(String::new()))
    );
    assert_eq!(
        decode_message("{\"RadarView\":\"a\\u00e9\\n\"}".as_bytes()),
        Ok(ServerMessage::RadarView("a\u{e9}\n".to_string()))
    );
}

#[test]
fn hint_is_recognized() {
    assert_eq!(
        decode_message(b"{\"Hint\":{\"Secret\":11}}"),
        Ok(ServerMessage::Hint(11))
    );
    assert_eq!(
        decode_message(b"{\"Hint\":{\"Secret\":18446744073709551615}}"),
        Ok(ServerMessage::Hint(u64::MAX))
    );
    assert_eq!(
        decode_message(b"{\"Hint\":{\"Secret\":0,\"Other\":true}}"),
        Ok(ServerMessage::Hint(0))
    );
}

#[test]
fn challenge_is_recognized() {
    assert_eq!(
        decode_message(b"{\"Challenge\":{\"SecretSumModulo\":10}}"),
        Ok(ServerMessage::Challenge(ChallengeType::SecretSumModulo(10)))
    );
    assert_eq!(
        decode_message(b"{\"Challenge\":{\"SecretSumModulo\":0}}"),
        Ok(ServerMessage::Challenge(ChallengeType::SecretSumModulo(0)))
    );
    assert_eq!(
        decode_message(b"{\"Challenge\":\"SOS\"}"),
        Ok(ServerMessage::Challenge(ChallengeType::SOS))
    );
}

#[test]
fn other_documents_are_unrecognized() {
    for text in [
        "{}",
        "null",
        "[]",
        "42",
        "\"RadarView\"",
        "[{\"RadarView\":\"abc\"}]",
        "{\"radarview\":\"abc\"}",
        "{\"RadarView\":12}",
        "{\"RadarView\":null}",
        "{\"RadarView\":{\"RadarView\":\"abc\"}}",
        "{\"Hint\":11}",
        "{\"Hint\":{\"secret\":11}}",
        "{\"Hint\":{\"Secret\":-1}}",
        "{\"Hint\":{\"Secret\":1.5}}",
        "{\"Hint\":{\"Secret\":\"11\"}}",
        "{\"Hint\":{\"Secret\":18446744073709551616}}",
        "{\"Hint\":{\"RelativeCompass\":{\"angle\":12.0}}}",
        "{\"Secret\":11}",
        "{\"Challenge\":{\"SecretSumModulo\":\"10\"}}",
        "{\"Challenge\":{\"SecretSumModulo\":-10}}",
        "{\"Challenge\":\"sos\"}",
        "{\"Challenge\":\"Help\"}",
        "{\"Challenge\":[\"SOS\"]}",
        "{\"SecretSumModulo\":10}",
        "{\"SubscribePlayerResult\":\"Ok\"}",
        "{\"ActionError\":\"CannotPassThroughWall\"}",
    ] {
        assert_eq!(decode_message(text.as_bytes()), Ok(ServerMessage::Unrecognized), "{}", text);
    }
}

#[test]
fn the_first_known_key_decides() {
    assert_eq!(
        decode_message(b"{\"Hint\":{\"Secret\":5},\"RadarView\":\"abc\"}"),
        Ok(ServerMessage::RadarView("abc".to_string()))
    );
    assert_eq!(
        decode_message(b"{\"Challenge\":{\"SecretSumModulo\":3},\"Hint\":{\"Secret\":5}}"),
        Ok(ServerMessage::Hint(5))
    );
    assert_eq!(
        decode_message(b"{\"RadarView\":7,\"Challenge\":{\"SecretSumModulo\":3}}"),
        Ok(ServerMessage::Challenge(ChallengeType::SecretSumModulo(3)))
    );
    assert_eq!(
        decode_message(b"{\"Challenge\":{\"SecretSumModulo\":3,\"SOS\":1}}"),
        Ok(ServerMessage::Challenge(ChallengeType::SecretSumModulo(3)))
    );
}

#[test]
fn a_payload_that_is_no_json_fails() {
    for text in [
        "",
        "radar1",
        "{",
        "{\"RadarView\":\"abc\"",
        "{\"RadarView\":\"abc\"}}",
        "{\"RadarView\":\"abc\"} x",
        "{'RadarView':'abc'}",
        "{\"Hint\":{\"Secret\":}}",
    ] {
        assert_eq!(
            decode_message(text.as_bytes()),
            Err(MessageError::SerializationError),
            "{}",
            text
        );
    }
    assert_eq!(decode_message(&[0xff, 0xfe]), Err(MessageError::SerializationError));
    assert_eq!(
        decode_message(b"{\"RadarView\":\"\xff\"}"),
        Err(MessageError::SerializationError)
    );
}

#[test]
fn a_parsed_document_is_classified() {
    let document: serde_json::Value =
        serde_json::from_str("{\"Hint\":{\"Secret\":32}}").unwrap();
    assert_eq!(classify(&document), ServerMessage::Hint(32));
    let document: serde_json::Value = serde_json::from_str("{\"RadarView\":\"abc\"}").unwrap();
    assert_eq!(classify(&document), ServerMessage::RadarView("abc".to_string()));
    assert_eq!(classify(&serde_json::Value::Null), ServerMessage::Unrecognized);
    assert_eq!(
        classify(&serde_json::Value::String("RadarView".to_string())),
        ServerMessage::Unrecognized
    );
}

#[test]
fn requests_hold_what_they_were_made_with() {
    let register = RegisterTeam::new("team_example");
    assert_eq!(register.RegisterTeam.name, "team_example");
    let subscribe = SubscribePlayer::new("player_1", "abcd1234");
    assert_eq!(subscribe.SubscribePlayer.name, "player_1");
    assert_eq!(subscribe.SubscribePlayer.registration_token, "abcd1234");
}

#[test]
fn move_action_is_written() {
    for direction in ["Front", "Back", "Left", "Right"] {
        let message = move_action(direction);
        assert_eq!(message, object(vec![("Action", object(vec![("MoveTo", text(direction))]))]));
        assert_eq!(
            encode_message(&message, true),
            Ok(frame_of(&format!("{{\"Action\":{{\"MoveTo\":\"{}\"}}}}", direction)))
        );
    }
    assert_eq!(
        encode_message(&move_action("Front"), true).unwrap(),
        [&[29u8, 0, 0, 0][..], &b"{\"Action\":{\"MoveTo\":\"Front\"}}"[..]].concat()
    );
}

#[test]
fn solve_challenge_action_is_written() {
    let message = solve_challenge_action("3");
    assert_eq!(
        message,
        object(vec![(
            "Action",
            object(vec![("SolveChallenge", object(vec![("answer", text("3"))]))])
        )])
    );
    assert_eq!(
        encode_message(&message, false),
        Ok(frame_of("{\"Action\":{\"SolveChallenge\":{\"answer\":\"3\"}}}"))
    );
    assert_eq!(
        encode_message(&solve_challenge_action("18446744073709551614"), false),
        Ok(frame_of(
            "{\"Action\":{\"SolveChallenge\":{\"answer\":\"18446744073709551614\"}}}"
        ))
    );
}

#[test]
fn requests_are_written() {
    let register = RegisterTeam::new("team_example").to_value();
    assert_eq!(
        register,
        object(vec![("RegisterTeam", object(vec![("name", text("team_example"))]))])
    );
    assert_eq!(
        encode_message(&register, false),
        Ok(frame_of("{\"RegisterTeam\":{\"name\":\"team_example\"}}"))
    );
    let subscribe = SubscribePlayer::new("player_1", "abcd1234").to_value();
    assert_eq!(
        subscribe,
        object(vec![(
            "SubscribePlayer",
            object(vec![("name", text("player_1")), ("registration_token", text("abcd1234"))])
        )])
    );
    assert_eq!(
        encode_message(&subscribe, false),
        Ok(frame_of(
            "{\"SubscribePlayer\":{\"name\":\"player_1\",\"registration_token\":\"abcd1234\"}}"
        ))
    );
}

#[test]
fn written_text_is_escaped() {
    assert_eq!(
        encode_message(&RegisterTeam::new("a\"b\\c\n\u{e9}").to_value(), false),
        Ok(frame_of("{\"RegisterTeam\":{\"name\":\"a\\\"b\\\\c\\n\u{e9}\"}}"))
    );
    assert_eq!(
        encode_message(&move_action(""), true),
        Ok(frame_of("{\"Action\":{\"MoveTo\":\"\"}}"))
    );
}

#[test]
fn an_action_over_the_largest_size_is_refused() {
    // {"Action":{"MoveTo":"..."}} has 24 bytes around the direction.
    let fits = "x".repeat(MAX_ACTION_LENGTH - 24);
    let frame = encode_message(&move_action(&fits), true).unwrap();
    assert_eq!(frame.len(), MAX_ACTION_LENGTH + 4);
    assert_eq!(frame[..4], [0, 0, 16, 0]);
    let long = "x".repeat(MAX_ACTION_LENGTH - 23);
    assert_eq!(encode_message(&move_action(&long), true), Err(MessageError::MessageTooLarge));
    assert_eq!(
        encode_message(&move_action(&long), false).map(|frame| frame.len()),
        Ok(MAX_ACTION_LENGTH + 5)
    );
    assert_eq!(frame_text(&"y".repeat(MAX_ACTION_LENGTH + 1), true), Err(MessageError::MessageTooLarge));
    assert_eq!(frame_text("ab", true), Ok(vec![2, 0, 0, 0, 97, 98]));
    assert_eq!(frame_text("\u{e9}", false), Ok(vec![2, 0, 0, 0, 0xc3, 0xa9]));
}

#[test]
fn what_is_written_reads_back() {
    let frame = encode_message(&move_action("Left"), true).unwrap();
    assert_eq!(decode_message(&frame[4..]), Ok(ServerMessage::Unrecognized));
    let document: serde_json::Value = serde_json::from_slice(&frame[4..]).unwrap();
    assert_eq!(document, move_action("Left"));
    assert_ne!(document, move_action("Right"));
}

#[test]
fn kinds_are_recognized_in_order() {
    assert_eq!(
        recognize(Some("abc"), Some(1), Some(2), Some("SOS")),
        ServerMessage::RadarView("abc".to_string())
    );
    assert_eq!(recognize(None, Some(1), Some(2), Some("SOS")), ServerMessage::Hint(1));
    assert_eq!(
        recognize(None, None, Some(2), Some("SOS")),
        ServerMessage::Challenge(ChallengeType::SecretSumModulo(2))
    );
    assert_eq!(
        recognize(None, None, None, Some("SOS")),
        ServerMessage::Challenge(ChallengeType::SOS)
    );
    assert_eq!(recognize(None, None, None, Some("sos")), ServerMessage::Unrecognized);
    assert_eq!(recognize(None, None, None, None), ServerMessage::Unrecognized);
}
