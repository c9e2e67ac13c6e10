//! The message model: the messages of the wire protocol, the decoding of what
//! the server sends, and the encoding of what a worker sends.

use vstd::prelude::*;
use vstd::utf8::encode_utf8;
use crate::frame::{encode_action_frame, encode_frame, framed, FrameError, MAX_ACTION_LENGTH};
use crate::json::{
    json_document, json_member, json_object, json_rendering, json_string, json_text,
    json_unsigned, member, object_value, parse_document, render, string_value,
};

verus! {

/// Why a payload could not be read as a message, or a message not be written
/// as a frame.
#[derive(Debug, Clone, Copy, PartialEq, Eq, Structural)]
pub enum MessageError {
    /// The payload is no JSON text, or the message could not be written as
    /// JSON text.
    SerializationError,
    /// The text of an action is longer than an action may be.
    MessageTooLarge,
    /// The text of a message is longer than a frame can hold.
    LengthOverflow,
}

/// A challenge posed by the server.
#[derive(Debug, Clone, Copy, PartialEq, Eq, Structural)]
pub enum ChallengeType {
    /// Answer with the sum of all known secrets modulo this divisor.
    SecretSumModulo(u64),
    /// A call for help, which asks for no answer.
    SOS,
}

/// The request that registers a team.
#[derive(Debug, Clone, PartialEq, Eq)]
#[allow(non_snake_case)]
pub struct RegisterTeam {
    pub RegisterTeam: RegisterTeamBody,
}

/// The body of [`RegisterTeam`].
#[derive(Debug, Clone, PartialEq, Eq)]
pub struct RegisterTeamBody {
    pub name: String,
}

/// The answer to [`RegisterTeam`], under its key.
#[derive(Debug, Clone, PartialEq, Eq)]
pub struct RegisterTeamResultWrapper {
    pub result: RegisterTeamResult,
}

/// The answer to [`RegisterTeam`].
#[derive(Debug, Clone, PartialEq, Eq)]
pub enum RegisterTeamResult {
    /// The team is registered: so many workers are expected to subscribe,
    /// each with this token.
    Registered { expected_players: u8, registration_token: String },
    /// The team is not registered, for this reason.
    Refused(String),
}

/// The request that subscribes one worker of a registered team.
#[derive(Debug, Clone, PartialEq, Eq)]
#[allow(non_snake_case)]
pub struct SubscribePlayer {
    pub SubscribePlayer: SubscribePlayerBody,
}

/// The body of [`SubscribePlayer`].
#[derive(Debug, Clone, PartialEq, Eq)]
pub struct SubscribePlayerBody {
    pub name: String,
    pub registration_token: String,
}

/// The answer to [`SubscribePlayer`], under its key.
#[derive(Debug, Clone, PartialEq, Eq)]
pub struct SubscribePlayerResultWrapper {
    pub result: SubscribePlayerResult,
}

/// The answer to [`SubscribePlayer`].
#[derive(Debug, Clone, PartialEq, Eq)]
pub enum SubscribePlayerResult {
    /// The worker is subscribed.
    Subscribed,
    /// The worker is not subscribed, for this reason.
    Refused(String),
}

impl RegisterTeam {
    /// The request that registers the team `name`.
    pub fn new(name: &str) -> (request: Self)
        ensures
            request.RegisterTeam.name@ == name@,
    {
        RegisterTeam { RegisterTeam: RegisterTeamBody { name: name.to_owned() } }
    }
}

impl SubscribePlayer {
    /// The request that subscribes the worker `name` with the token of its
    /// team.
    pub fn new(name: &str, registration_token: &str) -> (request: Self)
        ensures
            request.SubscribePlayer.name@ == name@,
            request.SubscribePlayer.registration_token@ == registration_token@,
    {
        SubscribePlayer {
            SubscribePlayer: SubscribePlayerBody {
                name: name.to_owned(),
                registration_token: registration_token.to_owned(),
            },
        }
    }
}

/// A message from the server, by its kind.
#[derive(Debug, Clone, PartialEq, Eq)]
pub enum ServerMessage {
    /// The encoded radar view of the worker.
    RadarView(String),
    /// A secret for this worker.
    Hint(u64),
    /// A challenge to the team.
    Challenge(ChallengeType),
    /// A message of no kind that this worker acts on.
    Unrecognized,
}

/// A message from the server as the contracts see it.
pub enum Received {
    RadarView(Seq<char>),
    Hint(u64),
    Challenge(ChallengeType),
    Unrecognized,
}

impl View for ServerMessage {
    type V = Received;

    open spec fn view(&self) -> Received {
        match self {
            ServerMessage::RadarView(encoded) => Received::RadarView(encoded@),
            ServerMessage::Hint(secret) => Received::Hint(*secret),
            ServerMessage::Challenge(challenge) => Received::Challenge(*challenge),
            ServerMessage::Unrecognized => Received::Unrecognized,
        }
    }
}

/// The text of the member `key` of a document, if it has that member and the
/// member is a string.
pub open spec fn text_member(document: serde_json::Value, key: Seq<char>) -> Option<Seq<char>> {
    match json_member(document, key) {
        Some(found) => json_text(found),
        None => None,
    }
}

/// The number under `inner` in the member `outer` of a document, if both
/// members are there and the inner one is an unsigned integer of 64 bits.
pub open spec fn number_member(document: serde_json::Value, outer: Seq<char>, inner: Seq<char>) -> Option<
    u64,
> {
    match json_member(document, outer) {
        Some(found) => match json_member(found, inner) {
            Some(number) => json_unsigned(number),
            None => None,
        },
        None => None,
    }
}

/// The kind of a message, decided by what stands under its top-level keys:
/// a `RadarView` if there is a radar string, else a `Hint` if there is a
/// secret, else a `Challenge` if there is a divisor or the challenge is the
/// word `SOS`; any other message is unrecognized.
pub open spec fn recognized(
    radar_view: Option<Seq<char>>,
    secret: Option<u64>,
    divisor: Option<u64>,
    challenge: Option<Seq<char>>,
) -> Received {
    if let Some(encoded) = radar_view {
        Received::RadarView(encoded)
    } else if let Some(secret) = secret {
        Received::Hint(secret)
    } else if let Some(divisor) = divisor {
        Received::Challenge(ChallengeType::SecretSumModulo(divisor))
    } else if challenge == Some("SOS"@) {
        Received::Challenge(ChallengeType::SOS)
    } else {
        Received::Unrecognized
    }
}

/// The kind of a document: what [`recognized`] makes of the string under
/// `RadarView`, the number under `Secret` in `Hint`, the number under
/// `SecretSumModulo` in `Challenge`, and the string under `Challenge`.
pub open spec fn classified(document: serde_json::Value) -> Received {
    recognized(
        text_member(document, "RadarView"@),
        number_member(document, "Hint"@, "Secret"@),
        number_member(document, "Challenge"@, "SecretSumModulo"@),
        text_member(document, "Challenge"@),
    )
}

/// What an optional string slice holds.
pub open spec fn characters(text: Option<&str>) -> Option<Seq<char>> {
    match text {
        Some(text) => Some(text@),
        None => None,
    }
}

/// Tells the kind of a message from what stands under its top-level keys.
pub fn recognize(
    radar_view: Option<&str>,
    secret: Option<u64>,
    divisor: Option<u64>,
    challenge: Option<&str>,
) -> (message: ServerMessage)
    ensures
        message@ == recognized(characters(radar_view), secret, divisor, characters(challenge)),
{
    if let Some(encoded) = radar_view {
        return ServerMessage::RadarView(encoded.to_owned());
    }
    if let Some(secret) = secret {
        return ServerMessage::Hint(secret);
    }
    if let Some(divisor) = divisor {
        return ServerMessage::Challenge(ChallengeType::SecretSumModulo(divisor));
    }
    if let Some(word) = challenge {
        if word.eq("SOS") {
            return ServerMessage::Challenge(ChallengeType::SOS);
        }
    }
    ServerMessage::Unrecognized
}

fn text_at<'a>(document: &'a serde_json::Value, key: &str) -> (text: Option<&'a str>)
    ensures
        characters(text) == text_member(*document, key@),
{
    match member(document, key) {
        Some(found) => found.as_str(),
        None => None,
    }
}

fn number_at(document: &serde_json::Value, outer: &str, inner: &str) -> (number: Option<u64>)
    ensures
        number == number_member(*document, outer@, inner@),
{
    match member(document, outer) {
        Some(found) => match member(found, inner) {
            Some(number) => number.as_u64(),
            None => None,
        },
        None => None,
    }
}

/// Tells the kind of a parsed document.
pub fn classify(document: &serde_json::Value) -> (message: ServerMessage)
    ensures
        message@ == classified(*document),
{
    recognize(
        text_at(document, "RadarView"),
        number_at(document, "Hint", "Secret"),
        number_at(document, "Challenge", "SecretSumModulo"),
        text_at(document, "Challenge"),
    )
}

/// Reads the payload of a frame as a message. A payload that is no JSON text
/// fails with `SerializationError`; every JSON text is a message, of the kind
/// that [`classified`] tells.
pub fn decode_message(payload: &[u8]) -> (result: Result<ServerMessage, MessageError>)
    ensures
        match result {
            Ok(message) => json_document(payload@) matches Some(document) && message@
                == classified(document),
            Err(e) => json_document(payload@) is None && e == MessageError::SerializationError,
        },
{
    match parse_document(payload) {
        Ok(document) => Ok(classify(&document)),
        Err(_) => Err(MessageError::SerializationError),
    }
}

/// The JSON object with the single member `key`.
pub open spec fn json_wrapped(key: Seq<char>, member: serde_json::Value) -> serde_json::Value {
    json_object(seq![(key, member)])
}

/// The message that asks for a move in `direction`:
/// `{"Action":{"MoveTo":direction}}`.
pub open spec fn move_action_value(direction: Seq<char>) -> serde_json::Value {
    json_wrapped("Action"@, json_wrapped("MoveTo"@, json_string(direction)))
}

/// The message that answers a challenge:
/// `{"Action":{"SolveChallenge":{"answer":answer}}}`.
pub open spec fn solve_challenge_value(answer: Seq<char>) -> serde_json::Value {
    json_wrapped(
        "Action"@,
        json_wrapped("SolveChallenge"@, json_wrapped("answer"@, json_string(answer))),
    )
}

/// The message that subscribes a worker:
/// `{"SubscribePlayer":{"name":name,"registration_token":token}}`.
pub open spec fn subscribe_player_value(name: Seq<char>, token: Seq<char>) -> serde_json::Value {
    json_wrapped(
        "SubscribePlayer"@,
        json_object(seq![("name"@, json_string(name)), ("registration_token"@, json_string(token))]),
    )
}

/// The message that registers a team: `{"RegisterTeam":{"name":name}}`.
pub open spec fn register_team_value(name: Seq<char>) -> serde_json::Value {
    json_wrapped("RegisterTeam"@, json_wrapped("name"@, json_string(name)))
}

/// What becomes of a message on its way to the wire: the frame of its JSON
/// text, unless the text cannot be written or is too long. An action may have
/// `MAX_ACTION_LENGTH` bytes at most, any other message as many as 32 bits
/// can count.
pub open spec fn wire_frame(message: serde_json::Value, action: bool) -> Result<
    Seq<u8>,
    MessageError,
> {
    match json_rendering(message) {
        None => Err(MessageError::SerializationError),
        Some(text) => {
            let payload = encode_utf8(text);
            if action && payload.len() > MAX_ACTION_LENGTH {
                Err(MessageError::MessageTooLarge)
            } else if payload.len() > u32::MAX {
                Err(MessageError::LengthOverflow)
            } else {
                Ok(framed(payload))
            }
        },
    }
}

fn wrapped(key: &str, member: serde_json::Value) -> (value: serde_json::Value)
    ensures
        value == json_wrapped(key@, member),
{
    let mut members: Vec<(String, serde_json::Value)> = Vec::new();
    members.push((key.to_owned(), member));
    assert(crate::json::named(members@) =~= seq![(key@, member)]);
    object_value(members)
}

/// The message that asks for a move in `direction`.
pub fn move_action(direction: &str) -> (message: serde_json::Value)
    ensures
        message == move_action_value(direction@),
{
    wrapped("Action", wrapped("MoveTo", string_value(direction)))
}

/// The message that answers a challenge with `answer`.
pub fn solve_challenge_action(answer: &str) -> (message: serde_json::Value)
    ensures
        message == solve_challenge_value(answer@),
{
    wrapped("Action", wrapped("SolveChallenge", wrapped("answer", string_value(answer))))
}

impl SubscribePlayer {
    /// This request as a JSON value.
    pub fn to_value(&self) -> (message: serde_json::Value)
        ensures
            message == subscribe_player_value(
                self.SubscribePlayer.name@,
                self.SubscribePlayer.registration_token@,
            ),
    {
        let mut members: Vec<(String, serde_json::Value)> = Vec::new();
        members.push(("name".to_owned(), string_value(self.SubscribePlayer.name.as_str())));
        members.push(
            (
                "registration_token".to_owned(),
                string_value(self.SubscribePlayer.registration_token.as_str()),
            ),
        );
        assert(crate::json::named(members@) =~= seq![
            ("name"@, json_string(self.SubscribePlayer.name@)),
            ("registration_token"@, json_string(self.SubscribePlayer.registration_token@)),
        ]);
        wrapped("SubscribePlayer", object_value(members))
    }
}

impl RegisterTeam {
    /// This request as a JSON value.
    pub fn to_value(&self) -> (message: serde_json::Value)
        ensures
            message == register_team_value(self.RegisterTeam.name@),
    {
        wrapped("RegisterTeam", wrapped("name", string_value(self.RegisterTeam.name.as_str())))
    }
}

/// Frames the JSON text of a message. The text of an action, which is
/// bounded, that is longer than `MAX_ACTION_LENGTH` bytes fails with
/// `MessageTooLarge`; any text that is longer than a frame can hold fails
/// with `LengthOverflow`.
pub fn frame_text(text: &str, action: bool) -> (result: Result<Vec<u8>, MessageError>)
    ensures
        match result {
            Ok(frame) => {
                &&& !(action && encode_utf8(text@).len() > MAX_ACTION_LENGTH)
                &&& encode_utf8(text@).len() <= u32::MAX
                &&& frame@ == framed(encode_utf8(text@))
            },
            Err(e) => if action && encode_utf8(text@).len() > MAX_ACTION_LENGTH {
                e == MessageError::MessageTooLarge
            } else {
                encode_utf8(text@).len() > u32::MAX && e == MessageError::LengthOverflow
            },
        },
{
    let framed = if action {
        encode_action_frame(text.as_bytes())
    } else {
        encode_frame(text.as_bytes())
    };
    match framed {
        Ok(frame) => Ok(frame),
        Err(FrameError::MessageTooLarge) => Err(MessageError::MessageTooLarge),
        Err(FrameError::LengthOverflow) => Err(MessageError::LengthOverflow),
    }
}

/// Writes a message as the frame that goes on the wire. `action` tells
/// whether the message is an action, whose text is bounded.
pub fn encode_message(message: &serde_json::Value, action: bool) -> (result: Result<
    Vec<u8>,
    MessageError,
>)
    ensures
        match result {
            Ok(frame) => wire_frame(*message, action) == Ok::<Seq<u8>, MessageError>(frame@),
            Err(e) => wire_frame(*message, action) == Err::<Seq<u8>, MessageError>(e),
        },
{
    match render(message) {
        Ok(text) => frame_text(text.as_str(), action),
        Err(_) => Err(MessageError::SerializationError),
    }
}

} // verus!
