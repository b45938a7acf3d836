use chat_relay::commands::{
    plan_auth_command, plan_command, ClientAction, CommandType, FromStrError, LogRegCommandType,
};
use chat_relay::model::MessageType;

#[test]
fn create_login_command_type_from_string_returns_ok() {
    let input = ".login username password";
    let expected = LogRegCommandType::Login("username".to_string(), "password".to_string());

    let actual = LogRegCommandType::from_str(input).unwrap();

    assert_eq!(actual, expected);
}

#[test]
fn create_login_command_type_from_string_returns_err() {
    let input = ".login username";
    let expected = FromStrError::RegexParse;

    let actual = LogRegCommandType::from_str(input).unwrap_err();

    assert_eq!(actual, expected);
}

#[test]
fn create_register_command_type_from_string_returns_ok() {
    let input = ".register username password password 0 0 255";
    let expected = LogRegCommandType::Register(
        "username".to_string(),
        "password".to_string(),
        "password".to_string(),
        0,
        0,
        255,
    );

    let actual = LogRegCommandType::from_str(input).unwrap();

    assert_eq!(actual, expected);
}

#[test]
fn create_register_command_type_from_string_returns_err() -> Result<(), String> {
    let input = ".register username password password 0 0 1337";
    let expected = FromStrError::Internal("Invalid command.".to_string());

    match LogRegCommandType::from_str(input) {
        Ok(..) => Err("Should return invalid command error.".to_string()),
        Err(actual) => {
            assert_eq!(actual, expected);
            Ok(())
        }
    }
}

#[test]
fn create_unknown_command_type_from_string_returns_err() {
    let input = ".help";
    let expected = FromStrError::RegexParse;

    let actual = LogRegCommandType::from_str(input).unwrap_err();

    assert_eq!(actual, expected);
}

#[test]
fn chat_line_parses_each_command() {
    assert_eq!(
        CommandType::from_str(".file notes.txt").unwrap(),
        CommandType::File("notes.txt".to_string())
    );
    assert_eq!(
        CommandType::from_str(".image cat.png").unwrap(),
        CommandType::Image("cat.png".to_string())
    );
    assert_eq!(
        CommandType::from_str(".username Alice the Great").unwrap(),
        CommandType::Username("Alice the Great".to_string())
    );
    assert_eq!(CommandType::from_str(".quit").unwrap(), CommandType::Quit);
    assert_eq!(
        CommandType::from_str(".color 12 0 255").unwrap(),
        CommandType::Color((12, 0, 255))
    );
}

#[test]
fn chat_line_falls_back_to_text() {
    assert_eq!(
        CommandType::from_str("hello there").unwrap(),
        CommandType::Text("hello there".to_string())
    );
    // a colour out of range is no command, so the line stays text
    assert_eq!(
        CommandType::from_str(".color 1 2 999").unwrap(),
        CommandType::Text(".color 1 2 999".to_string())
    );
    // the keyword without its argument is plain text too
    assert_eq!(
        CommandType::from_str(".file").unwrap(),
        CommandType::Text(".file".to_string())
    );
    assert_eq!(
        CommandType::from_str("").unwrap_err(),
        FromStrError::RegexParse
    );
}

#[test]
fn planning_turns_commands_into_payloads() {
    match plan_command(CommandType::Text("hi".to_string())) {
        ClientAction::Send(MessageType::Text(t)) => assert_eq!(t, "hi"),
        _ => panic!("text must be sent as a text payload"),
    }
    match plan_command(CommandType::Quit) {
        ClientAction::SendAndQuit(MessageType::UserDisconnect()) => {}
        _ => panic!("quit must send a disconnect and end the session"),
    }
    match plan_command(CommandType::File("a.txt".to_string())) {
        ClientAction::ReadFile(p) => assert_eq!(p, "a.txt"),
        _ => panic!("a file command must ask for the file's bytes"),
    }
}

#[test]
fn register_needs_matching_passwords() {
    let ok = plan_auth_command(LogRegCommandType::Register(
        "u".to_string(),
        "pw".to_string(),
        "pw".to_string(),
        1,
        2,
        3,
    ));
    assert_eq!(
        ok,
        Some(MessageType::RegisterRequest(
            "u".to_string(),
            "pw".to_string(),
            1,
            2,
            3
        ))
    );
    let bad = plan_auth_command(LogRegCommandType::Register(
        "u".to_string(),
        "pw".to_string(),
        "other".to_string(),
        1,
        2,
        3,
    ));
    assert_eq!(bad, None);
    let login = plan_auth_command(LogRegCommandType::Login("u".to_string(), "pw".to_string()));
    assert_eq!(
        login,
        Some(MessageType::LoginRequest("u".to_string(), "pw".to_string()))
    );
}
