use anytalk_daemon::client::{closing_messages, ClientAction, ClientSession};
use anytalk_daemon::config::load_asr_config;
use anytalk_daemon::messages::{serialize_msg, ClientMsg, ServerMsg};

fn said(message: &ServerMsg) -> String {
    match message {
        ServerMsg::Status { state } => format!("status {state}"),
        ServerMsg::Partial { text } => format!("partial {text}"),
        ServerMsg::Final { text } => format!("final {text}"),
        ServerMsg::Error { message } => format!("error {message}"),
    }
}

fn start() -> Option<ClientMsg> {
    Some(ClientMsg::Start { mode: None })
}

fn recording() -> ClientSession {
    let mut session = ClientSession::new();
    assert!(matches!(session.on_message(start()), ClientAction::Open));
    assert_eq!(said(&session.on_audio(Ok(()))), "status recording");
    session
}

#[test]
fn session_is_opened_step_by_step() {
    let mut session = ClientSession::new();
    assert!(!session.active);
    let message = Some(ClientMsg::Start { mode: Some("bidi".to_string()) });
    assert!(matches!(session.on_message(message), ClientAction::Open));
    assert!(!session.active);
    let config = load_asr_config(Some("a".to_string()), Some("t".to_string()), None, None);
    let (reply, cfg) = session.on_config(config);
    assert_eq!(said(&reply), "status connecting");
    assert_eq!(cfg.unwrap().app_id, "a");
    assert_eq!(said(&session.on_audio(Ok(()))), "status recording");
    assert!(session.active);
}

#[test]
fn missing_configuration_is_reported() {
    let mut session = ClientSession::new();
    assert!(matches!(session.on_message(start()), ClientAction::Open));
    let (reply, cfg) = session.on_config(load_asr_config(None, None, None, None));
    assert_eq!(said(&reply), "error missing ANYTALK_APP_ID");
    assert!(cfg.is_none());
    assert!(!session.active);
}

#[test]
fn failed_audio_is_reported() {
    let mut session = ClientSession::new();
    assert!(matches!(session.on_message(start()), ClientAction::Open));
    let reply = session.on_audio(Err("no input device".to_string()));
    assert_eq!(said(&reply), "error no input device");
    assert!(!session.active);
    assert!(matches!(session.on_message(start()), ClientAction::Open));
}

#[test]
fn second_start_is_ignored() {
    let mut session = recording();
    assert!(matches!(session.on_message(start()), ClientAction::Ignore));
    assert!(session.active);
}

#[test]
fn stop_and_cancel_end_the_session() {
    for message in [ClientMsg::Stop, ClientMsg::Cancel] {
        let mut session = recording();
        match session.on_message(Some(message)) {
            ClientAction::CloseThenReply(reply) => assert_eq!(said(&reply), "status idle"),
            _ => panic!("the session is to be closed"),
        }
        assert!(!session.active);
        assert!(matches!(session.on_message(start()), ClientAction::Open));
    }
}

#[test]
fn stopping_an_idle_client_is_answered() {
    for message in [ClientMsg::Stop, ClientMsg::Cancel] {
        let mut session = ClientSession::new();
        match session.on_message(Some(message)) {
            ClientAction::Reply(reply) => assert_eq!(said(&reply), "status idle"),
            _ => panic!("an answer is expected"),
        }
        assert!(!session.active);
    }
}

#[test]
fn unclear_lines_are_refused() {
    for message in [None, Some(ClientMsg::Other)] {
        let mut session = recording();
        match session.on_message(message) {
            ClientAction::Reply(reply) => assert_eq!(said(&reply), "error unknown message"),
            _ => panic!("an answer is expected"),
        }
        assert!(session.active);
    }
}

#[test]
fn client_is_told_how_the_connection_ended() {
    let messages: Vec<String> = closing_messages(Ok(())).iter().map(said).collect();
    assert_eq!(messages, vec!["status idle"]);
    let messages: Vec<String> = closing_messages(Err("bad uuid".to_string()))
        .iter()
        .map(said)
        .collect();
    assert_eq!(messages, vec!["error bad uuid", "status idle"]);
}

#[test]
fn lines_end_with_a_newline() {
    assert_eq!(serialize_msg(Some("{\"a\":1}".to_string())), "{\"a\":1}\n");
    assert_eq!(serialize_msg(None), "{}\n");
}
