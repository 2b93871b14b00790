use anytalk_daemon::audio::AudioMsg;
use anytalk_daemon::messages::ServerMsg;
use anytalk_daemon::relay::{RelaySession, ServerEvent, ServerStep};
use anytalk_daemon::request::default_request_json;

fn frame(type_and_flags: u8, body: &str) -> Vec<u8> {
    let mut data = vec![0x11, type_and_flags, 0x10, 0x00, 0, 0, 0, 1];
    data.extend_from_slice(&(body.len() as u32).to_be_bytes());
    data.extend_from_slice(body.as_bytes());
    data
}

fn session(mode: &str) -> RelaySession {
    RelaySession::new(mode.to_string())
}

fn told(step: &ServerStep) -> Vec<String> {
    step.replies
        .iter()
        .map(|message| match message {
            ServerMsg::Status { state } => format!("status {state}"),
            ServerMsg::Partial { text } => format!("partial {text}"),
            ServerMsg::Final { text } => format!("final {text}"),
            ServerMsg::Error { message } => format!("error {message}"),
        })
        .collect()
}

#[test]
fn session_opens_with_the_request() {
    let frame = session("nostream").opening_frame();
    let request = default_request_json("nostream");
    assert_eq!(&frame[..4], &[0x11, 0x10, 0x10, 0x00]);
    assert_eq!(&frame[4..8], &(request.len() as u32).to_be_bytes());
    assert_eq!(&frame[8..], request.as_bytes());
}

#[test]
fn audio_is_framed_until_its_end() {
    let mut s = session("bidi");
    assert!(s.audio_active);
    assert_eq!(
        s.on_audio(Some(AudioMsg::Chunk(vec![1, 2]))),
        Some(vec![0x11, 0x20, 0, 0, 0, 0, 0, 2, 1, 2])
    );
    assert!(s.audio_active);
    assert_eq!(
        s.on_audio(Some(AudioMsg::End(vec![3]))),
        Some(vec![0x11, 0x22, 0, 0, 0, 0, 0, 1, 3])
    );
    assert!(!s.audio_active);
}

#[test]
fn lost_audio_source_sends_nothing_more() {
    let mut s = session("bidi");
    assert_eq!(s.on_audio(None), None);
    assert!(!s.audio_active);
}

#[test]
fn failed_send_mutes_the_session() {
    let mut s = session("bidi");
    s.on_audio(Some(AudioMsg::Chunk(vec![])));
    s.on_send_failed();
    assert!(!s.audio_active);
}

#[test]
fn response_is_shown_preview_first() {
    let mut s = session("bidi");
    let step = s.on_server(ServerEvent::Binary(frame(
        0x91,
        "{\"result\":{\"utterances\":[{\"definite\":true,\"end_time\":5,\"text\":\"a\"},\
         {\"definite\":true,\"end_time\":6,\"text\":\"b\"},{\"text\":\"c\"}]}}",
    )));
    assert_eq!(told(&step), vec!["partial c", "final a", "final b"]);
    assert!(!step.done);
    assert_eq!(s.last_committed_end_time, 6);
    assert!(s.audio_active);
}

#[test]
fn last_response_ends_the_session() {
    let mut s = session("bidi_async");
    let step = s.on_server(ServerEvent::Binary(frame(0x93, "{\"result\":{\"text\":\"x\"}}")));
    assert_eq!(told(&step), vec!["partial x", "final x"]);
    assert!(step.done);
    assert_eq!(s.last_full_text, "x");
    let mut s = session("bidi_async");
    let step = s.on_server(ServerEvent::Binary(frame(0x93, "no json")));
    assert!(step.replies.is_empty());
    assert!(step.done);
}

#[test]
fn failure_is_reported_and_ends_the_session() {
    let mut s = session("bidi");
    let step = s.on_server(ServerEvent::Binary(frame(0xF0, "quota exceeded")));
    assert_eq!(told(&step), vec!["error quota exceeded"]);
    assert!(step.done);
}

#[test]
fn unknown_frames_are_passed_over() {
    let mut s = session("bidi");
    for data in [vec![], vec![0x11, 0x93, 0x10, 0x00], frame(0xB3, "{}")] {
        let step = s.on_server(ServerEvent::Binary(data));
        assert!(step.replies.is_empty());
        assert!(!step.done);
    }
    let step = s.on_server(ServerEvent::Ignored);
    assert!(step.replies.is_empty());
    assert!(!step.done);
}

#[test]
fn end_of_the_connection_ends_the_session() {
    for event in [ServerEvent::Closed, ServerEvent::Failed, ServerEvent::Ended] {
        let step = session("bidi").on_server(event);
        assert!(step.replies.is_empty());
        assert!(step.done);
    }
}

#[test]
fn session_hands_utterances_out_once() {
    let mut s = session("bidi");
    let json = "{\"result\":{\"utterances\":[{\"definite\":true,\"end_time\":5,\"text\":\"a\"}]}}";
    let longer = "{\"result\":{\"utterances\":[{\"definite\":true,\"end_time\":5,\"text\":\"a\"},\
                  {\"definite\":true,\"end_time\":9,\"text\":\"b\"}]}}";
    let mut all: Vec<String> = Vec::new();
    for text in [json, json, longer, json, longer] {
        all.extend(told(&s.on_server(ServerEvent::Binary(frame(0x91, text)))));
    }
    assert_eq!(all, vec!["final a", "final b"]);
}
