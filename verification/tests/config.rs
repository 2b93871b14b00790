use anytalk_daemon::config::{
    asr_url, handshake_headers, load_asr_config, socket_path, AsrConfig,
};

fn text(s: &str) -> Option<String> {
    Some(s.to_string())
}

fn config(app_id: &str, access_token: &str, resource_id: &str) -> AsrConfig {
    AsrConfig {
        app_id: app_id.to_string(),
        access_token: access_token.to_string(),
        resource_id: resource_id.to_string(),
        mode: "bidi".to_string(),
    }
}

#[test]
fn settings_are_trimmed() {
    let cfg = load_asr_config(
        text(" app\n"),
        text("\t\u{3000}token\u{00A0}"),
        text(" res "),
        text(" bidi "),
    )
    .unwrap();
    assert_eq!(cfg.app_id, "app");
    assert_eq!(cfg.access_token, "token");
    assert_eq!(cfg.resource_id, "res");
    assert_eq!(cfg.mode, "bidi");
}

#[test]
fn every_white_space_character_is_trimmed() {
    for p in 0..=0x10FFFFu32 {
        if let Some(c) = char::from_u32(p) {
            let listed = (0x9..=0xD).contains(&p)
                || p == 0x20
                || p == 0x85
                || p == 0xA0
                || p == 0x1680
                || (0x2000..=0x200A).contains(&p)
                || p == 0x2028
                || p == 0x2029
                || p == 0x202F
                || p == 0x205F
                || p == 0x3000;
            let blank = socket_path(Some(c.to_string()), None) == "/tmp/anytalk.sock";
            assert_eq!(blank, listed);
        }
    }
}

#[test]
fn optional_settings_have_defaults() {
    let cfg = load_asr_config(text("a"), text("t"), None, None).unwrap();
    assert_eq!(cfg.resource_id, "volc.seedasr.sauc.duration");
    assert_eq!(cfg.mode, "bidi_async");
    assert_eq!(
        asr_url(&cfg.mode),
        "wss://openspeech.bytedance.com/api/v3/sauc/bigmodel_async"
    );
    // An empty setting is a setting.
    let cfg = load_asr_config(text(""), text(""), text(" "), text("")).unwrap();
    assert_eq!(cfg.app_id, "");
    assert_eq!(cfg.resource_id, "");
    assert_eq!(cfg.mode, "");
}

#[test]
fn missing_settings_are_reported() {
    assert_eq!(
        load_asr_config(None, text("t"), None, None).unwrap_err(),
        "missing ANYTALK_APP_ID"
    );
    assert_eq!(
        load_asr_config(None, None, None, None).unwrap_err(),
        "missing ANYTALK_APP_ID"
    );
    assert_eq!(
        load_asr_config(text("a"), None, text("r"), text("m")).unwrap_err(),
        "missing ANYTALK_ACCESS_TOKEN"
    );
}

#[test]
fn modes_have_their_endpoints() {
    let base = "wss://openspeech.bytedance.com/api/v3/sauc/";
    assert_eq!(asr_url("bidi"), format!("{base}bigmodel"));
    assert_eq!(asr_url("bidi_async"), format!("{base}bigmodel_async"));
    assert_eq!(asr_url("nostream"), format!("{base}bigmodel_nostream"));
    assert_eq!(asr_url("something else"), format!("{base}bigmodel_nostream"));
    assert_eq!(asr_url("BIDI"), format!("{base}bigmodel_nostream"));
}

#[test]
fn headers_identify_the_session() {
    let headers = handshake_headers(&config("id", "tok\ten", "r\u{e9}s"), "c-1").unwrap();
    let expected: Vec<(&str, String)> = vec![
        ("X-Api-App-Key", "id".to_string()),
        ("X-Api-Access-Key", "tok\ten".to_string()),
        ("X-Api-Resource-Id", "r\u{e9}s".to_string()),
        ("X-Api-Connect-Id", "c-1".to_string()),
    ];
    assert_eq!(headers, expected);
}

#[test]
fn only_control_characters_cannot_be_sent() {
    for p in 0..0x300u32 {
        let value = format!("x{}", char::from_u32(p).unwrap());
        let sendable = p == 9 || (p >= 32 && p != 127);
        assert_eq!(
            handshake_headers(&config(&value, "b", "c"), "d").is_ok(),
            sendable
        );
    }
}

#[test]
fn unsendable_settings_are_reported_in_order() {
    let bad = "a\nb";
    assert_eq!(
        handshake_headers(&config(bad, bad, bad), bad).unwrap_err(),
        "bad app id"
    );
    assert_eq!(
        handshake_headers(&config("a", "\u{7f}", bad), bad).unwrap_err(),
        "bad access token"
    );
    assert_eq!(
        handshake_headers(&config("a", "b", "\0"), bad).unwrap_err(),
        "bad resource id"
    );
    assert_eq!(
        handshake_headers(&config("a", "b", "c"), bad).unwrap_err(),
        "bad uuid"
    );
}

#[test]
fn socket_lies_in_the_runtime_directory() {
    assert_eq!(
        socket_path(text("/run/user/7"), text("1000")),
        "/run/user/7/anytalk.sock"
    );
    assert_eq!(socket_path(text("/x/"), None), "/x/anytalk.sock");
}

#[test]
fn socket_falls_back_to_the_user_and_to_tmp() {
    assert_eq!(socket_path(None, text("1000")), "/run/user/1000/anytalk.sock");
    assert_eq!(
        socket_path(text(" \t"), text("1000")),
        "/run/user/1000/anytalk.sock"
    );
    assert_eq!(socket_path(None, None), "/tmp/anytalk.sock");
    assert_eq!(socket_path(text(""), text("  ")), "/tmp/anytalk.sock");
}

#[test]
fn socket_paths_are_joined_as_paths_are() {
    for dir in ["/a", "/a/", "a", " a ", "/", "//", "a/b c"] {
        let expected = std::path::PathBuf::from(dir).join("anytalk.sock");
        assert_eq!(socket_path(text(dir), None), expected.to_str().unwrap());
    }
    for uid in ["7", "7/", "/7", "/", " 7", "a/b"] {
        let expected = std::path::PathBuf::from("/run/user")
            .join(uid)
            .join("anytalk.sock");
        assert_eq!(socket_path(None, text(uid)), expected.to_str().unwrap());
    }
}
