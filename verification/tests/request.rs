use anytalk_daemon::request::default_request_json;

#[test]
fn request_text_for_a_streaming_mode() {
    assert_eq!(
        default_request_json("bidi_async"),
        "{\"audio\":{\"bits\":16,\"channel\":1,\"format\":\"pcm\",\"rate\":16000},\
         \"request\":{\"enable_ddc\":false,\"enable_itn\":true,\"enable_punc\":true,\
         \"enable_word\":false,\"model_name\":\"bigmodel\",\"nbest\":1,\
         \"res_type\":\"full\",\"use_vad\":true},\"user\":{\"uid\":\"anytalk\"}}"
    );
    assert_eq!(default_request_json("bidi"), default_request_json("bidi_async"));
}

#[test]
fn request_text_without_streaming_names_the_language() {
    assert_eq!(
        default_request_json("nostream"),
        "{\"audio\":{\"bits\":16,\"channel\":1,\"format\":\"pcm\",\"language\":\"zh-CN\",\
         \"rate\":16000},\
         \"request\":{\"enable_ddc\":false,\"enable_itn\":true,\"enable_punc\":true,\
         \"enable_word\":false,\"model_name\":\"bigmodel\",\"nbest\":1,\
         \"res_type\":\"full\",\"use_vad\":true},\"user\":{\"uid\":\"anytalk\"}}"
    );
}

#[test]
fn request_text_reads_back() {
    let text = default_request_json("nostream");
    let value: serde_json::Value = serde_json::from_str(&text).unwrap();
    assert_eq!(value.get("user").unwrap().get("uid").unwrap().as_str(), Some("anytalk"));
    let audio = value.get("audio").unwrap();
    assert_eq!(audio.get("rate").unwrap().as_i64(), Some(16000));
    assert_eq!(audio.get("language").unwrap().as_str(), Some("zh-CN"));
    assert_eq!(audio.as_object().unwrap().len(), 5);
    let request = value.get("request").unwrap();
    assert_eq!(request.get("use_vad").unwrap().as_bool(), Some(true));
    assert_eq!(request.get("enable_ddc").unwrap().as_bool(), Some(false));
    assert_eq!(request.as_object().unwrap().len(), 8);
    assert_eq!(value.as_object().unwrap().len(), 3);
}
