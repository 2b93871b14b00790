//! The request that opens a recognition session.
use crate::json::{
    json_bool, json_int, json_object, json_string, set_member, write_json,
};
use crate::text::same_text;
use vstd::prelude::*;

#[allow(unused_imports)]
use crate::json::{json_parse, json_text, json_tree, JsonTree};

verus! {

/// The audio that the session will carry: mono 16-bit PCM at 16 kHz. In the
/// `nostream` mode the language is stated too.
pub open spec fn audio_section(mode: Seq<char>) -> Map<Seq<char>, JsonTree> {
    let pcm = map![
        "format"@ => JsonTree::Str("pcm"@),
        "rate"@ => JsonTree::Int(16000),
        "bits"@ => JsonTree::Int(16),
        "channel"@ => JsonTree::Int(1),
    ];
    if mode == "nostream"@ {
        pcm.insert("language"@, JsonTree::Str("zh-CN"@))
    } else {
        pcm
    }
}

/// How the speech is to be recognised.
pub open spec fn recognition_section() -> Map<Seq<char>, JsonTree> {
    map![
        "model_name"@ => JsonTree::Str("bigmodel"@),
        "enable_itn"@ => JsonTree::Bool(true),
        "enable_punc"@ => JsonTree::Bool(true),
        "enable_ddc"@ => JsonTree::Bool(false),
        "enable_word"@ => JsonTree::Bool(false),
        "res_type"@ => JsonTree::Str("full"@),
        "nbest"@ => JsonTree::Int(1),
        "use_vad"@ => JsonTree::Bool(true),
    ]
}

/// The document that opens a session in the given mode.
pub open spec fn request_document(mode: Seq<char>) -> JsonTree {
    JsonTree::Object(
        map![
            "user"@ => JsonTree::Object(map!["uid"@ => JsonTree::Str("anytalk"@)]),
            "audio"@ => JsonTree::Object(audio_section(mode)),
            "request"@ => JsonTree::Object(recognition_section()),
        ],
    )
}

proof fn lemma_request_document_is_plain(mode: Seq<char>)
    ensures
        request_document(mode).plain(127),
{
    reveal_with_fuel(JsonTree::plain, 4);
    let user = map!["uid"@ => JsonTree::Str("anytalk"@)];
    assert(JsonTree::Object(user).plain(126));
    assert(JsonTree::Object(audio_section(mode)).plain(126));
    assert(JsonTree::Object(recognition_section()).plain(126));
}

fn audio_json(mode: &str) -> (value: serde_json::Value)
    ensures
        json_tree(value) == JsonTree::Object(audio_section(mode@)),
{
    let mut audio = json_object();
    set_member(&mut audio, "format", json_string("pcm"));
    set_member(&mut audio, "rate", json_int(16000));
    set_member(&mut audio, "bits", json_int(16));
    set_member(&mut audio, "channel", json_int(1));
    if same_text(mode, "nostream") {
        set_member(&mut audio, "language", json_string("zh-CN"));
    }
    audio
}

fn recognition_json() -> (value: serde_json::Value)
    ensures
        json_tree(value) == JsonTree::Object(recognition_section()),
{
    let mut request = json_object();
    set_member(&mut request, "model_name", json_string("bigmodel"));
    set_member(&mut request, "enable_itn", json_bool(true));
    set_member(&mut request, "enable_punc", json_bool(true));
    set_member(&mut request, "enable_ddc", json_bool(false));
    set_member(&mut request, "enable_word", json_bool(false));
    set_member(&mut request, "res_type", json_string("full"));
    set_member(&mut request, "nbest", json_int(1));
    set_member(&mut request, "use_vad", json_bool(true));
    request
}

/// The text of the request that opens a session: the compact JSON of
/// `request_document`, from which the document can be read back.
pub fn default_request_json(mode: &str) -> (text: String)
    ensures
        text@ == json_text(request_document(mode@)),
        json_parse(text@) == Some(request_document(mode@)),
{
    let mut user = json_object();
    set_member(&mut user, "uid", json_string("anytalk"));
    let mut document = json_object();
    set_member(&mut document, "user", user);
    set_member(&mut document, "audio", audio_json(mode));
    set_member(&mut document, "request", recognition_json());
    proof {
        lemma_request_document_is_plain(mode@);
    }
    write_json(&document)
}

proof fn lemma_names_differ()
    ensures
        "user"@ != "audio"@,
        "user"@ != "request"@,
        "audio"@ != "request"@,
        "format"@ != "rate"@,
        "format"@ != "bits"@,
        "format"@ != "channel"@,
        "format"@ != "language"@,
        "rate"@ != "bits"@,
        "rate"@ != "channel"@,
        "rate"@ != "language"@,
        "bits"@ != "channel"@,
        "bits"@ != "language"@,
        "channel"@ != "language"@,
{
    reveal_strlit("user");
    reveal_strlit("audio");
    reveal_strlit("request");
    reveal_strlit("format");
    reveal_strlit("rate");
    reveal_strlit("bits");
    reveal_strlit("channel");
    reveal_strlit("language");
    assert("user"@.len() == 4 && "audio"@.len() == 5 && "request"@.len() == 7);
    assert("format"@.len() == 6 && "rate"@.len() == 4 && "bits"@.len() == 4 && "channel"@.len() == 7
        && "language"@.len() == 8);
    assert("rate"@[0] == 'r' && "bits"@[0] == 'b');
}

proof fn lemma_option_names_differ()
    ensures
        "model_name"@ != "enable_itn"@,
        "model_name"@ != "enable_punc"@,
        "model_name"@ != "enable_ddc"@,
        "model_name"@ != "enable_word"@,
        "model_name"@ != "res_type"@,
        "model_name"@ != "nbest"@,
        "model_name"@ != "use_vad"@,
        "enable_itn"@ != "enable_punc"@,
        "enable_itn"@ != "enable_ddc"@,
        "enable_itn"@ != "enable_word"@,
        "enable_itn"@ != "res_type"@,
        "enable_itn"@ != "nbest"@,
        "enable_itn"@ != "use_vad"@,
        "enable_punc"@ != "enable_ddc"@,
        "enable_punc"@ != "enable_word"@,
        "enable_punc"@ != "res_type"@,
        "enable_punc"@ != "nbest"@,
        "enable_punc"@ != "use_vad"@,
        "enable_ddc"@ != "enable_word"@,
        "enable_ddc"@ != "res_type"@,
        "enable_ddc"@ != "nbest"@,
        "enable_ddc"@ != "use_vad"@,
        "enable_word"@ != "res_type"@,
        "enable_word"@ != "nbest"@,
        "enable_word"@ != "use_vad"@,
        "res_type"@ != "nbest"@,
        "res_type"@ != "use_vad"@,
        "nbest"@ != "use_vad"@,
{
    reveal_strlit("model_name");
    reveal_strlit("enable_itn");
    reveal_strlit("enable_punc");
    reveal_strlit("enable_ddc");
    reveal_strlit("enable_word");
    reveal_strlit("res_type");
    reveal_strlit("nbest");
    reveal_strlit("use_vad");
    assert("model_name"@.len() == 10 && "enable_itn"@.len() == 10 && "enable_punc"@.len() == 11
        && "enable_ddc"@.len() == 10 && "enable_word"@.len() == 11 && "res_type"@.len() == 8
        && "nbest"@.len() == 5 && "use_vad"@.len() == 7);
    assert("model_name"@[0] == 'm' && "enable_itn"@[0] == 'e' && "enable_ddc"@[0] == 'e');
    assert("enable_itn"@[7] == 'i' && "enable_ddc"@[7] == 'd');
    assert("enable_punc"@[7] == 'p' && "enable_word"@[7] == 'w');
}

/// The audio of a request is 16-bit mono PCM at 16 kHz in every mode, and the
/// language is stated in the mode `nostream` alone; there is nothing else.
pub proof fn law_request_states_the_audio(mode: Seq<char>)
    ensures
        ({
            let audio = request_document(mode).member("audio"@);
            &&& audio is Some && audio->0 is Object
            &&& audio->0.member("format"@) == Some(JsonTree::Str("pcm"@))
            &&& audio->0.member("rate"@) == Some(JsonTree::Int(16000))
            &&& audio->0.member("bits"@) == Some(JsonTree::Int(16))
            &&& audio->0.member("channel"@) == Some(JsonTree::Int(1))
            &&& audio->0.member("language"@) == (if mode == "nostream"@ {
                Some(JsonTree::Str("zh-CN"@))
            } else {
                None
            })
            &&& forall|key: Seq<char>|
                (#[trigger] audio->0.member(key)) is Some ==> key == "format"@ || key == "rate"@ || key
                    == "bits"@ || key == "channel"@ || key == "language"@
        }),
{
    lemma_names_differ();
    assert(request_document(mode).member("audio"@) == Some(JsonTree::Object(audio_section(mode))));
}

/// The recognition that a request asks for, in every mode, and nothing else.
pub proof fn law_request_states_the_recognition(mode: Seq<char>)
    ensures
        ({
            let request = request_document(mode).member("request"@);
            &&& request is Some && request->0 is Object
            &&& request->0.member("model_name"@) == Some(JsonTree::Str("bigmodel"@))
            &&& request->0.member("enable_itn"@) == Some(JsonTree::Bool(true))
            &&& request->0.member("enable_punc"@) == Some(JsonTree::Bool(true))
            &&& request->0.member("enable_ddc"@) == Some(JsonTree::Bool(false))
            &&& request->0.member("enable_word"@) == Some(JsonTree::Bool(false))
            &&& request->0.member("res_type"@) == Some(JsonTree::Str("full"@))
            &&& request->0.member("nbest"@) == Some(JsonTree::Int(1))
            &&& request->0.member("use_vad"@) == Some(JsonTree::Bool(true))
            &&& forall|key: Seq<char>|
                (#[trigger] request->0.member(key)) is Some ==> key == "model_name"@ || key
                    == "enable_itn"@ || key == "enable_punc"@ || key == "enable_ddc"@ || key
                    == "enable_word"@ || key == "res_type"@ || key == "nbest"@ || key == "use_vad"@
        }),
{
    lemma_names_differ();
    lemma_option_names_differ();
    assert(request_document(mode).member("request"@) == Some(JsonTree::Object(recognition_section())));
}

/// A request names its user, and holds nothing besides the user, the audio and
/// the recognition.
pub proof fn law_request_names_the_user(mode: Seq<char>)
    ensures
        ({
            let user = request_document(mode).member("user"@);
            &&& user is Some && user->0 is Object
            &&& user->0.member("uid"@) == Some(JsonTree::Str("anytalk"@))
            &&& forall|key: Seq<char>| (#[trigger] user->0.member(key)) is Some ==> key == "uid"@
        }),
        forall|key: Seq<char>|
            (#[trigger] request_document(mode).member(key)) is Some ==> key == "user"@ || key == "audio"@
                || key == "request"@,
{
    lemma_names_differ();
    let user = map!["uid"@ => JsonTree::Str("anytalk"@)];
    assert(request_document(mode).member("user"@) == Some(JsonTree::Object(user)));
}

} // verus!
