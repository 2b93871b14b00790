//! What the daemon is told by its environment, and what follows from it: where
//! it listens, how it identifies itself, and which endpoint it connects to.
use crate::text::{has_ink, same_text, trim, trimmed};
use vstd::prelude::*;
use vstd::string::*;
use vstd::utf8::*;

verus! {

/// The settings of a recognition session.
#[derive(Clone, Debug)]
pub struct AsrConfig {
    pub app_id: String,
    pub access_token: String,
    pub resource_id: String,
    pub mode: String,
}

/// A setting without the white space around it, or its default.
pub open spec fn setting_or(value: Option<String>, default: Seq<char>) -> Seq<char> {
    match value {
        Some(text) => trimmed(text@),
        None => default,
    }
}

fn trimmed_or(value: Option<String>, default: &str) -> (setting: String)
    ensures
        setting@ == setting_or(value, default@),
{
    match value {
        Some(text) => trim(text.as_str()).to_owned(),
        None => default.to_owned(),
    }
}

/// Makes a configuration of the variables `ANYTALK_APP_ID`,
/// `ANYTALK_ACCESS_TOKEN`, `ANYTALK_RESOURCE_ID` and `ANYTALK_MODE`, each
/// nothing where the variable is not set. The first two are required.
pub fn load_asr_config(
    app_id: Option<String>,
    access_token: Option<String>,
    resource_id: Option<String>,
    mode: Option<String>,
) -> (config: Result<AsrConfig, String>)
    ensures
        match config {
            Ok(cfg) => {
                &&& app_id is Some && access_token is Some
                &&& cfg.app_id@ == trimmed(app_id->0@)
                &&& cfg.access_token@ == trimmed(access_token->0@)
                &&& cfg.resource_id@ == setting_or(resource_id, "volc.seedasr.sauc.duration"@)
                &&& cfg.mode@ == setting_or(mode, "bidi_async"@)
            },
            Err(problem) => if app_id is None {
                problem@ == "missing ANYTALK_APP_ID"@
            } else {
                access_token is None && problem@ == "missing ANYTALK_ACCESS_TOKEN"@
            },
        },
{
    let app_id = match app_id {
        Some(text) => trim(text.as_str()).to_owned(),
        None => {
            return Err("missing ANYTALK_APP_ID".to_owned());
        },
    };
    let access_token = match access_token {
        Some(text) => trim(text.as_str()).to_owned(),
        None => {
            return Err("missing ANYTALK_ACCESS_TOKEN".to_owned());
        },
    };
    let resource_id = trimmed_or(resource_id, "volc.seedasr.sauc.duration");
    let mode = trimmed_or(mode, "bidi_async");
    Ok(AsrConfig { app_id, access_token, resource_id, mode })
}

/// The endpoint of a recognition mode.
pub open spec fn endpoint(mode: Seq<char>) -> Seq<char> {
    if mode == "bidi"@ {
        "wss://openspeech.bytedance.com/api/v3/sauc/bigmodel"@
    } else if mode == "bidi_async"@ {
        "wss://openspeech.bytedance.com/api/v3/sauc/bigmodel_async"@
    } else {
        "wss://openspeech.bytedance.com/api/v3/sauc/bigmodel_nostream"@
    }
}

/// The URL to connect to; a mode that is not known is taken as `nostream`.
pub fn asr_url(mode: &str) -> (url: &'static str)
    ensures
        url@ == endpoint(mode@),
{
    if same_text(mode, "bidi") {
        "wss://openspeech.bytedance.com/api/v3/sauc/bigmodel"
    } else if same_text(mode, "bidi_async") {
        "wss://openspeech.bytedance.com/api/v3/sauc/bigmodel_async"
    } else {
        "wss://openspeech.bytedance.com/api/v3/sauc/bigmodel_nostream"
    }
}

/// A byte that may stand in the value of an HTTP header: a tab, or anything
/// that is not an ASCII control character.
pub open spec fn is_header_byte(b: u8) -> bool {
    b == 9 || (b >= 32 && b != 127)
}

/// A text that may stand as the value of an HTTP header.
pub open spec fn is_header_text(text: Seq<char>) -> bool {
    forall|i: int| 0 <= i < encode_utf8(text).len() ==> is_header_byte(#[trigger] encode_utf8(text)[i])
}

/// `http::HeaderValue::from_str`, as `tungstenite` hands it on: succeeds
/// exactly on a text whose UTF-8 bytes may all stand in a header value.
#[verifier::external_body]
fn is_header_value(text: &str) -> (accepted: bool)
    ensures
        accepted == is_header_text(text@),
{
    tokio_tungstenite::tungstenite::http::HeaderValue::from_str(text).is_ok()
}

/// A header of the handshake holds the given name and value.
pub open spec fn is_header(header: (&'static str, String), name: Seq<char>, value: Seq<char>) -> bool {
    header.0@ == name && header.1@ == value
}

/// The headers by which a session identifies itself when it connects. The first
/// setting that cannot stand in a header is reported.
pub fn handshake_headers(cfg: &AsrConfig, connect_id: &str) -> (headers: Result<
    Vec<(&'static str, String)>,
    String,
>)
    ensures
        match headers {
            Ok(list) => {
                &&& is_header_text(cfg.app_id@) && is_header_text(cfg.access_token@)
                &&& is_header_text(cfg.resource_id@) && is_header_text(connect_id@)
                &&& list@.len() == 4
                &&& is_header(list@[0], "X-Api-App-Key"@, cfg.app_id@)
                &&& is_header(list@[1], "X-Api-Access-Key"@, cfg.access_token@)
                &&& is_header(list@[2], "X-Api-Resource-Id"@, cfg.resource_id@)
                &&& is_header(list@[3], "X-Api-Connect-Id"@, connect_id@)
            },
            Err(problem) => if !is_header_text(cfg.app_id@) {
                problem@ == "bad app id"@
            } else if !is_header_text(cfg.access_token@) {
                problem@ == "bad access token"@
            } else if !is_header_text(cfg.resource_id@) {
                problem@ == "bad resource id"@
            } else {
                !is_header_text(connect_id@) && problem@ == "bad uuid"@
            },
        },
{
    if !is_header_value(cfg.app_id.as_str()) {
        return Err("bad app id".to_owned());
    }
    if !is_header_value(cfg.access_token.as_str()) {
        return Err("bad access token".to_owned());
    }
    if !is_header_value(cfg.resource_id.as_str()) {
        return Err("bad resource id".to_owned());
    }
    if !is_header_value(connect_id) {
        return Err("bad uuid".to_owned());
    }
    let mut list: Vec<(&'static str, String)> = Vec::new();
    list.push(("X-Api-App-Key", cfg.app_id.clone()));
    list.push(("X-Api-Access-Key", cfg.access_token.clone()));
    list.push(("X-Api-Resource-Id", cfg.resource_id.clone()));
    list.push(("X-Api-Connect-Id", connect_id.to_owned()));
    Ok(list)
}

/// A path below `base`: an absolute `part` stands by itself, any other is
/// separated from `base` by one slash unless `base` brings it or is empty.
pub open spec fn path_below(base: Seq<char>, part: Seq<char>) -> Seq<char> {
    if part.len() > 0 && part.first() == '/' {
        part
    } else if base.len() > 0 && base.last() != '/' {
        base + seq!['/'] + part
    } else {
        base + part
    }
}

fn join_path(base: &str, part: &str) -> (path: String)
    ensures
        path@ == path_below(base@, part@),
{
    if part.unicode_len() > 0 && part.get_char(0) == '/' {
        return part.to_owned();
    }
    let mut path = base.to_owned();
    let length = base.unicode_len();
    if length > 0 && base.get_char(length - 1) != '/' {
        proof {
            reveal_strlit("/");
            assert("/"@ =~= seq!['/']);
        }
        path.append("/");
    }
    path.append(part);
    path
}

/// The place of the socket: in the runtime directory; else in the directory of
/// the user with the given id; else in `/tmp`. A blank value is as good as none.
pub open spec fn socket_place(runtime_dir: Option<String>, uid: Option<String>) -> Seq<char> {
    if runtime_dir is Some && has_ink(runtime_dir->0@) {
        path_below(runtime_dir->0@, "anytalk.sock"@)
    } else if uid is Some && has_ink(uid->0@) {
        path_below(path_below("/run/user"@, uid->0@), "anytalk.sock"@)
    } else {
        "/tmp/anytalk.sock"@
    }
}

/// The path to listen on, from the variables `XDG_RUNTIME_DIR` and `UID`, each
/// nothing where the variable is not set.
pub fn socket_path(runtime_dir: Option<String>, uid: Option<String>) -> (path: String)
    ensures
        path@ == socket_place(runtime_dir, uid),
{
    if let Some(dir) = runtime_dir {
        if !trim(dir.as_str()).is_empty() {
            return join_path(dir.as_str(), "anytalk.sock");
        }
    }
    if let Some(id) = uid {
        if !trim(id.as_str()).is_empty() {
            let user_dir = join_path("/run/user", id.as_str());
            return join_path(user_dir.as_str(), "anytalk.sock");
        }
    }
    "/tmp/anytalk.sock".to_owned()
}

proof fn lemma_path_below_ends_with(base: Seq<char>, name: Seq<char>)
    requires
        base.len() > 0,
        name.len() > 0,
        name.first() != '/',
    ensures
        (seq!['/'] + name).is_suffix_of(path_below(base, name)),
{
    let path = path_below(base, name);
    let end = seq!['/'] + name;
    assert(path.subrange(path.len() - end.len(), path.len() as int) =~= end);
}

/// Whatever the environment says, the socket is called `anytalk.sock` and lies
/// in some directory.
pub proof fn law_socket_has_its_name(runtime_dir: Option<String>, uid: Option<String>)
    ensures
        "/anytalk.sock"@.is_suffix_of(socket_place(runtime_dir, uid)),
{
    reveal_strlit("anytalk.sock");
    reveal_strlit("/anytalk.sock");
    reveal_strlit("/tmp/anytalk.sock");
    reveal_strlit("/run/user");
    assert("/anytalk.sock"@ =~= seq!['/'] + "anytalk.sock"@);
    if runtime_dir is Some && has_ink(runtime_dir->0@) {
        lemma_path_below_ends_with(runtime_dir->0@, "anytalk.sock"@);
    } else if uid is Some && has_ink(uid->0@) {
        lemma_path_below_ends_with(path_below("/run/user"@, uid->0@), "anytalk.sock"@);
    } else {
        let path = "/tmp/anytalk.sock"@;
        assert(path.subrange(4, 17) =~= "/anytalk.sock"@);
    }
}

/// In the runtime directory, written without a slash at its end, the socket's
/// path is the directory, a slash and its name.
pub proof fn law_socket_lies_in_the_runtime_directory(dir: String, uid: Option<String>)
    requires
        has_ink(dir@),
        dir@.last() != '/',
    ensures
        socket_place(Some(dir), uid) == dir@ + "/anytalk.sock"@,
{
    reveal_strlit("anytalk.sock");
    reveal_strlit("/anytalk.sock");
    assert("/anytalk.sock"@ =~= seq!['/'] + "anytalk.sock"@);
    assert(dir@ + seq!['/'] + "anytalk.sock"@ =~= dir@ + (seq!['/'] + "anytalk.sock"@));
}

/// Without a runtime directory the socket lies in the user's directory, whose
/// name is the user's id.
pub proof fn law_socket_falls_back_to_the_user(runtime_dir: Option<String>, uid: String)
    requires
        runtime_dir is Some ==> !has_ink(runtime_dir->0@),
        has_ink(uid@),
        uid@.first() != '/',
        uid@.last() != '/',
    ensures
        socket_place(runtime_dir, Some(uid)) == "/run/user/"@ + uid@ + "/anytalk.sock"@,
{
    reveal_strlit("/run/user");
    reveal_strlit("/run/user/");
    reveal_strlit("anytalk.sock");
    reveal_strlit("/anytalk.sock");
    let user_dir = path_below("/run/user"@, uid@);
    assert(user_dir =~= "/run/user/"@ + uid@);
    assert(user_dir.last() == uid@.last());
    assert("/anytalk.sock"@ =~= seq!['/'] + "anytalk.sock"@);
    assert(user_dir + seq!['/'] + "anytalk.sock"@ =~= user_dir + (seq!['/'] + "anytalk.sock"@));
}

/// The endpoints: all are below one address, and of the modes only `bidi` and
/// `bidi_async` have one of their own.
pub proof fn law_endpoints(mode: Seq<char>)
    ensures
        endpoint("bidi"@) == "wss://openspeech.bytedance.com/api/v3/sauc/bigmodel"@,
        endpoint("bidi_async"@) == "wss://openspeech.bytedance.com/api/v3/sauc/bigmodel_async"@,
        mode != "bidi"@ && mode != "bidi_async"@ ==> endpoint(mode) == endpoint("nostream"@),
        endpoint("nostream"@) == "wss://openspeech.bytedance.com/api/v3/sauc/bigmodel_nostream"@,
{
    reveal_strlit("bidi");
    reveal_strlit("bidi_async");
    reveal_strlit("nostream");
    assert("bidi"@.len() == 4 && "bidi_async"@.len() == 10 && "nostream"@.len() == 8);
}

/// A setting is what was set, without the white space around it, whatever its
/// default; and the default stands in only where nothing was set.
pub proof fn law_defaults_stand_in_for_nothing(text: String, default: Seq<char>)
    ensures
        setting_or(Some(text), default) == trimmed(text@),
        setting_or(None, default) == default,
{
}

proof fn lemma_header_bytes_of_a_character(c: char)
    ensures
        (forall|i: int|
            0 <= i < encode_scalar(c as u32).len() ==> is_header_byte(#[trigger] encode_scalar(c as u32)[i]))
            <==> c == '\t' || (c as u32 >= 32 && c as u32 != 127),
{
    let v = c as u32;
    let bytes = encode_scalar(v);
    if v <= 0x7F {
        assert((v & 0x7F) as u8 == v) by (bit_vector)
            requires
                v <= 0x7F,
        ;
        assert(bytes[0] == v);
    } else {
        let low = (v & 0x3F) as u8;
        let middle = ((v >> 6) & 0x3F) as u8;
        let high = ((v >> 12) & 0x3F) as u8;
        let lead2 = ((v >> 6) & 0x1F) as u8;
        let lead3 = ((v >> 12) & 0x0F) as u8;
        let lead4 = ((v >> 18) & 0x7) as u8;
        assert(0x80u8 | low >= 0x80 && 0x80u8 | middle >= 0x80 && 0x80u8 | high >= 0x80 && 0xC0u8 | lead2
            >= 0x80 && 0xE0u8 | lead3 >= 0x80 && 0xF0u8 | lead4 >= 0x80) by (bit_vector);
        assert forall|i: int| 0 <= i < bytes.len() implies is_header_byte(#[trigger] bytes[i]) by {
            assert(i == 0 || i == 1 || i == 2 || i == 3);
        }
    }
}

/// A text may stand in a header exactly if each of its characters may: a tab, or
/// any character that is not an ASCII control character.
pub proof fn law_header_texts(text: Seq<char>)
    ensures
        is_header_text(text) <==> forall|i: int|
            0 <= i < text.len() ==> #[trigger] text[i] == '\t' || (text[i] as u32 >= 32 && text[i] as u32
                != 127),
    decreases text.len(),
{
    let bytes = encode_utf8(text);
    if text.len() > 0 {
        let head = encode_scalar(text[0] as u32);
        let rest = text.drop_first();
        let tail = encode_utf8(rest);
        lemma_header_bytes_of_a_character(text[0]);
        law_header_texts(rest);
        assert(bytes =~= head + tail);
        if is_header_text(text) {
            assert forall|i: int| 0 <= i < head.len() implies is_header_byte(#[trigger] head[i]) by {
                assert(bytes[i] == head[i]);
            }
            assert forall|i: int| 0 <= i < tail.len() implies is_header_byte(#[trigger] tail[i]) by {
                assert(bytes[head.len() + i] == tail[i]);
            }
            assert forall|i: int| 0 <= i < text.len() implies #[trigger] text[i] == '\t' || (text[i] as u32
                >= 32 && text[i] as u32 != 127) by {
                if i > 0 {
                    assert(rest[i - 1] == text[i]);
                }
            }
        }
        if forall|i: int|
            0 <= i < text.len() ==> #[trigger] text[i] == '\t' || (text[i] as u32 >= 32 && text[i] as u32
                != 127) {
            assert forall|i: int| 0 <= i < rest.len() implies #[trigger] rest[i] == '\t' || (rest[i] as u32
                >= 32 && rest[i] as u32 != 127) by {
                assert(rest[i] == text[i + 1]);
            }
            assert(text[0] == '\t' || (text[0] as u32 >= 32 && text[0] as u32 != 127));
            assert forall|i: int| 0 <= i < bytes.len() implies is_header_byte(#[trigger] bytes[i]) by {
                if i < head.len() {
                    assert(bytes[i] == head[i]);
                } else {
                    assert(bytes[i] == tail[i - head.len()]);
                }
            }
        }
    }
}

/// A header is a name and a value.
pub proof fn law_headers(header: (&'static str, String), name: Seq<char>, value: Seq<char>)
    ensures
        is_header(header, name, value) <==> header.0@ == name && header.1@ == value,
{
}

/// A path below another: a part that begins with a slash is the whole path. Any
/// other stands at the end of the path, the base at its beginning, and a slash
/// lies between them exactly where the base neither is empty nor brings one.
pub proof fn law_path_below(base: Seq<char>, part: Seq<char>)
    ensures
        ({
            let path = path_below(base, part);
            if part.len() > 0 && part[0] == '/' {
                path == part
            } else {
                &&& base.is_prefix_of(path)
                &&& part.is_suffix_of(path)
                &&& path.len() == base.len() + part.len() || (path.len() == base.len() + part.len() + 1
                    && path[base.len() as int] == '/')
                &&& path.len() == base.len() + part.len() <==> base.len() == 0 || base[base.len() - 1] == '/'
            }
        }),
{
    let path = path_below(base, part);
    assert(path.subrange(path.len() - part.len(), path.len() as int) =~= part);
}

/// The place of the socket is decided in order: a runtime directory that is not
/// blank, whatever the user; else a user that is not blank; else `/tmp`.
pub proof fn law_socket_place_is_decided_in_order(
    runtime_dir: Option<String>,
    uid: Option<String>,
    other: Option<String>,
)
    ensures
        runtime_dir is Some && trimmed(runtime_dir->0@).len() > 0 ==> socket_place(runtime_dir, uid)
            == path_below(runtime_dir->0@, "anytalk.sock"@),
        !(runtime_dir is Some && trimmed(runtime_dir->0@).len() > 0) ==> {
            &&& socket_place(runtime_dir, uid) == socket_place(None, uid)
            &&& uid is Some && trimmed(uid->0@).len() > 0 ==> socket_place(runtime_dir, uid) == path_below(
                path_below("/run/user"@, uid->0@),
                "anytalk.sock"@,
            )
            &&& !(uid is Some && trimmed(uid->0@).len() > 0) ==> socket_place(runtime_dir, uid)
                == "/tmp/anytalk.sock"@
        },
        runtime_dir is Some && trimmed(runtime_dir->0@).len() > 0 ==> socket_place(runtime_dir, uid)
            == socket_place(runtime_dir, other),
{
}

} // verus!
