//! The binary frames exchanged with the recognition service.
//!
//! A frame begins with four header bytes: the protocol version and the header
//! size, the message type and its flags, the serialization and the compression
//! method, each in four bits, and a reserved zero. A client frame continues
//! with the payload's length as a big-endian 32-bit number and the payload. A
//! server frame holds one more 32-bit field before the length: a sequence
//! number, or the code of an error.
use crate::text::{lossy_text, optional_text, received_text};
use vstd::prelude::*;
use vstd::utf8::*;

verus! {

pub const PROTO_VERSION: u8 = 0b0001;

pub const HEADER_SIZE_4B: u8 = 0b0001;

pub const MSG_FULL_CLIENT_REQUEST: u8 = 0b0001;

pub const MSG_AUDIO_ONLY_REQUEST: u8 = 0b0010;

pub const MSG_FULL_SERVER_RESPONSE: u8 = 0b1001;

pub const MSG_ERROR_RESPONSE: u8 = 0b1111;

pub const FLAG_NO_SEQUENCE: u8 = 0b0000;

pub const FLAG_LAST_NO_SEQUENCE: u8 = 0b0010;

pub const SERIALIZATION_JSON: u8 = 0b0001;

pub const SERIALIZATION_NONE: u8 = 0b0000;

pub const COMPRESSION_NONE: u8 = 0b0000;

/// A byte made of the low four bits of `high` and of `low`.
pub open spec fn packed(high: u8, low: u8) -> u8 {
    ((high as int % 16) * 16 + low as int % 16) as u8
}

/// The four header bytes of a frame.
pub open spec fn header_bytes(message_type: u8, flags: u8, serialization: u8, compression: u8) -> Seq<u8> {
    seq![
        packed(PROTO_VERSION, HEADER_SIZE_4B),
        packed(message_type, flags),
        packed(serialization, compression),
        0u8,
    ]
}

/// The low 32 bits of `n`, most significant byte first.
pub open spec fn be_bytes(n: int) -> Seq<u8> {
    seq![
        (n / 0x100_0000 % 0x100) as u8,
        (n / 0x1_0000 % 0x100) as u8,
        (n / 0x100 % 0x100) as u8,
        (n % 0x100) as u8,
    ]
}

/// The number that the four bytes of `data` from `at` on denote, most
/// significant byte first.
pub open spec fn be_number(data: Seq<u8>, at: int) -> int {
    data[at] * 0x100_0000 + data[at + 1] * 0x1_0000 + data[at + 2] * 0x100 + data[at + 3]
}

/// A client frame: the header, the payload's length and the payload.
pub open spec fn client_frame(header: Seq<u8>, payload: Seq<u8>) -> Seq<u8> {
    header + be_bytes(payload.len() as int) + payload
}

/// The frame that opens a session with the given request.
pub open spec fn full_client_request(payload: Seq<u8>) -> Seq<u8> {
    client_frame(
        header_bytes(
            MSG_FULL_CLIENT_REQUEST,
            FLAG_NO_SEQUENCE,
            SERIALIZATION_JSON,
            COMPRESSION_NONE,
        ),
        payload,
    )
}

/// The frame that carries a piece of audio, marked if it is the last one.
pub open spec fn audio_only_request(pcm: Seq<u8>, last: bool) -> Seq<u8> {
    client_frame(
        header_bytes(
            MSG_AUDIO_ONLY_REQUEST,
            if last {
                FLAG_LAST_NO_SEQUENCE
            } else {
                FLAG_NO_SEQUENCE
            },
            SERIALIZATION_NONE,
            COMPRESSION_NONE,
        ),
        pcm,
    )
}

/// Packs the four header bytes; of each argument only the low four bits count.
pub fn build_header(message_type: u8, flags: u8, serialization: u8, compression: u8) -> (header: [u8; 4])
    ensures
        header@ == header_bytes(message_type, flags, serialization, compression),
{
    let b0 = ((PROTO_VERSION & 0xF) << 4) | (HEADER_SIZE_4B & 0xF);
    let b1 = ((message_type & 0xF) << 4) | (flags & 0xF);
    let b2 = ((serialization & 0xF) << 4) | (compression & 0xF);
    proof {
        lemma_packed(PROTO_VERSION, HEADER_SIZE_4B);
        lemma_packed(message_type, flags);
        lemma_packed(serialization, compression);
    }
    let header = [b0, b1, b2, 0x00];
    assert(header@ =~= header_bytes(message_type, flags, serialization, compression));
    header
}

proof fn lemma_packed(high: u8, low: u8)
    ensures
        ((high & 0xF) << 4) | (low & 0xF) == packed(high, low),
{
    assert(((high & 0xF) << 4) | (low & 0xF) == (high % 16) * 16 + low % 16) by (bit_vector);
}

/// The four bytes of a length field; a length beyond 32 bits loses its upper
/// bits.
pub fn u32be(n: usize) -> (bytes: [u8; 4])
    ensures
        bytes@ == be_bytes(n as int),
{
    let bytes = [
        (n / 0x100_0000 % 0x100) as u8,
        (n / 0x1_0000 % 0x100) as u8,
        (n / 0x100 % 0x100) as u8,
        (n % 0x100) as u8,
    ];
    assert(bytes@ =~= be_bytes(n as int));
    bytes
}

fn build_client_frame(header: &[u8; 4], payload: &[u8]) -> (frame: Vec<u8>)
    ensures
        frame@ == client_frame(header@, payload@),
{
    let mut out: Vec<u8> = Vec::new();
    out.extend_from_slice(header);
    let length = u32be(payload.len());
    out.extend_from_slice(&length);
    out.extend_from_slice(payload);
    assert(out@ =~= client_frame(header@, payload@));
    out
}

/// The frame that opens a session; the payload is the request's UTF-8 text.
pub fn build_full_client_request(payload_json_text: &str) -> (frame: Vec<u8>)
    ensures
        frame@ == full_client_request(encode_utf8(payload_json_text@)),
{
    let header = build_header(
        MSG_FULL_CLIENT_REQUEST,
        FLAG_NO_SEQUENCE,
        SERIALIZATION_JSON,
        COMPRESSION_NONE,
    );
    build_client_frame(&header, payload_json_text.as_bytes())
}

/// The frame that carries a piece of audio.
pub fn build_audio_only_request(pcm_bytes: &[u8], last: bool) -> (frame: Vec<u8>)
    ensures
        frame@ == audio_only_request(pcm_bytes@, last),
{
    let header = build_header(
        MSG_AUDIO_ONLY_REQUEST,
        if last {
            FLAG_LAST_NO_SEQUENCE
        } else {
            FLAG_NO_SEQUENCE
        },
        SERIALIZATION_NONE,
        COMPRESSION_NONE,
    );
    build_client_frame(&header, pcm_bytes)
}

/// What a server frame says.
pub enum ServerFrame {
    /// Neither a complete response nor a complete error.
    Unknown { flags: u8 },
    /// A recognition result.
    Response { flags: u8, payload: Seq<u8> },
    /// A failure that the service reports.
    Failure { flags: u8, code: u32, message: Seq<u8> },
}

/// The header announces this protocol version and a header of four bytes.
pub open spec fn has_protocol_header(data: Seq<u8>) -> bool {
    data.len() >= 4 && data[0] == packed(PROTO_VERSION, HEADER_SIZE_4B)
}

/// The message type in the header.
pub open spec fn message_type_of(data: Seq<u8>) -> int {
    data[1] as int / 16
}

/// The flags in the header.
pub open spec fn flags_of(data: Seq<u8>) -> u8 {
    (data[1] as int % 16) as u8
}

/// The two 32-bit fields are there, and the body that the second announces.
pub open spec fn has_body(data: Seq<u8>) -> bool {
    data.len() >= 12 && data.len() >= 12 + be_number(data, 8)
}

/// The announced body; bytes after it are ignored.
pub open spec fn body_of(data: Seq<u8>) -> Seq<u8> {
    data.subrange(12, 12 + be_number(data, 8))
}

/// The meaning of a frame from the service.
pub open spec fn server_frame(data: Seq<u8>) -> ServerFrame {
    if !has_protocol_header(data) {
        ServerFrame::Unknown { flags: 0 }
    } else if message_type_of(data) == MSG_FULL_SERVER_RESPONSE && has_body(data) {
        ServerFrame::Response { flags: flags_of(data), payload: body_of(data) }
    } else if message_type_of(data) == MSG_ERROR_RESPONSE && has_body(data) {
        ServerFrame::Failure {
            flags: flags_of(data),
            code: be_number(data, 4) as u32,
            message: body_of(data),
        }
    } else {
        ServerFrame::Unknown { flags: flags_of(data) }
    }
}

/// A frame from the service, taken apart.
#[derive(Debug)]
pub struct ParsedServerMessage {
    /// `"response"`, `"error"` or `"unknown"`.
    pub kind: &'static str,
    pub flags: u8,
    /// The text of a response.
    pub json_text: Option<String>,
    /// The code of an error.
    pub error_code: Option<u32>,
    /// The text of an error.
    pub error_msg: Option<String>,
}

impl ParsedServerMessage {
    /// The parts are those of the given frame.
    pub open spec fn describes(self, frame: ServerFrame) -> bool {
        match frame {
            ServerFrame::Unknown { flags } => {
                &&& self.kind@ == "unknown"@
                &&& self.flags == flags
                &&& self.json_text is None
                &&& self.error_code is None
                &&& self.error_msg is None
            },
            ServerFrame::Response { flags, payload } => {
                &&& self.kind@ == "response"@
                &&& self.flags == flags
                &&& optional_text(self.json_text) == Some(received_text(payload))
                &&& self.error_code is None
                &&& self.error_msg is None
            },
            ServerFrame::Failure { flags, code, message } => {
                &&& self.kind@ == "error"@
                &&& self.flags == flags
                &&& self.json_text is None
                &&& self.error_code == Some(code)
                &&& optional_text(self.error_msg) == Some(received_text(message))
            },
        }
    }
}

fn unknown_message(flags: u8) -> (message: ParsedServerMessage)
    ensures
        message.describes(ServerFrame::Unknown { flags }),
{
    ParsedServerMessage {
        kind: "unknown",
        flags,
        json_text: None,
        error_code: None,
        error_msg: None,
    }
}

fn read_be_number(data: &[u8], at: usize) -> (n: u32)
    requires
        at + 4 <= data@.len(),
    ensures
        n == be_number(data@, at as int),
{
    data[at] as u32 * 0x100_0000 + data[at + 1] as u32 * 0x1_0000 + data[at + 2] as u32 * 0x100
        + data[at + 3] as u32
}

/// Takes a frame from the service apart. A frame that is cut short, of another
/// protocol version or of another type is `"unknown"`.
pub fn parse_server_message(data: &[u8]) -> (message: ParsedServerMessage)
    ensures
        message.describes(server_frame(data@)),
{
    if data.len() < 4 {
        return unknown_message(0);
    }
    let b0 = data[0];
    let b1 = data[1];
    let version = (b0 >> 4) & 0xF;
    let header_size_4 = b0 & 0xF;
    proof {
        assert(((b0 >> 4) & 0xF) == b0 / 16) by (bit_vector);
        assert((b0 & 0xF) == b0 % 16) by (bit_vector);
        assert(((b1 >> 4) & 0xF) == b1 / 16) by (bit_vector);
        assert((b1 & 0xF) == b1 % 16) by (bit_vector);
    }
    if version != PROTO_VERSION || header_size_4 != HEADER_SIZE_4B {
        return unknown_message(0);
    }
    let message_type = (b1 >> 4) & 0xF;
    let flags = b1 & 0xF;

    if message_type != MSG_FULL_SERVER_RESPONSE && message_type != MSG_ERROR_RESPONSE {
        return unknown_message(flags);
    }
    if data.len() < 12 {
        return unknown_message(flags);
    }
    let body_size = read_be_number(data, 8);
    if ((data.len() - 12) as u64) < body_size as u64 {
        return unknown_message(flags);
    }
    let text = lossy_text(&data[12..12 + body_size as usize]);
    if message_type == MSG_FULL_SERVER_RESPONSE {
        ParsedServerMessage {
            kind: "response",
            flags,
            json_text: Some(text),
            error_code: None,
            error_msg: None,
        }
    } else {
        let code = read_be_number(data, 4);
        ParsedServerMessage {
            kind: "error",
            flags,
            json_text: None,
            error_code: Some(code),
            error_msg: Some(text),
        }
    }
}

proof fn lemma_base_256_digits(n: int)
    requires
        n >= 0,
    ensures
        n % 0x1_0000_0000 == (n / 0x100_0000 % 0x100) * 0x100_0000 + (n / 0x1_0000 % 0x100) * 0x1_0000
            + (n / 0x100 % 0x100) * 0x100 + n % 0x100,
{
    let q1 = n / 0x100;
    let q2 = n / 0x1_0000;
    let q3 = n / 0x100_0000;
    let q4 = n / 0x1_0000_0000;
    assert(q2 == q1 / 0x100);
    assert(q3 == q2 / 0x100);
    assert(q4 == q3 / 0x100);
    assert(n == q1 * 0x100 + n % 0x100);
    assert(q1 == q2 * 0x100 + q1 % 0x100);
    assert(q2 == q3 * 0x100 + q2 % 0x100);
    assert(q3 == q4 * 0x100 + q3 % 0x100);
}

/// A length field holds the length modulo 2^32, so a length below that is read
/// back as it was.
pub proof fn law_length_field_is_read_back(n: int)
    requires
        n >= 0,
    ensures
        be_number(be_bytes(n), 0) == n % 0x1_0000_0000,
        n < 0x1_0000_0000 ==> be_number(be_bytes(n), 0) == n,
        be_bytes(n).len() == 4,
        be_bytes(n)[0] * 0x100_0000 + be_bytes(n)[1] * 0x1_0000 + be_bytes(n)[2] * 0x100 + be_bytes(n)[3]
            == n % 0x1_0000_0000,
{
    lemma_base_256_digits(n);
    let bytes = be_bytes(n);
    let b0 = n / 0x100_0000 % 0x100;
    let b1 = n / 0x1_0000 % 0x100;
    let b2 = n / 0x100 % 0x100;
    let b3 = n % 0x100;
    assert(0 <= b0 < 0x100 && 0 <= b1 < 0x100 && 0 <= b2 < 0x100 && 0 <= b3 < 0x100);
    assert(bytes[0] == b0 && bytes[1] == b1 && bytes[2] == b2 && bytes[3] == b3);
}

/// The frame of a server message: the header, the extra field, the body's
/// length and the body.
pub open spec fn server_message(header: Seq<u8>, field: Seq<u8>, body: Seq<u8>) -> Seq<u8> {
    header + field + be_bytes(body.len() as int) + body
}

proof fn lemma_server_message_parts(header: Seq<u8>, field: Seq<u8>, body: Seq<u8>, rest: Seq<u8>)
    requires
        header.len() == 4,
        field.len() == 4,
        body.len() < 0x1_0000_0000,
    ensures
        ({
            let data = server_message(header, field, body) + rest;
            &&& data.subrange(0, 4) == header
            &&& be_number(data, 4) == be_number(field, 0)
            &&& has_body(data)
            &&& body_of(data) == body
        }),
{
    let data = server_message(header, field, body) + rest;
    law_length_field_is_read_back(body.len() as int);
    assert(data.subrange(0, 4) =~= header);
    let length = be_bytes(body.len() as int);
    assert(data[8] == length[0] && data[9] == length[1] && data[10] == length[2] && data[11]
        == length[3]);
    assert(be_number(data, 8) == body.len());
    assert(body_of(data) =~= body);
}

/// A response is read back from its frame: the flags and the payload are those
/// it was made of, whatever the sequence number, and whatever follows it.
pub proof fn law_response_is_read_back(
    flags: u8,
    serialization: u8,
    compression: u8,
    sequence: Seq<u8>,
    payload: Seq<u8>,
    rest: Seq<u8>,
)
    requires
        flags < 16,
        sequence.len() == 4,
        payload.len() < 0x1_0000_0000,
    ensures
        server_frame(
            server_message(
                header_bytes(MSG_FULL_SERVER_RESPONSE, flags, serialization, compression),
                sequence,
                payload,
            ) + rest,
        ) == (ServerFrame::Response { flags, payload }),
{
    let header = header_bytes(MSG_FULL_SERVER_RESPONSE, flags, serialization, compression);
    let data = server_message(header, sequence, payload) + rest;
    lemma_server_message_parts(header, sequence, payload, rest);
    assert(data[0] == data.subrange(0, 4)[0] && data[1] == data.subrange(0, 4)[1]);
}

proof fn lemma_failure_frame(data: Seq<u8>, flags: u8)
    requires
        flags < 16,
        has_body(data),
        data[0] == packed(PROTO_VERSION, HEADER_SIZE_4B),
        data[1] == packed(MSG_ERROR_RESPONSE, flags),
    ensures
        server_frame(data) == (ServerFrame::Failure {
            flags,
            code: be_number(data, 4) as u32,
            message: body_of(data),
        }),
{
}

proof fn lemma_failure_parts(
    flags: u8,
    serialization: u8,
    compression: u8,
    field: Seq<u8>,
    message: Seq<u8>,
    rest: Seq<u8>,
)
    requires
        flags < 16,
        field.len() == 4,
        message.len() < 0x1_0000_0000,
    ensures
        server_frame(
            server_message(
                header_bytes(MSG_ERROR_RESPONSE, flags, serialization, compression),
                field,
                message,
            ) + rest,
        ) == (ServerFrame::Failure { flags, code: be_number(field, 0) as u32, message }),
{
    let header = header_bytes(MSG_ERROR_RESPONSE, flags, serialization, compression);
    let data = server_message(header, field, message) + rest;
    lemma_server_message_parts(header, field, message, rest);
    assert(data[0] == data.subrange(0, 4)[0] && data[1] == data.subrange(0, 4)[1]);
    lemma_failure_frame(data, flags);
}

/// An error is read back from its frame: the flags, the code and the message
/// are those it was made of, whatever follows it.
pub proof fn law_failure_is_read_back(
    flags: u8,
    serialization: u8,
    compression: u8,
    code: u32,
    message: Seq<u8>,
    rest: Seq<u8>,
)
    requires
        flags < 16,
        message.len() < 0x1_0000_0000,
    ensures
        server_frame(
            server_message(
                header_bytes(MSG_ERROR_RESPONSE, flags, serialization, compression),
                be_bytes(code as int),
                message,
            ) + rest,
        ) == (ServerFrame::Failure { flags, code, message }),
{
    law_length_field_is_read_back(code as int);
    lemma_failure_parts(
        flags,
        serialization,
        compression,
        be_bytes(code as int),
        message,
        rest,
    );
}

/// A client frame determines its header and its payload.
pub proof fn law_client_frame_determines_its_parts(
    header1: Seq<u8>,
    payload1: Seq<u8>,
    header2: Seq<u8>,
    payload2: Seq<u8>,
)
    requires
        header1.len() == 4,
        header2.len() == 4,
        client_frame(header1, payload1) == client_frame(header2, payload2),
    ensures
        header1 == header2,
        payload1 == payload2,
{
    let frame1 = client_frame(header1, payload1);
    let frame2 = client_frame(header2, payload2);
    assert(header1 =~= frame1.subrange(0, 4));
    assert(header2 =~= frame2.subrange(0, 4));
    assert(payload1 =~= frame1.subrange(8, frame1.len() as int));
    assert(payload2 =~= frame2.subrange(8, frame2.len() as int));
}

/// The frame of a piece of audio tells the audio, and whether it was the last.
pub proof fn law_audio_frame_tells_the_last(pcm1: Seq<u8>, last1: bool, pcm2: Seq<u8>, last2: bool)
    requires
        audio_only_request(pcm1, last1) == audio_only_request(pcm2, last2),
    ensures
        pcm1 == pcm2,
        last1 == last2,
{
    let plain = header_bytes(
        MSG_AUDIO_ONLY_REQUEST,
        FLAG_NO_SEQUENCE,
        SERIALIZATION_NONE,
        COMPRESSION_NONE,
    );
    let closing = header_bytes(
        MSG_AUDIO_ONLY_REQUEST,
        FLAG_LAST_NO_SEQUENCE,
        SERIALIZATION_NONE,
        COMPRESSION_NONE,
    );
    assert(plain[1] != closing[1]);
    law_client_frame_determines_its_parts(
        if last1 {
            closing
        } else {
            plain
        },
        pcm1,
        if last2 {
            closing
        } else {
            plain
        },
        pcm2,
    );
}

/// A frame that is cut short, without the whole of its announced body, is
/// unknown.
pub proof fn law_cut_frame_is_unknown(data: Seq<u8>)
    requires
        !has_body(data),
    ensures
        server_frame(data) is Unknown,
{
}

/// A header holds six fields of four bits, two to a byte, and a zero: version 1,
/// a header of one 32-bit word, and the low four bits of each argument.
pub proof fn law_header_holds_its_fields(message_type: u8, flags: u8, serialization: u8, compression: u8)
    ensures
        ({
            let header = header_bytes(message_type, flags, serialization, compression);
            &&& header.len() == 4
            &&& header[0] / 16 == 1 && header[0] % 16 == 1
            &&& header[1] / 16 == message_type % 16 && header[1] % 16 == flags % 16
            &&& header[2] / 16 == serialization % 16 && header[2] % 16 == compression % 16
            &&& header[3] == 0
        }),
{
}

/// A reader of a client frame that takes as many bytes as are announced gets
/// exactly the payload: the number in the four bytes after the header is the
/// payload's length (modulo 2^32), and the payload is all that follows.
pub proof fn law_client_frame_announces_its_payload(header: Seq<u8>, payload: Seq<u8>)
    requires
        header.len() == 4,
    ensures
        ({
            let frame = client_frame(header, payload);
            let announced = frame[4] * 0x100_0000 + frame[5] * 0x1_0000 + frame[6] * 0x100 + frame[7];
            &&& frame.len() == 8 + payload.len()
            &&& frame.take(4) == header
            &&& announced == payload.len() % 0x1_0000_0000
            &&& frame.skip(8) == payload
            &&& payload.len() < 0x1_0000_0000 ==> frame.subrange(8, 8 + announced) == payload
        }),
{
    let frame = client_frame(header, payload);
    let length = be_bytes(payload.len() as int);
    law_length_field_is_read_back(payload.len() as int);
    assert(frame.take(4) =~= header);
    assert(frame[4] == length[0] && frame[5] == length[1] && frame[6] == length[2] && frame[7]
        == length[3]);
    assert(frame.skip(8) =~= payload);
    if payload.len() < 0x1_0000_0000 {
        assert(frame.subrange(8, 8 + payload.len() as int) =~= payload);
    }
}

/// The bytes of the frames that a client sends: the opening request is of type 1
/// and holds JSON, a piece of audio is of type 2 and raw, and the flags of the
/// last piece are 2. Each announces its payload and ends with it.
pub proof fn law_client_frames_have_their_headers(payload: Seq<u8>)
    ensures
        ({
            let opening = full_client_request(payload);
            let chunk = audio_only_request(payload, false);
            let closing = audio_only_request(payload, true);
            &&& opening.take(4) == seq![0x11u8, 0x10u8, 0x10u8, 0x00u8]
            &&& chunk.take(4) == seq![0x11u8, 0x20u8, 0x00u8, 0x00u8]
            &&& closing.take(4) == seq![0x11u8, 0x22u8, 0x00u8, 0x00u8]
            &&& opening.skip(8) == payload && chunk.skip(8) == payload && closing.skip(8) == payload
            &&& opening.subrange(4, 8) == chunk.subrange(4, 8)
            &&& opening.subrange(4, 8) == closing.subrange(4, 8)
            &&& opening[4] * 0x100_0000 + opening[5] * 0x1_0000 + opening[6] * 0x100 + opening[7]
                == payload.len() % 0x1_0000_0000
        }),
{
    let json = header_bytes(1, 0, 1, 0);
    let raw = header_bytes(2, 0, 0, 0);
    let last = header_bytes(2, 2, 0, 0);
    law_client_frame_announces_its_payload(json, payload);
    law_client_frame_announces_its_payload(raw, payload);
    law_client_frame_announces_its_payload(last, payload);
    assert(json =~= seq![0x11u8, 0x10u8, 0x10u8, 0x00u8]);
    assert(raw =~= seq![0x11u8, 0x20u8, 0x00u8, 0x00u8]);
    assert(last =~= seq![0x11u8, 0x22u8, 0x00u8, 0x00u8]);
    assert(full_client_request(payload) == client_frame(json, payload));
    assert(audio_only_request(payload, false) == client_frame(raw, payload));
    assert(audio_only_request(payload, true) == client_frame(last, payload));
    let length = be_bytes(payload.len() as int);
    assert(full_client_request(payload).subrange(4, 8) =~= length);
    assert(audio_only_request(payload, false).subrange(4, 8) =~= length);
    assert(audio_only_request(payload, true).subrange(4, 8) =~= length);
}

/// What a parsed message tells can be read off the bytes. Only a frame of version
/// 1 with a header of one word, and with all of the body that its third word
/// announces, is a response (type 9) or an error (type 15); its text is that
/// body, the error's code is the second word, and the flags are the low four
/// bits of the second byte.
pub proof fn law_parsed_message_follows_the_bytes(message: ParsedServerMessage, data: Seq<u8>)
    requires
        message.describes(server_frame(data)),
    ensures
        ({
            let known = data.len() >= 4 && data[0] == 0x11;
            let kind = data[1] as int / 16;
            let announced = data[8] * 0x100_0000 + data[9] * 0x1_0000 + data[10] * 0x100 + data[11];
            let whole = known && data.len() >= 12 && data.len() - 12 >= announced;
            let body = received_text(data.subrange(12, 12 + announced));
            &&& message.kind@ == "response"@ <==> whole && kind == 9
            &&& message.kind@ == "error"@ <==> whole && kind == 15
            &&& message.kind@ == "unknown"@ <==> !(whole && (kind == 9 || kind == 15))
            &&& message.flags == (if known {
                data[1] as int % 16
            } else {
                0
            })
            &&& message.json_text is Some <==> whole && kind == 9
            &&& message.json_text matches Some(text) ==> text@ == body
            &&& message.error_code is Some <==> whole && kind == 15
            &&& message.error_code matches Some(code) ==> code == data[4] * 0x100_0000 + data[5]
                * 0x1_0000 + data[6] * 0x100 + data[7]
            &&& message.error_msg is Some <==> whole && kind == 15
            &&& message.error_msg matches Some(text) ==> text@ == body
        }),
{
    reveal_strlit("response");
    reveal_strlit("error");
    reveal_strlit("unknown");
    assert("error"@.len() == 5 && "response"@.len() == 8 && "unknown"@.len() == 7);
}

} // verus!
