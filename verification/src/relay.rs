//! The connection to the recognition service, as a state machine.
//!
//! The program around it waits for captured audio and for the service's
//! messages, hands each to the session, and performs what the session says:
//! send a frame to the service, send messages to the client, or end.
use crate::audio::AudioMsg;
use crate::messages::{error, ServerMsg};
use crate::request::default_request_json;
use crate::text::same_text;
use crate::transcript::parse_asr_texts;
use crate::wire::{build_audio_only_request, build_full_client_request, parse_server_message};
use vstd::prelude::*;
use vstd::utf8::*;

#[allow(unused_imports)]
use crate::json::{json_parse, json_text};
#[allow(unused_imports)]
use crate::messages::{message_views, ServerMsgView};
#[allow(unused_imports)]
use crate::request::request_document;
#[allow(unused_imports)]
use crate::text::{law_sent_text_is_received, optional_text, received_text, texts};
#[allow(unused_imports)]
use crate::transcript::{
    end_times_of, finals_of, law_end_times_rise, lemma_rising_concat, outcome, preview_of, result_of,
    rising, said_at, within, AsrResultView, Outcome, UtteranceView,
};
#[allow(unused_imports)]
use crate::wire::{
    audio_only_request, be_bytes, full_client_request, header_bytes, law_audio_frame_tells_the_last,
    law_client_frames_have_their_headers,
    law_failure_is_read_back, law_response_is_read_back, server_frame, server_message, ServerFrame,
    MSG_ERROR_RESPONSE, MSG_FULL_SERVER_RESPONSE,
};

verus! {

/// The flags of the last response of a session.
pub const FLAGS_LAST_RESPONSE: u8 = 0b0011;

/// Something that came from the service.
#[derive(Debug)]
pub enum ServerEvent {
    /// A binary message.
    Binary(Vec<u8>),
    /// A message of a kind that carries nothing for the session.
    Ignored,
    /// The service closed the connection.
    Closed,
    /// The connection broke.
    Failed,
    /// The stream of messages ended.
    Ended,
}

/// What a [`ServerEvent`] holds.
pub enum ServerEventView {
    Binary(Seq<u8>),
    Ignored,
    Closed,
    Failed,
    Ended,
}

impl View for ServerEvent {
    type V = ServerEventView;

    open spec fn view(&self) -> ServerEventView {
        match self {
            ServerEvent::Binary(data) => ServerEventView::Binary(data@),
            ServerEvent::Ignored => ServerEventView::Ignored,
            ServerEvent::Closed => ServerEventView::Closed,
            ServerEvent::Failed => ServerEventView::Failed,
            ServerEvent::Ended => ServerEventView::Ended,
        }
    }
}

/// What is to be done about something that came from the service.
#[derive(Debug)]
pub struct ServerStep {
    /// Messages for the client, in their order.
    pub replies: Vec<ServerMsg>,
    /// Whether the connection is to be ended.
    pub done: bool,
}

/// One connection to the service.
#[derive(Debug)]
pub struct RelaySession {
    pub mode: String,
    /// The end time of the last utterance handed out.
    pub last_committed_end_time: i64,
    /// The last whole text that came.
    pub last_full_text: String,
    /// Whether audio is still to be sent.
    pub audio_active: bool,
}

/// What a [`RelaySession`] holds.
pub struct RelayState {
    pub mode: Seq<char>,
    pub end_time: int,
    pub full_text: Seq<char>,
    pub audio_active: bool,
}

impl View for RelaySession {
    type V = RelayState;

    open spec fn view(&self) -> RelayState {
        RelayState {
            mode: self.mode@,
            end_time: self.last_committed_end_time as int,
            full_text: self.last_full_text@,
            audio_active: self.audio_active,
        }
    }
}

/// A session that has just connected.
pub open spec fn fresh(mode: Seq<char>) -> RelayState {
    RelayState { mode, end_time: -1, full_text: seq![], audio_active: true }
}

/// The state with audio switched off.
pub open spec fn muted(state: RelayState) -> RelayState {
    RelayState { audio_active: false, ..state }
}

/// The frame for a piece of audio, if any is to be sent; nothing means that the
/// source of audio is gone.
pub open spec fn audio_frame(audio: Option<AudioMsg>) -> Option<Seq<u8>> {
    match audio {
        Some(message) => Some(audio_only_request(message.payload(), message is End)),
        None => None,
    }
}

/// The state after a piece of audio: only a chunk is followed by more.
pub open spec fn after_audio(state: RelayState, audio: Option<AudioMsg>) -> RelayState {
    if audio is Some && audio->0 is Chunk {
        state
    } else {
        muted(state)
    }
}

/// The preview, if there is one, and then the final texts.
pub open spec fn shown(after: Outcome) -> Seq<ServerMsgView> {
    let preview = match after.partial {
        Some(text) => seq![ServerMsgView::Partial(text)],
        None => seq![],
    };
    preview + after.finals.map_values(|text: Seq<char>| ServerMsgView::Final(text))
}

/// What is done about something from the service.
pub struct StepView {
    pub state: RelayState,
    pub replies: Seq<ServerMsgView>,
    pub done: bool,
}

/// What a response does to a session.
pub open spec fn on_response(state: RelayState, flags: u8, text: Seq<char>) -> StepView {
    let after = outcome(result_of(json_parse(text)), state.end_time, state.full_text, state.mode);
    StepView {
        state: RelayState { end_time: after.end_time, full_text: after.full_text, ..state },
        replies: shown(after),
        done: flags == FLAGS_LAST_RESPONSE,
    }
}

/// What something from the service does to a session. A response is shown to
/// the client, and ends the session if it is marked as the last; an error is
/// reported and ends it; a frame that is not understood is passed over; the end
/// of the connection ends it without a word.
pub open spec fn server_step(state: RelayState, event: ServerEventView) -> StepView {
    match event {
        ServerEventView::Binary(data) => match server_frame(data) {
            ServerFrame::Response { flags, payload } => on_response(
                state,
                flags,
                received_text(payload),
            ),
            ServerFrame::Failure { message, .. } => StepView {
                state,
                replies: seq![ServerMsgView::Error(received_text(message))],
                done: true,
            },
            ServerFrame::Unknown { .. } => StepView { state, replies: seq![], done: false },
        },
        ServerEventView::Ignored => StepView { state, replies: seq![], done: false },
        ServerEventView::Closed => StepView { state, replies: seq![], done: true },
        ServerEventView::Failed => StepView { state, replies: seq![], done: true },
        ServerEventView::Ended => StepView { state, replies: seq![], done: true },
    }
}

fn reply_list(partial: Option<String>, finals: Vec<String>, Ghost(after): Ghost<Outcome>) -> (replies: Vec<
    ServerMsg,
>)
    requires
        optional_text(partial) == after.partial,
        texts(finals@) == after.finals,
    ensures
        message_views(replies@) == shown(after),
{
    let mut replies: Vec<ServerMsg> = Vec::new();
    if let Some(text) = partial {
        replies.push(ServerMsg::Partial { text });
    }
    let ghost preview = message_views(replies@);
    let ghost shown_finals = after.finals.map_values(|text: Seq<char>| ServerMsgView::Final(text));
    assert(preview + shown_finals =~= shown(after));
    for i in 0..finals.len()
        invariant
            texts(finals@) == after.finals,
            shown_finals == after.finals.map_values(|text: Seq<char>| ServerMsgView::Final(text)),
            message_views(replies@) == preview + shown_finals.take(i as int),
    {
        let ghost before = replies@;
        let text = finals[i].clone();
        assert(text@ == texts(finals@)[i as int]);
        replies.push(ServerMsg::Final { text });
        assert(message_views(replies@) =~= message_views(before).push(ServerMsgView::Final(text@)));
        assert(message_views(replies@) =~= preview + shown_finals.take(i + 1));
    }
    assert(shown_finals.take(finals@.len() as int) =~= shown_finals);
    replies
}

impl RelaySession {
    pub fn new(mode: String) -> (session: Self)
        ensures
            session@ == fresh(mode@),
    {
        RelaySession {
            mode,
            last_committed_end_time: -1,
            last_full_text: String::new(),
            audio_active: true,
        }
    }

    /// The frame to send first.
    pub fn opening_frame(&self) -> (frame: Vec<u8>)
        ensures
            frame@ == full_client_request(encode_utf8(json_text(request_document(self@.mode)))),
    {
        let request = default_request_json(self.mode.as_str());
        build_full_client_request(request.as_str())
    }

    /// Deals with a piece of audio, or with the end of the source: returns the
    /// frame to send.
    pub fn on_audio(&mut self, audio: Option<AudioMsg>) -> (frame: Option<Vec<u8>>)
        requires
            old(self).audio_active,
        ensures
            match frame {
                Some(bytes) => audio_frame(audio) == Some(bytes@),
                None => audio_frame(audio) is None,
            },
            final(self)@ == after_audio(old(self)@, audio),
    {
        match audio {
            Some(AudioMsg::Chunk(bytes)) => Some(build_audio_only_request(bytes.as_slice(), false)),
            Some(AudioMsg::End(bytes)) => {
                self.audio_active = false;
                Some(build_audio_only_request(bytes.as_slice(), true))
            },
            None => {
                self.audio_active = false;
                None
            },
        }
    }

    /// Deals with a frame of audio that could not be sent: no more are.
    pub fn on_send_failed(&mut self)
        ensures
            final(self)@ == muted(old(self)@),
    {
        self.audio_active = false;
    }

    fn on_response_text(&mut self, flags: u8, json: &str) -> (step: ServerStep)
        ensures
            ({
                let expected = on_response(old(self)@, flags, json@);
                &&& final(self)@ == expected.state
                &&& message_views(step.replies@) == expected.replies
                &&& step.done == expected.done
            }),
    {
        let ghost after = outcome(
            result_of(json_parse(json@)),
            self@.end_time,
            self@.full_text,
            self@.mode,
        );
        let mut end_time: i64 = self.last_committed_end_time;
        let mut full_text = self.last_full_text.clone();
        let (partial, finals) = parse_asr_texts(json, &mut end_time, &mut full_text, self.mode.as_str());
        self.last_committed_end_time = end_time;
        self.last_full_text = full_text;
        let replies = reply_list(partial, finals, Ghost(after));
        ServerStep { replies, done: flags == FLAGS_LAST_RESPONSE }
    }

    /// Deals with something that came from the service.
    pub fn on_server(&mut self, event: ServerEvent) -> (step: ServerStep)
        ensures
            ({
                let expected = server_step(old(self)@, event@);
                &&& final(self)@ == expected.state
                &&& message_views(step.replies@) == expected.replies
                &&& step.done == expected.done
            }),
    {
        let mut replies: Vec<ServerMsg> = Vec::new();
        assert(message_views(replies@) =~= Seq::<ServerMsgView>::empty());
        let data = match event {
            ServerEvent::Binary(data) => data,
            ServerEvent::Ignored => {
                return ServerStep { replies, done: false };
            },
            ServerEvent::Closed | ServerEvent::Failed | ServerEvent::Ended => {
                return ServerStep { replies, done: true };
            },
        };
        let parsed = parse_server_message(data.as_slice());
        proof {
            reveal_strlit("error");
            reveal_strlit("response");
            reveal_strlit("unknown");
            assert("error"@.len() == 5 && "response"@.len() == 8 && "unknown"@.len() == 7);
        }
        if same_text(parsed.kind, "error") {
            let message = match parsed.error_msg {
                Some(text) => text,
                None => "server error".to_owned(),
            };
            replies.push(error(message.as_str()));
            assert(message_views(replies@) =~= seq![ServerMsgView::Error(message@)]);
            return ServerStep { replies, done: true };
        }
        if !same_text(parsed.kind, "response") {
            return ServerStep { replies, done: false };
        }
        match parsed.json_text {
            Some(json) => self.on_response_text(parsed.flags, json.as_str()),
            None => ServerStep { replies, done: false },
        }
    }
}

/// An error that the service reports reaches the client word for word, as the
/// only message, and ends the session without changing anything else.
pub proof fn law_failure_reaches_the_client(
    state: RelayState,
    flags: u8,
    serialization: u8,
    compression: u8,
    code: u32,
    text: Seq<char>,
)
    requires
        flags < 16,
        encode_utf8(text).len() < 0x1_0000_0000,
    ensures
        server_step(
            state,
            ServerEventView::Binary(
                server_message(
                    header_bytes(MSG_ERROR_RESPONSE, flags, serialization, compression),
                    be_bytes(code as int),
                    encode_utf8(text),
                ),
            ),
        ) == (StepView { state, replies: seq![ServerMsgView::Error(text)], done: true }),
{
    let data = server_message(
        header_bytes(MSG_ERROR_RESPONSE, flags, serialization, compression),
        be_bytes(code as int),
        encode_utf8(text),
    );
    law_failure_is_read_back(
        flags,
        serialization,
        compression,
        code,
        encode_utf8(text),
        Seq::<u8>::empty(),
    );
    law_sent_text_is_received(text);
    assert(data + Seq::<u8>::empty() =~= data);
}

/// A response that the service sends is taken into account word for word.
pub proof fn law_response_is_taken_into_account(
    state: RelayState,
    flags: u8,
    serialization: u8,
    compression: u8,
    sequence: Seq<u8>,
    text: Seq<char>,
)
    requires
        flags < 16,
        sequence.len() == 4,
        encode_utf8(text).len() < 0x1_0000_0000,
    ensures
        server_step(
            state,
            ServerEventView::Binary(
                server_message(
                    header_bytes(MSG_FULL_SERVER_RESPONSE, flags, serialization, compression),
                    sequence,
                    encode_utf8(text),
                ),
            ),
        ) == on_response(state, flags, text),
{
    let data = server_message(
        header_bytes(MSG_FULL_SERVER_RESPONSE, flags, serialization, compression),
        sequence,
        encode_utf8(text),
    );
    law_response_is_read_back(
        flags,
        serialization,
        compression,
        sequence,
        encode_utf8(text),
        Seq::<u8>::empty(),
    );
    law_sent_text_is_received(text);
    assert(data + Seq::<u8>::empty() =~= data);
}

/// Something that happens to a session.
pub enum RelayEvent {
    /// Audio, or the end of its source.
    Audio(Option<AudioMsg>),
    /// A frame of audio could not be sent.
    SendFailed,
    /// Something from the service.
    Server(ServerEventView),
}

/// What has become of a session.
pub struct RelayRun {
    pub state: RelayState,
    /// The frames of audio handed out to be sent.
    pub sent: Seq<Seq<u8>>,
    /// What the client was told.
    pub replies: Seq<ServerMsgView>,
    /// The end times of the utterances handed out.
    pub end_times: Seq<int>,
    pub done: bool,
}

/// The utterances in something from the service: those of a response that
/// carries a list of them.
pub open spec fn utterances_in(event: ServerEventView) -> Option<Seq<UtteranceView>> {
    match event {
        ServerEventView::Binary(data) => match server_frame(data) {
            ServerFrame::Response { payload, .. } => match result_of(json_parse(received_text(payload))) {
                AsrResultView::Utterances(list) => Some(list),
                _ => None,
            },
            _ => None,
        },
        _ => None,
    }
}

/// The end times of the utterances that something from the service gives.
pub open spec fn new_end_times(state: RelayState, event: ServerEventView) -> Seq<int> {
    match utterances_in(event) {
        Some(list) => end_times_of(list, state.end_time),
        None => seq![],
    }
}

/// What one event makes of a session. Audio is awaited only while it is still
/// to be sent, and nothing is once the session has ended.
pub open spec fn run_step(run: RelayRun, event: RelayEvent) -> RelayRun {
    if run.done {
        run
    } else {
        match event {
            RelayEvent::Audio(audio) => if !run.state.audio_active {
                run
            } else {
                RelayRun {
                    state: after_audio(run.state, audio),
                    sent: match audio_frame(audio) {
                        Some(frame) => run.sent.push(frame),
                        None => run.sent,
                    },
                    ..run
                }
            },
            RelayEvent::SendFailed => RelayRun { state: muted(run.state), ..run },
            RelayEvent::Server(event) => {
                let step = server_step(run.state, event);
                RelayRun {
                    state: step.state,
                    sent: run.sent,
                    replies: run.replies + step.replies,
                    end_times: run.end_times + new_end_times(run.state, event),
                    done: step.done,
                }
            },
        }
    }
}

/// The course of a session.
pub open spec fn relay_run(mode: Seq<char>, events: Seq<RelayEvent>) -> RelayRun
    decreases events.len(),
{
    if events.len() == 0 {
        RelayRun {
            state: fresh(mode),
            sent: seq![],
            replies: seq![],
            end_times: seq![],
            done: false,
        }
    } else {
        run_step(relay_run(mode, events.drop_last()), events.last())
    }
}

/// A frame of audio with more to come.
pub open spec fn is_chunk_frame(frame: Seq<u8>) -> bool {
    exists|pcm: Seq<u8>| frame == #[trigger] audio_only_request(pcm, false)
}

/// The last frame of audio.
pub open spec fn is_closing_frame(frame: Seq<u8>) -> bool {
    exists|pcm: Seq<u8>| frame == #[trigger] audio_only_request(pcm, true)
}

/// No frame is both a chunk and the last one.
pub proof fn law_closing_frames_are_no_chunks(frame: Seq<u8>)
    ensures
        !(is_chunk_frame(frame) && is_closing_frame(frame)),
{
    if is_chunk_frame(frame) && is_closing_frame(frame) {
        let pcm1 = choose|pcm: Seq<u8>| frame == #[trigger] audio_only_request(pcm, false);
        let pcm2 = choose|pcm: Seq<u8>| frame == #[trigger] audio_only_request(pcm, true);
        law_audio_frame_tells_the_last(pcm1, false, pcm2, true);
    }
}

/// Audio comes in order to its end: all frames but the last that is sent have
/// more to come, and while audio is still to be sent so has the last.
pub proof fn law_nothing_follows_the_closing_frame(mode: Seq<char>, events: Seq<RelayEvent>)
    ensures
        ({
            let run = relay_run(mode, events);
            &&& forall|i: int| 0 <= i < run.sent.len() - 1 ==> is_chunk_frame(#[trigger] run.sent[i])
            &&& run.sent.len() > 0 ==> is_chunk_frame(run.sent.last()) || is_closing_frame(
                run.sent.last(),
            )
            &&& run.state.audio_active && run.sent.len() > 0 ==> is_chunk_frame(run.sent.last())
        }),
    decreases events.len(),
{
    if events.len() > 0 {
        let before = relay_run(mode, events.drop_last());
        let run = relay_run(mode, events);
        law_nothing_follows_the_closing_frame(mode, events.drop_last());
        if !before.done && before.state.audio_active && events.last() is Audio {
            let audio = events.last()->Audio_0;
            if audio is Some {
                let frame = audio_only_request(audio->0.payload(), audio->0 is End);
                assert(run.sent == before.sent.push(frame));
                assert forall|i: int| 0 <= i < run.sent.len() - 1 implies is_chunk_frame(
                    #[trigger] run.sent[i],
                ) by {
                    assert(run.sent[i] == before.sent[i]);
                }
            }
        }
    }
}

/// Once audio is no longer to be sent, no more of it is, whatever happens.
pub proof fn law_muted_session_stays_muted(mode: Seq<char>, events: Seq<RelayEvent>, event: RelayEvent)
    requires
        !relay_run(mode, events).state.audio_active,
    ensures
        !relay_run(mode, events.push(event)).state.audio_active,
        relay_run(mode, events.push(event)).sent == relay_run(mode, events).sent,
{
    assert(events.push(event).drop_last() =~= events);
}

/// Once a session has ended, nothing happens any more.
pub proof fn law_ended_session_stays_ended(mode: Seq<char>, events: Seq<RelayEvent>, event: RelayEvent)
    requires
        relay_run(mode, events).done,
    ensures
        relay_run(mode, events.push(event)) == relay_run(mode, events),
{
    assert(events.push(event).drop_last() =~= events);
}

/// The end times of the utterances handed out belong to the final texts that
/// the client is told: after the preview, if there is one, there is a final text
/// for each of them in the same order, which an utterance that ends at that time
/// says.
pub proof fn law_end_times_belong_to_the_finals(state: RelayState, event: ServerEventView)
    ensures
        utterances_in(event) is None ==> new_end_times(state, event).len() == 0,
        utterances_in(event) matches Some(list) ==> {
            let told = server_step(state, event).replies;
            let times = new_end_times(state, event);
            let before: int = if preview_of(list) is Some {
                1
            } else {
                0
            };
            &&& told.len() == before + times.len()
            &&& forall|i: int|
                0 <= i < times.len() ==> #[trigger] told[before + i] is Final && said_at(
                    list,
                    times[i],
                    told[before + i]->Final_0,
                )
        },
{
    if let Some(list) = utterances_in(event) {
        law_end_times_rise(list, state.end_time);
        let told = server_step(state, event).replies;
        let times = new_end_times(state, event);
        let texts = finals_of(list, state.end_time);
        let before: int = if preview_of(list) is Some {
            1
        } else {
            0
        };
        assert forall|i: int| 0 <= i < times.len() implies #[trigger] told[before + i] is Final && said_at(
            list,
            times[i],
            told[before + i]->Final_0,
        ) by {
            assert(told[before + i] == ServerMsgView::Final(texts[i]));
            assert(said_at(list, end_times_of(list, state.end_time)[i], texts[i]));
        }
    }
}

/// A session hands every utterance out at most once: the end times of those it
/// hands out rise, up to the one that it remembers.
pub proof fn law_session_hands_out_once(mode: Seq<char>, events: Seq<RelayEvent>)
    ensures
        ({
            let run = relay_run(mode, events);
            &&& rising(run.end_times)
            &&& run.state.end_time >= -1
            &&& within(run.end_times, -1, run.state.end_time)
        }),
    decreases events.len(),
{
    if events.len() > 0 {
        let before = relay_run(mode, events.drop_last());
        let run = relay_run(mode, events);
        law_session_hands_out_once(mode, events.drop_last());
        if !before.done && events.last() is Server {
            let event = events.last()->Server_0;
            if let Some(list) = utterances_in(event) {
                law_end_times_rise(list, before.state.end_time);
            }
            lemma_rising_concat(
                before.end_times,
                new_end_times(before.state, event),
                -1,
                before.state.end_time,
                run.state.end_time,
            );
        }
    }
}

/// What a client is told of a response is the preview, as the one partial text,
/// if there is a preview, and then each final text as such, in their order;
/// nothing else. The response ends the session exactly if its flags are 3, and
/// touches neither the mode nor the audio.
pub proof fn law_response_is_shown(state: RelayState, data: Seq<u8>)
    requires
        server_frame(data) is Response,
    ensures
        ({
            let flags = server_frame(data)->Response_flags;
            let text = received_text(server_frame(data)->Response_payload);
            let after = outcome(
                result_of(json_parse(text)),
                state.end_time,
                state.full_text,
                state.mode,
            );
            let step = server_step(state, ServerEventView::Binary(data));
            let first: int = if after.partial is Some {
                1
            } else {
                0
            };
            &&& step.replies.len() == first + after.finals.len()
            &&& after.partial matches Some(preview) ==> step.replies[0] == ServerMsgView::Partial(preview)
            &&& forall|i: int|
                first <= i < step.replies.len() ==> #[trigger] step.replies[i] == ServerMsgView::Final(
                    after.finals[i - first],
                )
            &&& step.done <==> flags == 3
            &&& step.state.end_time == after.end_time
            &&& step.state.full_text == after.full_text
            &&& step.state.mode == state.mode
            &&& step.state.audio_active == state.audio_active
        }),
{
}

/// Of a response whose utterances are all unfinished a client is told at most one
/// text, and that as partial: nothing is final before it is definite.
pub proof fn law_unfinished_utterances_are_never_final(state: RelayState, event: ServerEventView)
    requires
        utterances_in(event) is Some,
        forall|k: int| 0 <= k < utterances_in(event)->0.len() ==> !(#[trigger] utterances_in(event)->0[k]).definite,
    ensures
        server_step(state, event).replies.len() <= 1,
        forall|i: int|
            0 <= i < server_step(state, event).replies.len() ==> (#[trigger] server_step(
                state,
                event,
            ).replies[i]) is Partial,
        server_step(state, event).state.end_time == state.end_time,
{
    let list = utterances_in(event)->0;
    law_end_times_rise(list, state.end_time);
    if finals_of(list, state.end_time).len() > 0 {
        assert(said_at(
            list,
            end_times_of(list, state.end_time)[0],
            finals_of(list, state.end_time)[0],
        ));
    }
}

/// Anything from the service that is not a response leaves the session as it
/// was. An error is told word for word, as the only message; of everything else
/// the client is told nothing. An error and the end of the connection end the
/// session; a frame that is not understood and an ignored message do not.
pub proof fn law_other_events_change_nothing(state: RelayState, event: ServerEventView)
    requires
        event matches ServerEventView::Binary(data) ==> !(server_frame(data) is Response),
    ensures
        server_step(state, event).state == state,
        ({
            let step = server_step(state, event);
            match event {
                ServerEventView::Binary(data) => match server_frame(data) {
                    ServerFrame::Failure { message, .. } => step.done && step.replies
                        =~= seq![ServerMsgView::Error(received_text(message))],
                    _ => !step.done && step.replies.len() == 0,
                },
                ServerEventView::Ignored => !step.done && step.replies.len() == 0,
                _ => step.done && step.replies.len() == 0,
            }
        }),
{
}

/// Audio is sent as it comes: the frame of a piece is its bytes after a header
/// and their number, with 0x20 in the second byte while more is to come and 0x22
/// in the last frame. Only the last piece and the loss of the source end the
/// sending, and nothing else in the session changes.
pub proof fn law_audio_is_sent_as_it_comes(state: RelayState, audio: Option<AudioMsg>)
    ensures
        audio_frame(audio) is Some <==> audio is Some,
        audio matches Some(message) ==> {
            let frame = audio_frame(audio)->0;
            let bytes = match message {
                AudioMsg::Chunk(bytes) => bytes@,
                AudioMsg::End(bytes) => bytes@,
            };
            &&& frame.len() == 8 + bytes.len()
            &&& frame.skip(8) == bytes
            &&& frame[0] == 0x11 && frame[2] == 0 && frame[3] == 0
            &&& message is Chunk <==> frame[1] == 0x20
            &&& message is End <==> frame[1] == 0x22
        },
        ({
            let after = after_audio(state, audio);
            &&& after.audio_active <==> state.audio_active && audio is Some && audio->0 is Chunk
            &&& after.mode == state.mode && after.end_time == state.end_time && after.full_text
                == state.full_text
        }),
        ({
            let after = muted(state);
            &&& !after.audio_active
            &&& after.mode == state.mode && after.end_time == state.end_time && after.full_text
                == state.full_text
        }),
{
    if let Some(message) = audio {
        let payload = message.payload();
        let frame = audio_frame(audio)->0;
        law_client_frames_have_their_headers(payload);
        assert(frame == audio_only_request(payload, message is End));
        let head = frame.take(4);
        assert(frame[0] == head[0] && frame[1] == head[1] && frame[2] == head[2] && frame[3] == head[3]);
    }
}

/// A session begins in its mode, with audio to be sent, having handed out
/// nothing: any utterance that ends at 0 or later is still to come.
pub proof fn law_session_begins_afresh(mode: Seq<char>)
    ensures
        fresh(mode).mode == mode,
        fresh(mode).audio_active,
        fresh(mode).end_time == -1,
        fresh(mode).full_text.len() == 0,
{
}

/// The views of a session and of an event have the same parts.
pub proof fn law_views_of_a_session(session: RelaySession, data: Vec<u8>)
    ensures
        session@.mode == session.mode@,
        session@.end_time == session.last_committed_end_time,
        session@.full_text == session.last_full_text@,
        session@.audio_active == session.audio_active,
        ServerEvent::Binary(data)@ == ServerEventView::Binary(data@),
        ServerEvent::Ignored@ is Ignored,
        ServerEvent::Closed@ is Closed,
        ServerEvent::Failed@ is Failed,
        ServerEvent::Ended@ is Ended,
{
}

} // verus!
