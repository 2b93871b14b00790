//! The conversation with a client, as a state machine.
//!
//! A client has at most one session at a time. The program around it reads the
//! client's lines, performs the actions, and reports how they went.
use crate::config::AsrConfig;
use crate::messages::{error, message_views, status, ClientMsg, ServerMsg, ServerMsgView};
use vstd::prelude::*;

verus! {

/// What a line from a client amounts to.
pub enum Wish {
    Begin,
    Halt,
    Unclear,
}

/// What a message asks for; a line that is no message asks for nothing clear.
pub open spec fn wish_of(message: Option<ClientMsg>) -> Wish {
    match message {
        Some(ClientMsg::Start { .. }) => Wish::Begin,
        Some(ClientMsg::Stop) => Wish::Halt,
        Some(ClientMsg::Cancel) => Wish::Halt,
        Some(ClientMsg::Other) => Wish::Unclear,
        None => Wish::Unclear,
    }
}

/// What is to be done about a line.
#[derive(Debug)]
pub enum ClientAction {
    /// Nothing, and nothing is answered.
    Ignore,
    /// Load the configuration and report it to [`ClientSession::on_config`].
    Open,
    /// Answer.
    Reply(ServerMsg),
    /// End the running session, wait for it, then answer.
    CloseThenReply(ServerMsg),
}

/// What a [`ClientAction`] holds.
pub enum ClientActionView {
    Ignore,
    Open,
    Reply(ServerMsgView),
    CloseThenReply(ServerMsgView),
}

impl View for ClientAction {
    type V = ClientActionView;

    open spec fn view(&self) -> ClientActionView {
        match self {
            ClientAction::Ignore => ClientActionView::Ignore,
            ClientAction::Open => ClientActionView::Open,
            ClientAction::Reply(message) => ClientActionView::Reply(message@),
            ClientAction::CloseThenReply(message) => ClientActionView::CloseThenReply(message@),
        }
    }
}

/// What is done about a wish, with or without a session. A client that wants to
/// begin while it has a session is not answered; one that wants to halt is told
/// that it is idle, whether or not there was anything to halt.
pub open spec fn action_on(active: bool, wish: Wish) -> ClientActionView {
    match wish {
        Wish::Begin => if active {
            ClientActionView::Ignore
        } else {
            ClientActionView::Open
        },
        Wish::Halt => if active {
            ClientActionView::CloseThenReply(ServerMsgView::Status("idle"@))
        } else {
            ClientActionView::Reply(ServerMsgView::Status("idle"@))
        },
        Wish::Unclear => ClientActionView::Reply(ServerMsgView::Error("unknown message"@)),
    }
}

/// Whether there is a session after a line has been dealt with. One that is to
/// be opened is there only when its audio has started.
pub open spec fn active_after(active: bool, wish: Wish) -> bool {
    active && !(wish is Halt)
}

/// What a client is told about the configuration of its session.
pub open spec fn config_reply(config: Result<AsrConfig, String>) -> ServerMsgView {
    match config {
        Ok(_) => ServerMsgView::Status("connecting"@),
        Err(problem) => ServerMsgView::Error(problem@),
    }
}

/// What a client is told about the start of its audio.
pub open spec fn audio_reply(started: Result<(), String>) -> ServerMsgView {
    match started {
        Ok(_) => ServerMsgView::Status("recording"@),
        Err(problem) => ServerMsgView::Error(problem@),
    }
}

/// The state of the conversation with one client.
#[derive(Debug)]
pub struct ClientSession {
    /// Whether there is a session. It stays until the client halts it, also
    /// when the recognition service has ended its part.
    pub active: bool,
}

impl ClientSession {
    /// A client that has just connected.
    pub fn new() -> (session: Self)
        ensures
            !session.active,
    {
        ClientSession { active: false }
    }

    /// Deals with a line; it is nothing where it could not be understood.
    pub fn on_message(&mut self, message: Option<ClientMsg>) -> (action: ClientAction)
        ensures
            action@ == action_on(old(self).active, wish_of(message)),
            final(self).active == active_after(old(self).active, wish_of(message)),
    {
        match message.unwrap_or(ClientMsg::Other) {
            ClientMsg::Start { .. } => if self.active {
                ClientAction::Ignore
            } else {
                ClientAction::Open
            },
            ClientMsg::Stop | ClientMsg::Cancel => if self.active {
                self.active = false;
                ClientAction::CloseThenReply(status("idle"))
            } else {
                ClientAction::Reply(status("idle"))
            },
            ClientMsg::Other => ClientAction::Reply(error("unknown message")),
        }
    }

    /// Deals with the configuration of a session that is to be opened. The
    /// message goes to the client; with the configuration, if there is one, the
    /// audio is to be started and reported to [`ClientSession::on_audio`].
    pub fn on_config(&self, config: Result<AsrConfig, String>) -> (step: (ServerMsg, Option<AsrConfig>))
        requires
            !self.active,
        ensures
            step.0@ == config_reply(config),
            step.1 == config.ok(),
    {
        match config {
            Ok(cfg) => (status("connecting"), Some(cfg)),
            Err(problem) => (error(problem.as_str()), None),
        }
    }

    /// Deals with the start of the audio. Where it succeeded, the session is
    /// there and the connection to the service is to be run.
    pub fn on_audio(&mut self, started: Result<(), String>) -> (reply: ServerMsg)
        requires
            !old(self).active,
        ensures
            reply@ == audio_reply(started),
            final(self).active == started is Ok,
    {
        match started {
            Ok(_) => {
                self.active = true;
                status("recording")
            },
            Err(problem) => error(problem.as_str()),
        }
    }
}

/// What a client is told when the connection to the service has ended.
pub open spec fn farewell(outcome: Result<(), String>) -> Seq<ServerMsgView> {
    match outcome {
        Ok(_) => seq![ServerMsgView::Status("idle"@)],
        Err(problem) => seq![ServerMsgView::Error(problem@), ServerMsgView::Status("idle"@)],
    }
}

/// The messages for a client when the connection to the service has ended: the
/// problem, if there was one, and that the session is idle.
pub fn closing_messages(outcome: Result<(), String>) -> (messages: Vec<ServerMsg>)
    ensures
        message_views(messages@) == farewell(outcome),
{
    let mut messages: Vec<ServerMsg> = Vec::new();
    if let Err(problem) = &outcome {
        messages.push(error(problem.as_str()));
    }
    messages.push(status("idle"));
    assert(message_views(messages@) =~= farewell(outcome));
    messages
}

/// One turn of the conversation: a line, and how the configuration and the audio
/// turn out if it comes to that.
pub struct Turn {
    pub message: Option<ClientMsg>,
    pub config: Result<AsrConfig, String>,
    pub started: Result<(), String>,
}

/// What a turn does.
pub struct TurnView {
    /// Whether there is a session afterwards.
    pub active: bool,
    /// What the client is told.
    pub replies: Seq<ServerMsgView>,
    /// Whether a session began.
    pub opened: bool,
    /// Whether a session was ended.
    pub closed: bool,
}

/// A whole turn: the line, and then the configuration and the audio where a
/// session is to be opened.
pub open spec fn turn_of(active: bool, turn: Turn) -> TurnView {
    let after = active_after(active, wish_of(turn.message));
    match action_on(active, wish_of(turn.message)) {
        ClientActionView::Ignore => TurnView {
            active: after,
            replies: seq![],
            opened: false,
            closed: false,
        },
        ClientActionView::Open => if turn.config is Err {
            TurnView {
                active: after,
                replies: seq![config_reply(turn.config)],
                opened: false,
                closed: false,
            }
        } else {
            TurnView {
                active: turn.started is Ok,
                replies: seq![config_reply(turn.config), audio_reply(turn.started)],
                opened: turn.started is Ok,
                closed: false,
            }
        },
        ClientActionView::Reply(message) => TurnView {
            active: after,
            replies: seq![message],
            opened: false,
            closed: false,
        },
        ClientActionView::CloseThenReply(message) => TurnView {
            active: after,
            replies: seq![message],
            opened: false,
            closed: true,
        },
    }
}

/// Stopping and cancelling always leave the client without a session, and it is
/// told so with a single message.
pub proof fn law_halting_leaves_the_client_idle(active: bool, turn: Turn)
    requires
        wish_of(turn.message) is Halt,
    ensures
        !turn_of(active, turn).active,
        turn_of(active, turn).closed == active,
        turn_of(active, turn).replies == seq![ServerMsgView::Status("idle"@)],
{
}

/// A line that is not understood changes nothing and is answered with an error.
pub proof fn law_unclear_line_is_refused(active: bool, turn: Turn)
    requires
        wish_of(turn.message) is Unclear,
    ensures
        turn_of(active, turn) == (TurnView {
            active,
            replies: seq![ServerMsgView::Error("unknown message"@)],
            opened: false,
            closed: false,
        }),
{
}

/// A session that cannot be opened leaves the client as it was, and the last
/// thing it is told is the problem.
pub proof fn law_failed_opening_is_reported(turn: Turn)
    requires
        wish_of(turn.message) is Begin,
        turn.config is Err || turn.started is Err,
    ensures
        !turn_of(false, turn).active,
        !turn_of(false, turn).opened,
        turn_of(false, turn).replies.last() == ServerMsgView::Error(
            if turn.config is Err {
                turn.config->Err_0@
            } else {
                turn.started->Err_0@
            },
        ),
{
}

/// A client is left without an answer only when it wants to begin while it has a
/// session, and then nothing changes.
pub proof fn law_only_a_second_beginning_goes_unanswered(active: bool, turn: Turn)
    ensures
        turn_of(active, turn).replies.len() == 0 <==> active && wish_of(turn.message) is Begin,
        turn_of(active, turn).replies.len() == 0 ==> turn_of(active, turn).active == active
            && !turn_of(active, turn).opened && !turn_of(active, turn).closed,
{
}

/// The sessions that began and were ended in some turns, and whether there is
/// one afterwards.
pub struct Conversation {
    pub active: bool,
    pub opened: nat,
    pub closed: nat,
}

/// The course of a conversation with a client that has just connected.
pub open spec fn conversation(turns: Seq<Turn>) -> Conversation
    decreases turns.len(),
{
    if turns.len() == 0 {
        Conversation { active: false, opened: 0, closed: 0 }
    } else {
        let before = conversation(turns.drop_last());
        let step = turn_of(before.active, turns.last());
        Conversation {
            active: step.active,
            opened: if step.opened {
                before.opened + 1
            } else {
                before.opened
            },
            closed: if step.closed {
                before.closed + 1
            } else {
                before.closed
            },
        }
    }
}

/// A client has at most one session: of those that began, all but one were
/// ended while there is a session, and all of them while there is none.
pub proof fn law_at_most_one_session(turns: Seq<Turn>)
    ensures
        conversation(turns).opened - conversation(turns).closed == (if conversation(turns).active {
            1int
        } else {
            0
        }),
    decreases turns.len(),
{
    if turns.len() > 0 {
        law_at_most_one_session(turns.drop_last());
    }
}

/// What a client asks for is told by the kind of its message alone: the mode of a
/// start makes no difference, stopping and cancelling are the same, and so are a
/// line that is no message and a message of an unknown type.
pub proof fn law_wishes(mode: Option<String>)
    ensures
        wish_of(Some(ClientMsg::Start { mode })) is Begin,
        wish_of(Some(ClientMsg::Stop)) is Halt,
        wish_of(Some(ClientMsg::Cancel)) is Halt,
        wish_of(Some(ClientMsg::Other)) is Unclear,
        wish_of(None) is Unclear,
{
}

/// A session that can be opened is: the client without one is told that it is
/// connecting and then that it is recording, and has a session.
pub proof fn law_opening_succeeds(turn: Turn)
    requires
        wish_of(turn.message) is Begin,
        turn.config is Ok,
        turn.started is Ok,
    ensures
        turn_of(false, turn) == (TurnView {
            active: true,
            replies: seq![ServerMsgView::Status("connecting"@), ServerMsgView::Status("recording"@)],
            opened: true,
            closed: false,
        }),
{
}

/// A problem that keeps a session from being opened is told word for word.
pub proof fn law_problems_are_told(problem: String)
    ensures
        config_reply(Err(problem)) == ServerMsgView::Error(problem@),
        audio_reply(Err(problem)) == ServerMsgView::Error(problem@),
        farewell(Err(problem)).len() == 2,
        farewell(Err(problem))[0] == ServerMsgView::Error(problem@),
        farewell(Err(problem))[1] == farewell(Ok(()))[0],
{
}

/// Whatever became of the connection, the last thing a client is told of it is
/// that it is idle, and only a problem is told before.
pub proof fn law_farewell_ends_idle(outcome: Result<(), String>)
    ensures
        farewell(outcome).last() == ServerMsgView::Status("idle"@),
        farewell(outcome).len() == 1 <==> outcome is Ok,
        farewell(outcome).len() <= 2,
{
}

/// What is done about a line: a session is opened only where there is none, and
/// ended only where there is one; only halting takes a session away.
pub proof fn law_actions_fit_the_state(active: bool, wish: Wish)
    ensures
        action_on(active, wish) is Open <==> !active && wish is Begin,
        action_on(active, wish) is Ignore <==> active && wish is Begin,
        action_on(active, wish) is CloseThenReply <==> active && wish is Halt,
        wish is Halt ==> (action_on(active, wish) matches ClientActionView::CloseThenReply(message)
            ==> message == ServerMsgView::Status("idle"@)),
        wish is Halt ==> (action_on(active, wish) matches ClientActionView::Reply(message) ==> message
            == ServerMsgView::Status("idle"@)),
        wish is Unclear ==> action_on(active, wish) == ClientActionView::Reply(
            ServerMsgView::Error("unknown message"@),
        ),
        active_after(active, wish) <==> active && !(wish is Halt),
{
}

/// The view of an action has its kind and its message.
pub proof fn law_views_of_actions(message: ServerMsg)
    ensures
        ClientAction::Ignore@ is Ignore,
        ClientAction::Open@ is Open,
        ClientAction::Reply(message)@ == ClientActionView::Reply(message@),
        ClientAction::CloseThenReply(message)@ == ClientActionView::CloseThenReply(message@),
{
}

} // verus!
