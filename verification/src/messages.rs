//! The messages exchanged with a client, one JSON object per line.
use vstd::prelude::*;
use vstd::string::*;

verus! {

/// What a client asks for.
#[derive(Debug)]
pub enum ClientMsg {
    Start { mode: Option<String> },
    Stop,
    Cancel,
    /// A message of a type that is not known.
    Other,
}

/// What a client is told.
#[derive(Debug)]
pub enum ServerMsg {
    /// The state of its session: `connecting`, `recording` or `idle`.
    Status { state: String },
    /// A preview of what is being said.
    Partial { text: String },
    /// A text that will not change any more.
    Final { text: String },
    Error { message: String },
}

/// What a [`ServerMsg`] says.
pub enum ServerMsgView {
    Status(Seq<char>),
    Partial(Seq<char>),
    Final(Seq<char>),
    Error(Seq<char>),
}

impl View for ServerMsg {
    type V = ServerMsgView;

    open spec fn view(&self) -> ServerMsgView {
        match self {
            ServerMsg::Status { state } => ServerMsgView::Status(state@),
            ServerMsg::Partial { text } => ServerMsgView::Partial(text@),
            ServerMsg::Final { text } => ServerMsgView::Final(text@),
            ServerMsg::Error { message } => ServerMsgView::Error(message@),
        }
    }
}

/// What a list of messages says.
pub open spec fn message_views(list: Seq<ServerMsg>) -> Seq<ServerMsgView> {
    Seq::new(list.len(), |i: int| list[i]@)
}

pub(crate) fn status(state: &str) -> (message: ServerMsg)
    ensures
        message@ == ServerMsgView::Status(state@),
{
    ServerMsg::Status { state: state.to_owned() }
}

pub(crate) fn error(message: &str) -> (reply: ServerMsg)
    ensures
        reply@ == ServerMsgView::Error(message@),
{
    ServerMsg::Error { message: message.to_owned() }
}

/// The line that carries a message with the given JSON text: the text, or an
/// empty object where there is none, and a newline.
pub open spec fn line_of(encoded: Option<String>) -> Seq<char> {
    let text = match encoded {
        Some(text) => text@,
        None => "{}"@,
    };
    text.push('\n')
}

/// The line that carries a message, given its JSON text. A message that could
/// not be encoded is replaced by an empty object.
pub fn serialize_msg(encoded: Option<String>) -> (line: String)
    ensures
        line@ == line_of(encoded),
{
    let mut line = match encoded {
        Some(text) => text,
        None => "{}".to_owned(),
    };
    proof {
        reveal_strlit("\n");
    }
    let ghost text = line@;
    line.append("\n");
    assert(line@ =~= text.push('\n'));
    line
}

/// A message is one line: as its JSON text holds no newline, the only newline is
/// the one that ends the line.
pub proof fn law_message_is_one_line(encoded: Option<String>)
    requires
        encoded matches Some(text) ==> !text@.contains('\n'),
    ensures
        line_of(encoded).last() == '\n',
        !line_of(encoded).drop_last().contains('\n'),
{
    reveal_strlit("{}");
    let line = line_of(encoded);
    if encoded is Some {
        assert(line.drop_last() =~= encoded->0@);
    } else {
        assert(line.drop_last() =~= "{}"@);
    }
}

/// The view of a message is its kind and its text, and that of a list has one
/// for each message.
pub proof fn law_views_of_messages(list: Seq<ServerMsg>, text: String)
    ensures
        (ServerMsg::Status { state: text })@ == ServerMsgView::Status(text@),
        (ServerMsg::Partial { text })@ == ServerMsgView::Partial(text@),
        (ServerMsg::Final { text })@ == ServerMsgView::Final(text@),
        (ServerMsg::Error { message: text })@ == ServerMsgView::Error(text@),
        message_views(list).len() == list.len(),
        forall|i: int| 0 <= i < list.len() ==> #[trigger] message_views(list)[i] == list[i]@,
{
}

/// A line carries its text unchanged: all of it but the last character is the
/// text, and the last character is a newline.
pub proof fn law_line_carries_its_text(encoded: Option<String>)
    ensures
        line_of(encoded).len() > 0,
        line_of(encoded).last() == '\n',
        encoded matches Some(text) ==> line_of(encoded).drop_last() == text@,
        encoded is None ==> line_of(encoded).drop_last() == "{}"@,
{
    if encoded is Some {
        assert(line_of(encoded).drop_last() =~= encoded->0@);
    } else {
        assert(line_of(encoded).drop_last() =~= "{}"@);
    }
}

} // verus!
