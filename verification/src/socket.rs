//! The connection of a browser to the desktop.

use vstd::prelude::*;

use crate::message::{Message, MessageView};

verus! {

/// What happens at a connection.
#[derive(Debug, PartialEq, Eq)]
pub enum SocketEvent {
    /// The browser has connected.
    Opened,
    /// The desktop has something to tell the browsers.
    Told(Message),
    /// The browser has sent a message.
    Received(Message),
    /// The browser has closed the connection.
    Closed,
    /// Something else.
    Other,
}

/// What is done about it.
#[derive(Debug, PartialEq, Eq)]
pub enum SocketAction {
    /// Send a message to the browser.
    Send(Message),
    /// Hand a message to the desktop.
    Forward(Message),
    /// Hand a message to the desktop, and end.
    ForwardAndStop(Message),
    /// Nothing.
    Ignore,
}

/// An action with its message in texts as character sequences.
pub enum SocketActionView {
    Send(MessageView),
    Forward(MessageView),
    ForwardAndStop(MessageView),
    Ignore,
}

impl View for SocketAction {
    type V = SocketActionView;

    open spec fn view(&self) -> SocketActionView {
        match self {
            SocketAction::Send(m) => SocketActionView::Send(m@),
            SocketAction::Forward(m) => SocketActionView::Forward(m@),
            SocketAction::ForwardAndStop(m) => SocketActionView::ForwardAndStop(m@),
            SocketAction::Ignore => SocketActionView::Ignore,
        }
    }
}

/// What is done about an event at a connection.
pub open spec fn answer_to(event: SocketEvent) -> SocketActionView {
    match event {
        SocketEvent::Opened => SocketActionView::Forward(MessageView::WSConnection),
        SocketEvent::Told(m) => SocketActionView::Send(m@),
        SocketEvent::Received(m) => SocketActionView::Forward(m@),
        SocketEvent::Closed => SocketActionView::ForwardAndStop(MessageView::WSClose),
        SocketEvent::Other => SocketActionView::Ignore,
    }
}

/// What is done about an event at a connection.
pub fn websocket(event: SocketEvent) -> (res: SocketAction)
    ensures
        res@ == answer_to(event),
        res@ == (match event {
            SocketEvent::Opened => SocketActionView::Forward(MessageView::WSConnection),
            SocketEvent::Told(m) => SocketActionView::Send(m@),
            SocketEvent::Received(m) => SocketActionView::Forward(m@),
            SocketEvent::Closed => SocketActionView::ForwardAndStop(MessageView::WSClose),
            SocketEvent::Other => SocketActionView::Ignore,
        }),
{
    match event {
        SocketEvent::Opened => SocketAction::Forward(Message::WSConnection),
        SocketEvent::Told(m) => SocketAction::Send(m),
        SocketEvent::Received(m) => SocketAction::Forward(m),
        SocketEvent::Closed => SocketAction::ForwardAndStop(Message::WSClose),
        SocketEvent::Other => SocketAction::Ignore,
    }
}

/// A connection passes messages on as they are, and to the other side: what the
/// desktop tells goes to the browser, and what the browser sends goes to the
/// desktop. The desktop learns that the browser has come and that it has gone, and
/// the connection ends exactly when it has gone.
pub proof fn connection_passes_messages_on(event: SocketEvent, m: Message)
    ensures
        answer_to(event) matches SocketActionView::Send(sent) ==> (event matches
            SocketEvent::Told(told) && told@ == sent),
        answer_to(SocketEvent::Told(m)) == SocketActionView::Send(m@),
        answer_to(SocketEvent::Received(m)) == SocketActionView::Forward(m@),
        answer_to(SocketEvent::Opened) == SocketActionView::Forward(MessageView::WSConnection),
        answer_to(event) is ForwardAndStop <==> event is Closed,
        answer_to(event) matches SocketActionView::ForwardAndStop(last) ==> last is WSClose,
        answer_to(event) is Ignore <==> event is Other,
{
}

} // verus!
