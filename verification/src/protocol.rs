//! Messages and endpoint roles.

use crate::buffers;
use crate::buffers::contents;
use crate::error::CloseReason;
use bytes::Bytes;
use vstd::prelude::*;
use vstd::string::*;

verus! {

/// The side of a connection.
#[derive(Debug, Clone, Copy, PartialEq, Eq, Structural)]
pub enum Role {
    /// Accepts connections.
    Server,
    /// Opens connections.
    Client,
}

/// A WebSocket message.
#[derive(Debug)]
pub enum Message {
    /// Text.
    Text(Bytes),
    /// Binary data.
    Binary(Bytes),
    /// A ping with its payload.
    Ping(Bytes),
    /// A pong with its payload.
    Pong(Bytes),
    /// A close, with the reason where one was given.
    Close(Option<CloseReason>),
}

/// A close reason, as mathematical values.
pub struct CloseView {
    pub code: u16,
    pub reason: Seq<char>,
}

/// A message, as mathematical values.
pub enum MessageView {
    Text(Seq<u8>),
    Binary(Seq<u8>),
    Ping(Seq<u8>),
    Pong(Seq<u8>),
    Close(Option<CloseView>),
}

impl View for CloseReason {
    type V = CloseView;

    open spec fn view(&self) -> CloseView {
        CloseView { code: self.code, reason: self.reason@ }
    }
}

impl View for Message {
    type V = MessageView;

    open spec fn view(&self) -> MessageView {
        match self {
            Message::Text(b) => MessageView::Text(contents(*b)),
            Message::Binary(b) => MessageView::Binary(contents(*b)),
            Message::Ping(b) => MessageView::Ping(contents(*b)),
            Message::Pong(b) => MessageView::Pong(contents(*b)),
            Message::Close(r) => MessageView::Close(
                match r {
                    Some(c) => Some(c@),
                    None => None,
                },
            ),
        }
    }
}

impl Message {
    /// A text message.
    pub fn text(text: &str) -> (r: Message)
        ensures
            r@ == MessageView::Text(vstd::utf8::encode_utf8(text@)),
    {
        Message::Text(buffers::bytes_from_vec(text.as_bytes_vec()))
    }

    /// A binary message.
    pub fn binary(data: Vec<u8>) -> (r: Message)
        ensures
            r@ == MessageView::Binary(data@),
    {
        Message::Binary(buffers::bytes_from_vec(data))
    }

    /// Whether this is a close.
    pub fn is_close(&self) -> (r: bool)
        ensures
            r == (self@ is Close),
    {
        match self {
            Message::Close(_) => true,
            _ => false,
        }
    }

    /// A copy that shares the payload.
    pub fn share(&self) -> (r: Message)
        ensures
            r@ == self@,
    {
        match self {
            Message::Text(b) => Message::Text(buffers::bytes_clone(b)),
            Message::Binary(b) => Message::Binary(buffers::bytes_clone(b)),
            Message::Ping(b) => Message::Ping(buffers::bytes_clone(b)),
            Message::Pong(b) => Message::Pong(buffers::bytes_clone(b)),
            Message::Close(r) => Message::Close(
                match r {
                    Some(c) => Some(CloseReason { code: c.code, reason: c.reason.clone() }),
                    None => None,
                },
            ),
        }
    }
}

/// The view of a message is of its kind and holds its payload.
pub proof fn law_view_is_the_message(m: Message)
    ensures
        m matches Message::Text(b) ==> m@ == MessageView::Text(contents(b)),
        m matches Message::Binary(b) ==> m@ == MessageView::Binary(contents(b)),
        m matches Message::Ping(b) ==> m@ == MessageView::Ping(contents(b)),
        m matches Message::Pong(b) ==> m@ == MessageView::Pong(contents(b)),
        m matches Message::Close(None) ==> m@ == MessageView::Close(None),
        m matches Message::Close(Some(c)) ==> m@ == MessageView::Close(
            Some(CloseView { code: c.code, reason: c.reason@ }),
        ),
{
}

} // verus!
