use vstd::prelude::*;
use vstd::utf8::{decode_utf8, valid_utf8};

use crate::text::{dec_nat, same_text, trim, trim_seq};
use tokio_tungstenite::tungstenite::protocol::frame::coding::CloseCode;
use tokio_tungstenite::tungstenite::protocol::CloseFrame;
use tokio_tungstenite::tungstenite::Message;

verus! {

/// A WebSocket message as it was read from a peer.
pub enum Frame {
    Text(String),
    Binary(Vec<u8>),
    Ping(Vec<u8>),
    Pong(Vec<u8>),
    /// A close message, with its code and reason when it carries them.
    Close(Option<(u16, String)>),
}

/// The abstract form of a `Frame`.
pub enum FrameView {
    Text(Seq<char>),
    Binary(Seq<u8>),
    Ping(Seq<u8>),
    Pong(Seq<u8>),
    Close(Option<(u16, Seq<char>)>),
}

impl View for Frame {
    type V = FrameView;

    open spec fn view(&self) -> FrameView {
        match self {
            Frame::Text(s) => FrameView::Text(s@),
            Frame::Binary(b) => FrameView::Binary(b@),
            Frame::Ping(b) => FrameView::Ping(b@),
            Frame::Pong(b) => FrameView::Pong(b@),
            Frame::Close(None) => FrameView::Close(None),
            Frame::Close(Some((c, r))) => FrameView::Close(Some((*c, r@))),
        }
    }
}

/// How a byte payload is shown: as text when it is UTF-8, else by its length.
pub open spec fn bytes_display(b: Seq<u8>) -> Seq<char> {
    if valid_utf8(b) {
        decode_utf8(b)
    } else {
        "Binary Data<length="@ + dec_nat(b.len()) + ">"@
    }
}

/// How a message is shown as text.
pub open spec fn frame_display(f: FrameView) -> Seq<char> {
    match f {
        FrameView::Text(s) => s,
        FrameView::Binary(b) => bytes_display(b),
        FrameView::Ping(b) => bytes_display(b),
        FrameView::Pong(b) => bytes_display(b),
        FrameView::Close(None) => Seq::<char>::empty(),
        FrameView::Close(Some((_, reason))) => reason,
    }
}

/// `Display` of `tungstenite::Message`, applied to the message that `frame`
/// stands for: the text of a text message or of a close reason, a byte
/// payload decoded when it is UTF-8 and otherwise `Binary Data<length=n>`.
#[verifier::external_body]
fn frame_text(frame: &Frame) -> (r: String)
    ensures
        r@ == frame_display(frame@),
{
    let m = match frame {
        Frame::Text(s) => Message::Text(s.clone()),
        Frame::Binary(b) => Message::Binary(b.clone()),
        Frame::Ping(b) => Message::Ping(b.clone()),
        Frame::Pong(b) => Message::Pong(b.clone()),
        Frame::Close(None) => Message::Close(None),
        Frame::Close(Some((c, r))) => Message::Close(
            Some(CloseFrame { code: CloseCode::from(*c), reason: r.clone().into() }),
        ),
    };
    m.to_string()
}

/// The name a peer gives in the first message after it connects: the
/// message's text without surrounding white space. `None` when that name is
/// `0`, which stands for the server and which no peer may take.
pub fn handshake_name(first: &Frame) -> (r: Option<String>)
    ensures
        ({
            let n = trim_seq(frame_display(first@));
            if n == "0"@ {
                r is None
            } else {
                r matches Some(s) && s@ == n
            }
        }),
{
    let t = frame_text(first);
    let n = trim(t.as_str());
    if same_text(n.as_str(), "0") {
        None
    } else {
        Some(n)
    }
}

/// What reading from a peer's connection gave.
pub enum PeerEvent {
    Message(Frame),
    /// The read failed.
    Failed,
    /// The connection has no more messages.
    Ended,
}

/// A line handed to the task that keeps the notifications: what a read from
/// the server gave, or what a peer sent, with the peer's name.
pub enum ChannelLine {
    Server(String),
    Peer { from: String, text: String },
}

/// The abstract form of a `ChannelLine`.
pub enum ChannelLineView {
    Server(Seq<char>),
    Peer { from: Seq<char>, text: Seq<char> },
}

impl View for ChannelLine {
    type V = ChannelLineView;

    open spec fn view(&self) -> ChannelLineView {
        match self {
            ChannelLine::Server(t) => ChannelLineView::Server(t@),
            ChannelLine::Peer { from, text } => ChannelLineView::Peer { from: from@, text: text@ },
        }
    }
}

/// What is reported for an event on a peer's connection: the text of a
/// text message, `invalid response` for another message, `down` when the
/// read failed or the connection ended.
pub open spec fn relay_body(ev: PeerEvent) -> Seq<char> {
    match ev {
        PeerEvent::Message(Frame::Text(s)) => s@,
        PeerEvent::Message(_) => "invalid response"@,
        _ => "down"@,
    }
}

/// The channel line for an event on the connection with the peer `name`:
/// always a peer's line, never one from the server.
pub open spec fn relay_text(name: Seq<char>, ev: PeerEvent) -> ChannelLineView {
    ChannelLineView::Peer { from: name, text: relay_body(ev) }
}

fn relay_line(name: &str, ev: &PeerEvent) -> (r: ChannelLine)
    ensures
        r@ == relay_text(name@, *ev),
{
    let text = match ev {
        PeerEvent::Message(Frame::Text(s)) => s.clone(),
        PeerEvent::Message(_) => "invalid response".to_owned(),
        _ => "down".to_owned(),
    };
    ChannelLine::Peer { from: name.to_owned(), text }
}

/// For a peer that connected to us: the channel line for the event, and
/// whether to keep reading (only after a message).
pub fn relay_accepted(name: &str, ev: &PeerEvent) -> (r: (ChannelLine, bool))
    ensures
        r.0@ == relay_text(name@, *ev),
        r.1 == (ev is Message),
{
    let more = match ev {
        PeerEvent::Message(_) => true,
        _ => false,
    };
    (relay_line(name, ev), more)
}

/// For a peer that we connected to: the channel line for the event; reading
/// goes on after a failed read too.
pub fn relay_dialed(name: &str, ev: &PeerEvent) -> (r: ChannelLine)
    requires
        !(ev is Ended),
    ensures
        r@ == relay_text(name@, *ev),
{
    relay_line(name, ev)
}

} // verus!
