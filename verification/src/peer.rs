use vstd::prelude::*;

use crate::text::{
    cat, chars_of, decode_lossy, fields3, lossy_utf8, same_text, split, split_fields3,
    split_seq, trim, trim_seq, views,
};
use crate::wire::{ChannelLine, ChannelLineView};

verus! {

// ---------------------------------------------------------------------------
// The menu
// ---------------------------------------------------------------------------

/// The menu lines shown before each command is read.
pub open spec fn starter_lines() -> Seq<Seq<char>> {
    seq![
        "1:Notifications"@,
        "2:Type user name : msg to send the Message"@,
        "3.Type get : user name to connect to the Peer"@,
        "0:Exit"@,
    ]
}

/// The menu lines, in the order they are shown.
pub fn print_starters() -> (r: Vec<String>)
    ensures
        views(r@) == starter_lines(),
{
    let mut r: Vec<String> = Vec::new();
    r.push("1:Notifications".to_owned());
    r.push("2:Type user name : msg to send the Message".to_owned());
    r.push("3.Type get : user name to connect to the Peer".to_owned());
    r.push("0:Exit".to_owned());
    assert(views(r@) =~= starter_lines());
    r
}

/// A command typed by the user.
pub enum Command {
    /// Leave the program.
    Exit,
    /// Show the notifications received so far.
    ShowNotifications,
    /// Send a message: the fields of the input, the last holding all that
    /// follows the name (see `fields3`).
    Send(Vec<String>),
    /// Look up a user: the `:`-separated fields of the input.
    Get(Vec<String>),
    /// Anything else, which does nothing.
    Ignore,
}

/// The abstract form of a `Command`.
pub enum CommandView {
    Exit,
    ShowNotifications,
    Send(Seq<Seq<char>>),
    Get(Seq<Seq<char>>),
    Ignore,
}

impl View for Command {
    type V = CommandView;

    open spec fn view(&self) -> CommandView {
        match self {
            Command::Exit => CommandView::Exit,
            Command::ShowNotifications => CommandView::ShowNotifications,
            Command::Send(v) => CommandView::Send(views(v@)),
            Command::Get(v) => CommandView::Get(views(v@)),
            Command::Ignore => CommandView::Ignore,
        }
    }
}

/// Whether `s` begins with `c`.
pub open spec fn starts_with(s: Seq<char>, c: char) -> bool {
    s.len() > 0 && s[0] == c
}

/// The command that a trimmed input line stands for: exactly `0` leaves;
/// otherwise its first character chooses. A send `2:name:msg` keeps all of
/// `msg`, colons included.
pub open spec fn command_of(input: Seq<char>) -> CommandView {
    if input == "0"@ {
        CommandView::Exit
    } else if starts_with(input, '1') {
        CommandView::ShowNotifications
    } else if starts_with(input, '2') {
        CommandView::Send(fields3(input, ':'))
    } else if starts_with(input, '3') {
        CommandView::Get(split_seq(input, ':'))
    } else {
        CommandView::Ignore
    }
}

fn first_is(input: &str, c: char) -> (b: bool)
    ensures
        b == starts_with(input@, c),
{
    let cs = chars_of(input);
    cs.len() > 0 && cs[0] == c
}

/// Reads a command from a trimmed input line.
pub fn parse_input(input: &str) -> (r: Command)
    ensures
        r@ == command_of(input@),
{
    if same_text(input, "0") {
        Command::Exit
    } else if first_is(input, '1') {
        Command::ShowNotifications
    } else if first_is(input, '2') {
        Command::Send(split_fields3(input, ':'))
    } else if first_is(input, '3') {
        Command::Get(split(input, ':'))
    } else {
        Command::Ignore
    }
}

/// Reads a command from a line as typed, without its surrounding white space.
pub fn read_command(line: &str) -> (r: Command)
    ensures
        r@ == command_of(trim_seq(line@)),
{
    let input = trim(line);
    parse_input(input.as_str())
}

// ---------------------------------------------------------------------------
// Notifications
// ---------------------------------------------------------------------------

/// A message received, with whom it came from (`0` for the server).
pub struct Notification {
    pub from: String,
    pub message: String,
}

/// The notifications received, oldest first.
pub struct Inbox {
    items: Vec<Notification>,
}

impl View for Inbox {
    type V = Seq<(Seq<char>, Seq<char>)>;

    closed spec fn view(&self) -> Seq<(Seq<char>, Seq<char>)> {
        self.items@.map_values(|n: Notification| (n.from@, n.message@))
    }
}

/// How a notification is shown.
pub open spec fn notification_line(n: (Seq<char>, Seq<char>)) -> Seq<char> {
    "From: "@ + n.0 + " Message: "@ + n.1
}

impl Inbox {
    /// An empty inbox.
    pub fn new() -> (r: Self)
        ensures
            r@ == Seq::<(Seq<char>, Seq<char>)>::empty(),
    {
        let r = Inbox { items: Vec::new() };
        assert(r@ =~= Seq::<(Seq<char>, Seq<char>)>::empty());
        r
    }

    /// Adds a notification after the others.
    pub fn push(&mut self, n: Notification)
        ensures
            final(self)@ == old(self)@.push((n.from@, n.message@)),
    {
        self.items.push(n);
        assert(self@ =~= old(self)@.push((n.from@, n.message@)));
    }

    /// The lines that show the notifications, oldest first.
    pub fn print_notifications(&self) -> (r: Vec<String>)
        ensures
            views(r@) == self@.map_values(|n: (Seq<char>, Seq<char>)| notification_line(n)),
    {
        let mut r: Vec<String> = Vec::new();
        let mut i: usize = 0;
        while i < self.items.len()
            invariant
                i <= self.items.len(),
                views(r@) == self@.take(i as int).map_values(
                    |n: (Seq<char>, Seq<char>)| notification_line(n),
                ),
            decreases self.items.len() - i,
        {
            let n = &self.items[i];
            let a = cat("From: ", n.from.as_str());
            let b = cat(a.as_str(), " Message: ");
            let line = cat(b.as_str(), n.message.as_str());
            let ghost before = views(r@);
            r.push(line);
            assert(views(r@) =~= before.push(line@));
            assert(self@.take(i + 1) =~= self@.take(i as int).push(self@[i as int]));
            assert(views(r@) =~= self@.take(i + 1).map_values(
                |n: (Seq<char>, Seq<char>)| notification_line(n),
            ));
            i = i + 1;
        }
        assert(self@.take(i as int) =~= self@);
        r
    }
}

// ---------------------------------------------------------------------------
// Lines from the channel
// ---------------------------------------------------------------------------

/// What to do for a piece of a line that reached the channel.
pub enum ChannelAction {
    /// Open a connection to the peer `name` listening at `addr`.
    Connect { name: String, addr: String },
    /// Keep a notification.
    Notify(Notification),
    /// The looked-up user is not online; the text is the one reported.
    Missing(String),
}

/// The abstract form of a `ChannelAction`.
pub enum ChannelActionView {
    Connect { name: Seq<char>, addr: Seq<char> },
    Notify { from: Seq<char>, message: Seq<char> },
    Missing(Seq<char>),
}

impl View for ChannelAction {
    type V = ChannelActionView;

    open spec fn view(&self) -> ChannelActionView {
        match self {
            ChannelAction::Connect { name, addr } => ChannelActionView::Connect {
                name: name@,
                addr: addr@,
            },
            ChannelAction::Notify(n) => ChannelActionView::Notify {
                from: n.from@,
                message: n.message@,
            },
            ChannelAction::Missing(s) => ChannelActionView::Missing(s@),
        }
    }
}

/// The views of a vector of actions.
pub open spec fn action_views(v: Seq<ChannelAction>) -> Seq<ChannelActionView> {
    v.map_values(|a: ChannelAction| a@)
}

/// Whether a line from the server can be handled: a user record names the
/// user, and, unless it reports the user missing or names the server's own
/// `0`, its address.
pub open spec fn piece_well_formed(piece: Seq<char>) -> bool {
    let w = split_seq(piece, ';');
    w[0] == "User"@ ==> w.len() >= 2 && (w[1] != "Userdown"@ && w[1] != "0"@ ==> w.len() >= 3)
}

/// The actions for a line from the server: an empty line is dropped; a user
/// record `User;name;addr` connects to the user and notes its name as coming
/// from the server, unless the name is `Userdown` (reported missing) or the
/// server's own `0` (which no peer may take); any other line is kept whole
/// as a notification from the server (`0`).
pub open spec fn piece_actions(piece: Seq<char>) -> Seq<ChannelActionView> {
    let w = split_seq(piece, ';');
    if piece.len() == 0 {
        Seq::<ChannelActionView>::empty()
    } else if w[0] == "User"@ && w[1] == "Userdown"@ {
        seq![ChannelActionView::Missing(w[1])]
    } else if w[0] == "User"@ && w[1] != "0"@ {
        seq![
            ChannelActionView::Connect { name: w[1], addr: w[2] },
            ChannelActionView::Notify { from: "0"@, message: w[1] },
        ]
    } else {
        seq![ChannelActionView::Notify { from: "0"@, message: piece }]
    }
}

/// The notifications among `acts`, in order.
pub open spec fn notes_of(acts: Seq<ChannelActionView>) -> Seq<(Seq<char>, Seq<char>)>
    decreases acts.len(),
{
    if acts.len() == 0 {
        Seq::<(Seq<char>, Seq<char>)>::empty()
    } else {
        let r = notes_of(acts.drop_last());
        match acts.last() {
            ChannelActionView::Notify { from, message } => r.push((from, message)),
            _ => r,
        }
    }
}

/// The notifications that the lines `pieces` from the server give, in order.
pub open spec fn server_notes(pieces: Seq<Seq<char>>) -> Seq<(Seq<char>, Seq<char>)>
    decreases pieces.len(),
{
    if pieces.len() == 0 {
        Seq::<(Seq<char>, Seq<char>)>::empty()
    } else {
        server_notes(pieces.drop_last()) + notes_of(piece_actions(pieces.last()))
    }
}

/// The notifications that a channel line gives: one per line of a server
/// read, as `piece_actions` says, and a peer's text whole, from that peer.
pub open spec fn line_notes(line: ChannelLineView) -> Seq<(Seq<char>, Seq<char>)> {
    match line {
        ChannelLineView::Server(text) => server_notes(split_seq(text, '@')),
        ChannelLineView::Peer { from, text } => seq![(from, text)],
    }
}

/// The inbox `old` after the channel lines `lines` have been handled in order.
pub open spec fn inbox_after(
    old: Seq<(Seq<char>, Seq<char>)>,
    lines: Seq<ChannelLineView>,
) -> Seq<(Seq<char>, Seq<char>)>
    decreases lines.len(),
{
    if lines.len() == 0 {
        old
    } else {
        inbox_after(old, lines.drop_last()) + line_notes(lines.last())
    }
}

/// The lines of a server read: the text split at each `@`.
pub fn server_pieces(text: &str) -> (r: Vec<String>)
    ensures
        views(r@) == split_seq(text@, '@'),
{
    split(text, '@')
}

/// Whether the line from the server can be handled, see `piece_well_formed`.
pub fn is_piece_well_formed(piece: &str) -> (b: bool)
    ensures
        b == piece_well_formed(piece@),
{
    let w = split(piece, ';');
    if !same_text(w[0].as_str(), "User") {
        return true;
    }
    w.len() >= 2 && (same_text(w[1].as_str(), "Userdown") || same_text(w[1].as_str(), "0")
        || w.len() >= 3)
}

/// The actions for one line from the server, in order.
pub fn handle_channel_piece(piece: &str) -> (r: Vec<ChannelAction>)
    requires
        piece_well_formed(piece@),
    ensures
        action_views(r@) == piece_actions(piece@),
{
    let mut r: Vec<ChannelAction> = Vec::new();
    if chars_of(piece).len() == 0 {
        assert(action_views(r@) =~= Seq::<ChannelActionView>::empty());
        return r;
    }
    let w = split(piece, ';');
    let is_record = same_text(w[0].as_str(), "User");
    if is_record && same_text(w[1].as_str(), "Userdown") {
        r.push(ChannelAction::Missing(w[1].clone()));
    } else if is_record && !same_text(w[1].as_str(), "0") {
        r.push(ChannelAction::Connect { name: w[1].clone(), addr: w[2].clone() });
        r.push(
            ChannelAction::Notify(Notification { from: "0".to_owned(), message: w[1].clone() }),
        );
    } else {
        r.push(
            ChannelAction::Notify(Notification { from: "0".to_owned(), message: piece.to_owned() }),
        );
    }
    assert(action_views(r@) =~= piece_actions(piece@));
    r
}

/// The address to dial for a peer listening at `addr`.
pub fn peer_url(addr: &str) -> (r: String)
    ensures
        r@ == "ws://"@ + addr@,
{
    cat("ws://", addr)
}

/// The channel line for bytes read from the server, decoded as
/// `String::from_utf8_lossy` does.
pub fn server_line(bytes: &[u8]) -> (r: ChannelLine)
    ensures
        r@ == ChannelLineView::Server(lossy_utf8(bytes@)),
{
    ChannelLine::Server(decode_lossy(bytes))
}

/// Whether a connection comes from the server's own address.
pub fn is_server_addr(addr: &str) -> (b: bool)
    ensures
        b == (addr@ == "127.0.0.1:8080"@),
{
    same_text(addr, "127.0.0.1:8080")
}

// ---------------------------------------------------------------------------
// Logging in to the server
// ---------------------------------------------------------------------------

/// The login dialogue with the server: the name last asked for (the line
/// read, without surrounding white space) and the address this peer listens
/// on.
pub struct LoginClient {
    name: String,
    listener_addr: String,
}

/// What the login dialogue knows: the name last asked for and the address.
pub struct LoginState {
    pub name: Seq<char>,
    pub listener_addr: Seq<char>,
}

impl View for LoginClient {
    type V = LoginState;

    closed spec fn view(&self) -> LoginState {
        LoginState { name: self.name@, listener_addr: self.listener_addr@ }
    }
}

/// The login request for a name and the listening address.
pub open spec fn login_request_text(name: Seq<char>, addr: Seq<char>) -> Seq<char> {
    "login;"@ + name + ";"@ + addr
}

/// How the server answered a login.
pub enum LoginOutcome {
    /// Logged in under the name last asked for.
    Success(String),
    /// The server says this connection is logged in already.
    AlreadyLoggedIn,
    /// Any other answer, split at each `@`.
    Invalid(Vec<String>),
}

/// The abstract form of a `LoginOutcome`.
pub enum LoginOutcomeView {
    Success(Seq<char>),
    AlreadyLoggedIn,
    Invalid(Seq<Seq<char>>),
}

impl View for LoginOutcome {
    type V = LoginOutcomeView;

    open spec fn view(&self) -> LoginOutcomeView {
        match self {
            LoginOutcome::Success(s) => LoginOutcomeView::Success(s@),
            LoginOutcome::AlreadyLoggedIn => LoginOutcomeView::AlreadyLoggedIn,
            LoginOutcome::Invalid(v) => LoginOutcomeView::Invalid(views(v@)),
        }
    }
}

/// The outcome of the answer `reply`, split at each `@` once trimmed, for
/// a login as `name`.
pub open spec fn login_outcome_of(name: Seq<char>, reply: Seq<char>) -> LoginOutcomeView {
    let p = split_seq(trim_seq(reply), '@');
    if p[0] == "success"@ {
        LoginOutcomeView::Success(name)
    } else if p[0] == "Already logged in"@ {
        LoginOutcomeView::AlreadyLoggedIn
    } else {
        LoginOutcomeView::Invalid(p)
    }
}

impl LoginClient {
    /// A dialogue for a peer listening at `listener_addr`, with no name yet.
    pub fn new(listener_addr: &str) -> (r: Self)
        ensures
            r@ == (LoginState { name: Seq::<char>::empty(), listener_addr: listener_addr@ }),
    {
        LoginClient { name: String::new(), listener_addr: listener_addr.to_owned() }
    }

    /// Takes the line read, without surrounding white space, as the name to
    /// log in with, and returns the request to send.
    pub fn login_request(&mut self, line: &str) -> (r: String)
        ensures
            final(self)@ == (LoginState {
                name: trim_seq(line@),
                listener_addr: old(self)@.listener_addr,
            }),
            r@ == login_request_text(trim_seq(line@), old(self)@.listener_addr),
    {
        self.name = trim(line);
        let a = cat("login;", self.name.as_str());
        let b = cat(a.as_str(), ";");
        cat(b.as_str(), self.listener_addr.as_str())
    }

    /// Reads the server's answer, given as the bytes received and decoded
    /// as `String::from_utf8_lossy` does.
    pub fn login_response(&self, bytes: &[u8]) -> (r: LoginOutcome)
        ensures
            r@ == login_outcome_of(self@.name, lossy_utf8(bytes@)),
    {
        let reply = decode_lossy(bytes);
        let res = trim(reply.as_str());
        let p = split(res.as_str(), '@');
        if same_text(p[0].as_str(), "success") {
            LoginOutcome::Success(self.name.clone())
        } else if same_text(p[0].as_str(), "Already logged in") {
            LoginOutcome::AlreadyLoggedIn
        } else {
            LoginOutcome::Invalid(p)
        }
    }
}

} // verus!
