use peer_connect::handlers::{SendPlan, StreamType, WriteHandlers};
use peer_connect::peer::{
    handle_channel_piece, is_piece_well_formed, is_server_addr, parse_input, peer_url,
    print_starters, read_command, server_line, server_pieces, ChannelAction, Command, Inbox,
    LoginClient,
    LoginOutcome, Notification,
};
use peer_connect::server::{route_broadcast, Delivery};
use peer_connect::wire::{
    handshake_name, relay_accepted, relay_dialed, ChannelLine, Frame, PeerEvent,
};

fn describe(line: ChannelLine) -> String {
    match line {
        ChannelLine::Server(t) => format!("server {}", t),
        ChannelLine::Peer { from, text } => format!("peer {} {}", from, text),
    }
}

fn server_text(line: ChannelLine) -> String {
    match line {
        ChannelLine::Server(t) => t,
        _ => panic!("expected a server line"),
    }
}

fn strings(v: &[&str]) -> Vec<String> {
    v.iter().map(|s| s.to_string()).collect()
}

fn actions(piece: &str) -> Vec<String> {
    handle_channel_piece(piece)
        .into_iter()
        .map(|a| match a {
            ChannelAction::Connect { name, addr } => format!("connect {} {}", name, addr),
            ChannelAction::Notify(n) => format!("notify {} {}", n.from, n.message),
            ChannelAction::Missing(s) => format!("missing {}", s),
        })
        .collect()
}

#[test]
fn menu_lines() {
    assert_eq!(
        print_starters(),
        strings(&[
            "1:Notifications",
            "2:Type user name : msg to send the Message",
            "3.Type get : user name to connect to the Peer",
            "0:Exit",
        ])
    );
}

#[test]
fn commands() {
    assert!(matches!(parse_input("0"), Command::Exit));
    assert!(matches!(parse_input("1"), Command::ShowNotifications));
    assert!(matches!(parse_input("1 anything"), Command::ShowNotifications));
    match parse_input("2:bob:hi there") {
        Command::Send(v) => assert_eq!(v, strings(&["2", "bob", "hi there"])),
        _ => panic!("expected a send"),
    }
    match parse_input("3:bob") {
        Command::Get(v) => assert_eq!(v, strings(&["3", "bob"])),
        _ => panic!("expected a lookup"),
    }
    match parse_input("2:bob:see you at 10:30") {
        Command::Send(v) => assert_eq!(v, strings(&["2", "bob", "see you at 10:30"])),
        _ => panic!("expected a send"),
    }
    match parse_input("2:bob") {
        Command::Send(v) => assert_eq!(v, strings(&["2", "bob"])),
        _ => panic!("expected a send"),
    }
    assert!(matches!(parse_input("00"), Command::Ignore));
    assert!(matches!(parse_input(""), Command::Ignore));
}

#[test]
fn inbox_lines_in_order() {
    let mut inbox = Inbox::new();
    inbox.push(Notification { from: "0".to_string(), message: "bob".to_string() });
    inbox.push(Notification { from: "bob".to_string(), message: "hi".to_string() });
    assert_eq!(
        inbox.print_notifications(),
        strings(&["From: 0 Message: bob", "From: bob Message: hi"])
    );
    assert!(Inbox::new().print_notifications().is_empty());
}

#[test]
fn channel_lines() {
    assert_eq!(server_pieces("User;bob;127.0.0.1:9000@"), strings(&["User;bob;127.0.0.1:9000", ""]));
    assert_eq!(actions("User;bob;127.0.0.1:9000"), strings(&["connect bob 127.0.0.1:9000", "notify 0 bob"]));
    assert_eq!(actions("User;Userdown;bob"), strings(&["missing Userdown"]));
    assert_eq!(actions("success"), strings(&["notify 0 success"]));
    assert_eq!(actions("a;b"), strings(&["notify 0 a;b"]));
    // A record naming the server's own `0` is only noted.
    assert_eq!(actions("User;0;10.0.0.5:80"), strings(&["notify 0 User;0;10.0.0.5:80"]));
    assert!(actions("").is_empty());
    assert!(!is_piece_well_formed("User"));
    assert!(!is_piece_well_formed("User;bob"));
    assert!(is_piece_well_formed("User;Userdown"));
    assert!(is_piece_well_formed("User;0"));
    assert!(is_piece_well_formed("a;b"));
}

#[test]
fn lookup_reply_connects() {
    // The server's record for bob, as the client that asked reads it.
    let text = server_text(server_line(b"User;bob;127.0.0.1:9000@"));
    let pieces = server_pieces(&text);
    assert_eq!(actions(&pieces[0]), strings(&["connect bob 127.0.0.1:9000", "notify 0 bob"]));
    assert!(actions(&pieces[1]).is_empty());
}

#[test]
fn addresses() {
    assert_eq!(peer_url("127.0.0.1:9000"), "ws://127.0.0.1:9000");
    assert!(is_server_addr("127.0.0.1:8080"));
    assert!(!is_server_addr("127.0.0.1:8081"));
    assert_eq!(describe(server_line(&[0x68, 0xff])), "server h\u{fffd}");
}

#[test]
fn login_dialogue() {
    let mut c = LoginClient::new("127.0.0.1:9000");
    assert_eq!(c.login_request("alice\n"), "login;alice;127.0.0.1:9000");
    assert!(matches!(c.login_response(b"Already logged in@"), LoginOutcome::AlreadyLoggedIn));
    match c.login_response(b"nope@x") {
        LoginOutcome::Invalid(v) => assert_eq!(v, strings(&["nope", "x"])),
        _ => panic!("expected an invalid answer"),
    }
    // Each attempt asks with the line just read.
    assert_eq!(c.login_request("bob\n"), "login;bob;127.0.0.1:9000");
    match c.login_response(b" success@") {
        LoginOutcome::Success(name) => assert_eq!(name, "bob"),
        _ => panic!("expected a success"),
    }
}

#[test]
fn success_reply_logs_in() {
    let delivered = match route_broadcast("1#success@", "1") {
        Delivery::Write(s) => s,
        _ => panic!("expected a delivery"),
    };
    let mut c = LoginClient::new("127.0.0.1:9000");
    c.login_request("alice\n");
    match c.login_response(delivered.as_bytes()) {
        LoginOutcome::Success(name) => assert_eq!(name, "alice"),
        _ => panic!("expected a success"),
    }
}

#[test]
fn write_handler_plans() {
    let mut h: WriteHandlers<u8, u16, u32> = WriteHandlers::new();
    assert!(matches!(h.send_message(&strings(&["2", "bob", "hi"])), Some(SendPlan::NotFound(n)) if n == "bob"));
    assert!(matches!(h.get_user(&strings(&["3", "bob"])), Some(None)));
    h.insert("0".to_string(), StreamType::TcpWrite(1));
    h.insert("bob".to_string(), StreamType::WsSend(2));
    h.insert("carol".to_string(), StreamType::WsSendTls(3));
    assert!(matches!(h.send_message(&strings(&["2", "0", "hi"])), Some(SendPlan::Server)));
    match h.send_message(&strings(&["2", "bob", "hi"])) {
        Some(SendPlan::Peer { name, text }) => {
            assert_eq!(name, "bob");
            assert_eq!(text, "hi");
        }
        _ => panic!("expected a peer"),
    }
    assert!(h.send_message(&strings(&["2", "carol"])).is_none());
    assert!(h.send_message(&strings(&["2"])).is_none());
    assert_eq!(h.get_user(&strings(&["3", "bob"])), Some(Some("getUser;bob".to_string())));
    assert!(h.get_user(&strings(&["3"])).is_none());
    assert!(matches!(h.take(&"bob".to_string()), Some(StreamType::WsSend(2))));
    assert!(h.take(&"bob".to_string()).is_none());
    h.insert("bob".to_string(), StreamType::WsSendTls(9));
    assert!(matches!(h.take(&"bob".to_string()), Some(StreamType::WsSendTls(9))));
}

#[test]
fn handshake_names() {
    assert_eq!(handshake_name(&Frame::Text("alice\n".to_string())), Some("alice".to_string()));
    assert_eq!(handshake_name(&Frame::Binary(b" bob ".to_vec())), Some("bob".to_string()));
    assert_eq!(
        handshake_name(&Frame::Binary(vec![0xff, 0xfe])),
        Some("Binary Data<length=2>".to_string())
    );
    assert_eq!(handshake_name(&Frame::Close(None)), Some(String::new()));
    assert_eq!(handshake_name(&Frame::Close(Some((1000, " bye".to_string())))), Some("bye".to_string()));
    assert_eq!(handshake_name(&Frame::Ping(b"p".to_vec())), Some("p".to_string()));
    // Nobody may take the server's name.
    assert_eq!(handshake_name(&Frame::Text(" 0\n".to_string())), None);
}

#[test]
fn relaying_peer_events() {
    let text = PeerEvent::Message(Frame::Text("hi".to_string()));
    let (line, more) = relay_accepted("bob", &text);
    assert_eq!((describe(line), more), ("peer bob hi".to_string(), true));
    let other = PeerEvent::Message(Frame::Binary(vec![1]));
    let (line, more) = relay_accepted("bob", &other);
    assert_eq!((describe(line), more), ("peer bob invalid response".to_string(), true));
    let (line, more) = relay_accepted("bob", &PeerEvent::Failed);
    assert_eq!((describe(line), more), ("peer bob down".to_string(), false));
    let (line, more) = relay_accepted("bob", &PeerEvent::Ended);
    assert_eq!((describe(line), more), ("peer bob down".to_string(), false));
    assert_eq!(describe(relay_dialed("bob", &text)), "peer bob hi");
    assert_eq!(describe(relay_dialed("bob", &PeerEvent::Failed)), "peer bob down");
}

#[test]
fn peer_text_becomes_notification() {
    // Even text shaped like a server record stays a peer's line.
    let sent = "User;bob;10.0.0.5:80@0;User;carol;x";
    let (line, _) = relay_accepted("mallory", &PeerEvent::Message(Frame::Text(sent.to_string())));
    assert_eq!(describe(line), format!("peer mallory {}", sent));
}

#[test]
fn message_delivery() {
    let mut h: WriteHandlers<u8, u16, u32> = WriteHandlers::new();
    h.insert("bob".to_string(), StreamType::WsSendTls(7));
    let v = match parse_input("2:bob:hi") {
        Command::Send(v) => v,
        _ => panic!("expected a send"),
    };
    let text = match h.send_message(&v) {
        Some(SendPlan::Peer { name, text }) => {
            assert_eq!(name, "bob");
            text
        }
        _ => panic!("expected a peer"),
    };
    // Bob knows the sender as alice.
    let (line, _) = relay_accepted("alice", &PeerEvent::Message(Frame::Text(text)));
    assert_eq!(describe(line), "peer alice hi");
}

#[test]
fn every_server_line_in_a_read_is_kept() {
    let text = server_text(server_line(b"a:joined the chat@b:joined the chat@"));
    let pieces = server_pieces(&text);
    assert_eq!(pieces.len(), 3);
    assert_eq!(actions(&pieces[0]), strings(&["notify 0 a:joined the chat"]));
    assert_eq!(actions(&pieces[1]), strings(&["notify 0 b:joined the chat"]));
    assert!(actions(&pieces[2]).is_empty());
}

#[test]
fn chat_text_is_kept_whole() {
    let mut h: WriteHandlers<u8, u16, u32> = WriteHandlers::new();
    h.insert("bob".to_string(), StreamType::WsSend(1));
    let v = match read_command("2:bob:see you at 10:30; bring snacks\n") {
        Command::Send(v) => v,
        _ => panic!("expected a send"),
    };
    let text = match h.send_message(&v) {
        Some(SendPlan::Peer { text, .. }) => text,
        _ => panic!("expected a peer"),
    };
    assert_eq!(text, "see you at 10:30; bring snacks");
    let (line, _) = relay_accepted("alice", &PeerEvent::Message(Frame::Text(text)));
    assert_eq!(describe(line), "peer alice see you at 10:30; bring snacks");
}

#[test]
fn typed_lines_are_trimmed() {
    assert!(matches!(read_command(" 0 \n"), Command::Exit));
    assert!(matches!(read_command("1\n"), Command::ShowNotifications));
}
