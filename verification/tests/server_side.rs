use peer_connect::error::CustomError;
use peer_connect::server::{route_broadcast, Delivery, Registry, Session, User};

fn parts(v: &[&str]) -> Vec<String> {
    v.iter().map(|s| s.to_string()).collect()
}

fn delivered(d: Delivery) -> Option<String> {
    match d {
        Delivery::Write(s) => Some(s),
        _ => None,
    }
}

#[test]
fn error_messages() {
    assert_eq!(CustomError::UserExists.message(), "User already exists");
    assert_eq!(CustomError::UserDown.message(), "User is Unreachable");
    assert_eq!(CustomError::UserIsNotOnline.message(), "User is not active");
}

#[test]
fn registry_login_get_remove() {
    let mut db = Registry::new();
    let req = parts(&["login", "bob", "127.0.0.1:9000"]);
    assert_eq!(db.handle_login("127.0.0.1:9000", &req), Ok("bob".to_string()));
    assert_eq!(db.handle_login("127.0.0.1:9001", &req), Err(CustomError::UserExists));
    let get = parts(&["getUser", " bob \n"]);
    assert_eq!(db.handle_get(&get), Ok("User;bob;127.0.0.1:9000@".to_string()));
    let bob = User { name: "bob".to_string(), addr: "127.0.0.1:9000".to_string() };
    db.remove_key(&bob);
    assert_eq!(db.handle_get(&get), Err(CustomError::UserIsNotOnline));
    assert!(!db.contains(&"bob".to_string()));
}

#[test]
fn session_tag_is_the_connection_number() {
    assert_eq!(Session::new(7).tag(), "7");
    assert_eq!(Session::new(123).tag(), "123");
}

#[test]
fn login_then_lookup_from_another_connection() {
    let mut db = Registry::new();
    let mut a = Session::new(1);
    let mut b = Session::new(2);
    let out = a.handle_bytes(&mut db, b"login;alice;127.0.0.1:9001").unwrap();
    assert_eq!(out, vec!["1#success@".to_string(), "1#alice:joined the chat@".to_string()]);
    let out = b.handle_bytes(&mut db, b"getUser;alice\n").unwrap();
    assert_eq!(out, vec!["2#User;alice;127.0.0.1:9001@".to_string()]);
}

#[test]
fn second_login_on_a_connection_is_refused() {
    let mut db = Registry::new();
    let mut a = Session::new(1);
    a.handle_bytes(&mut db, b"login;alice;x").unwrap();
    let out = a.handle_bytes(&mut db, b"login;carol;y").unwrap();
    assert_eq!(out, vec!["1#Already logged in@".to_string()]);
    assert!(!db.contains(&"carol".to_string()));
}

#[test]
fn taken_name_gets_no_answer() {
    let mut db = Registry::new();
    let mut a = Session::new(1);
    let mut b = Session::new(2);
    a.handle_bytes(&mut db, b"login;alice;x").unwrap();
    let out = b.handle_bytes(&mut db, b"login;alice;y").unwrap();
    assert!(out.is_empty());
    let out = b.handle_bytes(&mut db, b"getUser;alice").unwrap();
    assert_eq!(out, vec!["2#User;alice;x@".to_string()]);
}

#[test]
fn unknown_user_and_invalid_request() {
    let mut db = Registry::new();
    let mut a = Session::new(4);
    let out = a.handle_bytes(&mut db, b"getUser; zed ").unwrap();
    assert_eq!(out, vec!["4#User;Userdown; zed @".to_string()]);
    let out = a.handle_bytes(&mut db, b"hello").unwrap();
    assert_eq!(out, vec!["4# invalid request@".to_string()]);
}

#[test]
fn malformed_requests_are_not_served() {
    let mut db = Registry::new();
    let mut a = Session::new(1);
    assert!(a.handle_bytes(&mut db, b"login;alice").is_none());
    assert!(a.handle_bytes(&mut db, b"getUser").is_none());
    assert!(!a.is_well_formed("login"));
    assert!(a.is_well_formed("login;alice;x"));
    assert!(!db.contains(&"alice".to_string()));
}

#[test]
fn closing_frees_the_name() {
    let mut db = Registry::new();
    let mut a = Session::new(1);
    let mut b = Session::new(2);
    a.handle_bytes(&mut db, b"login;alice;x").unwrap();
    assert_eq!(a.handle_close(&mut db), "1#closed");
    let out = b.handle_bytes(&mut db, b"getUser;alice").unwrap();
    assert_eq!(out, vec!["2#User;Userdown;alice@".to_string()]);
    let mut c = Session::new(3);
    let out = c.handle_bytes(&mut db, b"login;alice;z").unwrap();
    assert_eq!(out[0], "3#success@");
}

#[test]
fn broadcast_routing() {
    assert!(matches!(route_broadcast("1#closed", "1"), Delivery::Stop));
    assert!(matches!(route_broadcast("1#closed", "2"), Delivery::Skip));
    assert_eq!(delivered(route_broadcast("closed", "1")), Some("closed".to_string()));
    assert_eq!(delivered(route_broadcast("1#success@", "1")), Some("success@".to_string()));
    assert!(matches!(route_broadcast("1#success@", "2"), Delivery::Skip));
    assert_eq!(
        delivered(route_broadcast("User;bob;x@", "5")),
        Some("User;bob;x@".to_string())
    );
    assert_eq!(delivered(route_broadcast("3#a#b", "3")), Some("a".to_string()));
}

#[test]
fn invalid_bytes_are_decoded_with_replacement() {
    let mut db = Registry::new();
    let mut a = Session::new(9);
    let out = a.handle_bytes(&mut db, &[0xff, b'l', b'o', b'g', b'i', b'n']).unwrap();
    assert_eq!(out, vec!["9# invalid request@".to_string()]);
    let out = a.handle_bytes(&mut db, b"login;b\xffb;x").unwrap();
    assert_eq!(out[1], "9#b\u{fffd}b:joined the chat@");
}

#[test]
fn lookup_reply_reaches_only_the_asker() {
    let mut db = Registry::new();
    let mut a = Session::new(1);
    let mut b = Session::new(2);
    a.handle_bytes(&mut db, b"login;bob;127.0.0.1:9001").unwrap();
    let out = b.handle_bytes(&mut db, b"getUser;bob").unwrap();
    assert_eq!(out.len(), 1);
    assert_eq!(delivered(route_broadcast(&out[0], "2")), Some("User;bob;127.0.0.1:9001@".to_string()));
    assert!(matches!(route_broadcast(&out[0], "1"), Delivery::Skip));
}

#[test]
fn a_disconnect_stops_only_its_own_connection() {
    let mut db = Registry::new();
    let a = Session::new(1);
    let mut b = Session::new(2);
    let line = a.handle_close(&mut db);
    assert!(matches!(route_broadcast(&line, "1"), Delivery::Stop));
    assert!(matches!(route_broadcast(&line, "2"), Delivery::Skip));
    let out = b.handle_bytes(&mut db, b"getUser;zed").unwrap();
    assert_eq!(delivered(route_broadcast(&out[0], "2")), Some("User;Userdown;zed@".to_string()));
}
