use peer_connect::peer::server_line;
use peer_connect::wire::ChannelLine;
use peer_connect::text::{
    cat, chars_of, decimal, first_index, has_char, is_white_space, same_text, split,
    split_fields3, split_first, trim,
};

#[test]
fn split_matches_std_split() {
    let cases = ["", ";", "a", "a;b", ";a;", "login;bob;127.0.0.1:9000", ";;", "a;;b;"];
    for c in cases.iter() {
        let ours = split(c, ';');
        let theirs: Vec<String> = c.split(';').map(|s| s.to_string()).collect();
        assert_eq!(ours, theirs);
    }
}

#[test]
fn split_then_join_gives_back_the_text() {
    let s = "0;User;bob;127.0.0.1:9000@";
    let pieces = split(s, ';');
    assert_eq!(pieces.join(";"), s);
    assert!(pieces.iter().all(|p| !p.contains(';')));
}

#[test]
fn split_of_text_without_separator_is_one_piece() {
    assert_eq!(split("hello", '@'), vec!["hello".to_string()]);
}

#[test]
fn trim_matches_std_trim() {
    let cases = ["", "  ", " a ", "\tbob\n", "alice\r\n", "\u{3000}x\u{2029}", "a b", "\u{85}q\u{a0}"];
    for c in cases.iter() {
        assert_eq!(trim(c), c.trim());
    }
}

#[test]
fn white_space_matches_std_for_every_char() {
    for u in 0u32..=0x10ffff {
        if let Some(c) = char::from_u32(u) {
            assert_eq!(is_white_space(c), c.is_whitespace(), "char {:x}", u);
        }
    }
}

#[test]
fn decimal_matches_to_string() {
    for n in [0, 1, 9, 10, 42, 99, 100, 12345, -1, -10, -987, i32::MAX, i32::MIN] {
        assert_eq!(decimal(n), n.to_string());
    }
    assert_eq!(decimal(7), "7");
}

#[test]
fn chars_and_membership() {
    assert_eq!(chars_of("añb"), vec!['a', 'ñ', 'b']);
    assert!(has_char("a#b", '#'));
    assert!(!has_char("ab", '#'));
    assert!(same_text("closed", "closed"));
    assert!(!same_text("closed", "close"));
    assert_eq!(cat("ws://", "127.0.0.1:9000"), "ws://127.0.0.1:9000");
}

#[test]
fn lossy_decoding_keeps_valid_text_and_replaces_invalid_bytes() {
    let text = |b: &[u8]| match server_line(b) {
        ChannelLine::Server(t) => t,
        _ => panic!("expected a server line"),
    };
    assert_eq!(text(b"login;bob;x"), "login;bob;x");
    assert_eq!(text(&[0x61, 0xff, 0x62]), "a\u{fffd}b");
    assert_eq!(text("é".as_bytes()), "é");
}

#[test]
fn three_fields_match_std_splitn() {
    let cases = ["", "2", "2:bob", "2:bob:hi", "2:bob:see you at 10:30", "::", "a:b:c:d"];
    for c in cases.iter() {
        let theirs: Vec<String> = c.splitn(3, ':').map(|s| s.to_string()).collect();
        assert_eq!(split_fields3(c, ':'), theirs);
    }
}

#[test]
fn first_field_and_rest() {
    assert_eq!(split_first("alice;see you; later", ';'), ("alice".to_string(), "see you; later".to_string()));
    assert_eq!(split_first("none", ';'), ("none".to_string(), String::new()));
    assert_eq!(first_index(&vec!['a', ';', 'b'], ';'), 1);
    assert_eq!(first_index(&vec!['a'], ';'), 1);
}
