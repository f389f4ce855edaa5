use vstd::prelude::*;

use crate::handlers::{
    get_request_of, get_well_formed, is_server_link, send_plan_of, send_well_formed, SendPlanView,
    StreamType,
};
use crate::peer::{
    command_of, inbox_after, line_notes, login_outcome_of, login_request_text, notes_of,
    notification_line, piece_actions, piece_well_formed, ChannelActionView, CommandView,
    LoginOutcomeView,
};
use crate::server::{
    delivery_of, request_step, request_well_formed, run_requests, run_well_formed, user_record,
    DeliveryView, SessionState,
};
use crate::text::{
    dec_int, dec_nat, digit_char, field_head, field_rest, fields3, join_seq, lemma_field_join,
    lemma_fields_of_join, lemma_split_concat, lemma_split_free, lemma_split_join,
    lemma_split_nonempty, lemma_trim_end_concat, lemma_trim_end_shape, lemma_trim_start_shape,
    split_seq, trim_end_seq, trim_seq, trim_start_seq, white_space,
};
use crate::wire::{relay_text, ChannelLineView, Frame, PeerEvent};

verus! {

/// The pieces of `a;b` are `a` and `b` when neither holds `;`.
proof fn lemma_split_two(a: Seq<char>, b: Seq<char>, sep: char)
    requires
        !a.contains(sep),
        !b.contains(sep),
    ensures
        split_seq(a.push(sep) + b, sep) == seq![a, b],
{
    lemma_split_concat(a, b, sep);
    lemma_split_free(a, sep);
    lemma_split_free(b, sep);
    assert(seq![a] + seq![b] =~= seq![a, b]);
}

/// The pieces of `a;b;c` when none of them holds `;`.
proof fn lemma_split_three(a: Seq<char>, b: Seq<char>, c: Seq<char>, sep: char)
    requires
        !a.contains(sep),
        !b.contains(sep),
        !c.contains(sep),
    ensures
        split_seq((a.push(sep) + b).push(sep) + c, sep) == seq![a, b, c],
{
    lemma_split_concat(a.push(sep) + b, c, sep);
    lemma_split_two(a, b, sep);
    lemma_split_free(c, sep);
    assert(seq![a, b] + seq![c] =~= seq![a, b, c]);
}

/// The decimal notation of a number holds only digits.
proof fn lemma_dec_nat_digits(n: nat)
    ensures
        forall|i: int| 0 <= i < dec_nat(n).len() ==> '0' <= #[trigger] dec_nat(n)[i] <= '9',
    decreases n,
{
    if n >= 10 {
        lemma_dec_nat_digits(n / 10);
        assert forall|i: int| 0 <= i < dec_nat(n).len() implies '0' <= #[trigger] dec_nat(n)[i]
            <= '9' by {
            if i < dec_nat(n / 10).len() {
                assert(dec_nat(n)[i] == dec_nat(n / 10)[i]);
            } else {
                let d = (n % 10) as nat;
                assert(dec_nat(n)[i] == digit_char(d));
                assert(48 <= d + 48 <= 57);
            }
        }
    } else {
        assert(48 <= n + 48 <= 57);
        assert(dec_nat(n)[0] == digit_char(n));
    }
}

/// The tag of a connection, the decimal notation of its number, holds no `#`.
pub proof fn law_tag_has_no_hash(userid: int)
    ensures
        !dec_int(userid).contains('#'),
{
    let t = dec_int(userid);
    if userid < 0 {
        lemma_dec_nat_digits((-userid) as nat);
        if t.contains('#') {
            let k = choose|k: int| 0 <= k < t.len() && t[k] == '#';
            if k > 0 {
                assert(t[k] == dec_nat((-userid) as nat)[k - 1]);
            }
        }
    } else {
        lemma_dec_nat_digits(userid as nat);
    }
}

/// Registering and looking up: once a connection logs in a name that no one
/// holds, with an address, the server records it, greets the connection,
/// and any connection that then looks the name up is told that address, in
/// a reply addressed to it (see `law_lookup_reply_only_to_asker`).
pub proof fn law_login_then_lookup(
    s1: SessionState,
    s2: SessionState,
    db: Map<Seq<char>, Seq<char>>,
    name: Seq<char>,
    addr: Seq<char>,
)
    requires
        !s1.login,
        !db.contains_key(name),
        !name.contains(';'),
        !addr.contains(';'),
        trim_seq(name) == name,
    ensures
        ({
            let login = "login;"@ + name + ";"@ + addr;
            let (st1, db1, out1) = request_step(s1, db, login);
            let lookup = "getUser;"@ + name;
            &&& request_well_formed(s1, login)
            &&& st1.login && st1.name == name && st1.addr == addr
            &&& db1 == db.insert(name, addr)
            &&& out1 == seq![s1.tag + "#success@"@, s1.tag + "#"@ + name + ":joined the chat@"@]
            &&& request_well_formed(s2, lookup)
            &&& request_step(s2, db1, lookup).2 == seq![s2.tag + "#"@ + user_record(name, addr)]
        }),
{
    reveal_strlit("login;");
    reveal_strlit("login");
    reveal_strlit("getUser;");
    reveal_strlit("getUser");
    reveal_strlit(";");
    let login = "login;"@ + name + ";"@ + addr;
    assert(login =~= ("login"@.push(';') + name).push(';') + addr);
    assert(!"login"@.contains(';'));
    lemma_split_three("login"@, name, addr, ';');
    let lookup = "getUser;"@ + name;
    assert(lookup =~= "getUser"@.push(';') + name);
    assert(!"getUser"@.contains(';'));
    lemma_split_two("getUser"@, name, ';');
    assert("login"@ != "getUser"@);
    let db1 = db.insert(name, addr);
    assert(db1[name] == addr);
}

/// A name that is online is refused: a login with it changes nothing and
/// is answered with nothing.
pub proof fn law_taken_name_refused(
    s: SessionState,
    db: Map<Seq<char>, Seq<char>>,
    name: Seq<char>,
    addr: Seq<char>,
)
    requires
        !s.login,
        db.contains_key(name),
        !name.contains(';'),
        !addr.contains(';'),
    ensures
        request_step(s, db, "login;"@ + name + ";"@ + addr) == (
            s,
            db,
            Seq::<Seq<char>>::empty(),
        ),
{
    reveal_strlit("login;");
    reveal_strlit("login");
    reveal_strlit(";");
    let login = "login;"@ + name + ";"@ + addr;
    assert(login =~= ("login"@.push(';') + name).push(';') + addr);
    assert(!"login"@.contains(';'));
    lemma_split_three("login"@, name, addr, ';');
}

/// A user whose connection has closed is no longer found: its name, looked
/// up, is answered with `User;Userdown;` addressed to the asking connection.
pub proof fn law_closed_user_not_found(
    s: SessionState,
    db: Map<Seq<char>, Seq<char>>,
    name: Seq<char>,
)
    requires
        !name.contains(';'),
        trim_seq(name) == name,
    ensures
        request_step(s, db.remove(name), "getUser;"@ + name).2 == seq![
            s.tag + "#User;Userdown;"@ + name + "@"@,
        ],
{
    reveal_strlit("getUser;");
    reveal_strlit("getUser");
    reveal_strlit("login");
    let lookup = "getUser;"@ + name;
    assert(lookup =~= "getUser"@.push(';') + name);
    assert(!"getUser"@.contains(';'));
    lemma_split_two("getUser"@, name, ';');
    assert("login"@ != "getUser"@);
}

/// A reply addressed as `tag#text` reaches the connection tagged `tag`, as
/// `text`, and no other connection.
pub proof fn law_reply_routing(tag: Seq<char>, text: Seq<char>, name: Seq<char>)
    requires
        !tag.contains('#'),
        !text.contains('#'),
        text != "closed"@,
    ensures
        delivery_of(tag + "#"@ + text, name) == if name == tag {
            DeliveryView::Write(text)
        } else {
            DeliveryView::Skip
        },
{
    reveal_strlit("#");
    let s = tag + "#"@ + text;
    assert(s =~= tag.push('#') + text);
    lemma_split_two(tag, text, '#');
    lemma_fields_of_join(tag, text, '#');
}

/// A closing connection's line stops that connection's relaying and no
/// other connection's: the others go on serving their clients.
pub proof fn law_close_stops_only_itself(tag: Seq<char>, name: Seq<char>)
    requires
        !tag.contains('#'),
    ensures
        delivery_of(tag + "#closed"@, name) == if name == tag {
            DeliveryView::Stop
        } else {
            DeliveryView::Skip
        },
{
    reveal_strlit("#closed");
    reveal_strlit("closed");
    let text = "closed"@;
    assert(!text.contains('#'));
    let s = tag + "#closed"@;
    assert(s =~= tag.push('#') + text);
    lemma_split_two(tag, text, '#');
    lemma_fields_of_join(tag, text, '#');
}

/// A found user's record goes to the connection that asked for it, whole,
/// and to no other connection.
pub proof fn law_lookup_reply_only_to_asker(
    tag: Seq<char>,
    name: Seq<char>,
    addr: Seq<char>,
    other: Seq<char>,
)
    requires
        !tag.contains('#'),
        !name.contains('#'),
        !addr.contains('#'),
    ensures
        delivery_of(tag + "#"@ + user_record(name, addr), other) == if other == tag {
            DeliveryView::Write(user_record(name, addr))
        } else {
            DeliveryView::Skip
        },
{
    reveal_strlit("User;");
    reveal_strlit(";");
    reveal_strlit("@");
    reveal_strlit("closed");
    let r = user_record(name, addr);
    assert(r[0] == 'U');
    assert(r != "closed"@);
    assert(!r.contains('#')) by {
        if r.contains('#') {
            let k = choose|k: int| 0 <= k < r.len() && r[k] == '#';
            if 5 <= k < 5 + name.len() {
                assert(name[k - 5] == '#');
            } else if 6 + name.len() <= k < 6 + name.len() + addr.len() {
                assert(addr[k - 6 - name.len()] == '#');
            }
        }
    }
    law_reply_routing(tag, r, other);
}

/// The server's answer to a successful login, delivered to the connection
/// that logged in, logs the client in under the name it asked for.
pub proof fn law_success_reply_logs_in(tag: Seq<char>, name: Seq<char>)
    requires
        !tag.contains('#'),
    ensures
        delivery_of(tag + "#success@"@, tag) == DeliveryView::Write("success@"@),
        login_outcome_of(name, "success@"@) == LoginOutcomeView::Success(name),
{
    reveal_strlit("#success@");
    reveal_strlit("success@");
    reveal_strlit("success");
    reveal_strlit("#");
    reveal_strlit("closed");
    let text = "success@"@;
    assert(!text.contains('#'));
    assert(text != "closed"@);
    assert(tag + "#success@"@ =~= tag + "#"@ + text);
    law_reply_routing(tag, text, tag);
    assert(!white_space(text[0]));
    assert(text.drop_first().len() == 7);
    assert(trim_start_seq(text) == text);
    assert(!white_space(text.last()));
    assert(trim_end_seq(text) == text);
    assert(text =~= "success"@.push('@') + Seq::<char>::empty());
    assert(!"success"@.contains('@'));
    lemma_split_two("success"@, Seq::<char>::empty(), '@');
}

/// A non-empty line from the server that is not a user record becomes a
/// notification from the server (`0`) holding the whole line.
pub proof fn law_server_piece_notifies(p: Seq<char>)
    requires
        p.len() > 0,
        split_seq(p, ';')[0] != "User"@,
    ensures
        piece_well_formed(p),
        piece_actions(p) == seq![ChannelActionView::Notify { from: "0"@, message: p }],
{
}

/// Finding a user and connecting to it: the server's record for a user,
/// read by the client that asked, makes it connect to that user at that
/// address and note the user's name as coming from the server.
pub proof fn law_lookup_reply_connects(name: Seq<char>, addr: Seq<char>)
    requires
        !name.contains(';'),
        !name.contains('@'),
        !addr.contains(';'),
        !addr.contains('@'),
        name != "Userdown"@,
        name != "0"@,
    ensures
        ({
            let record = "User;"@ + name + ";"@ + addr;
            &&& split_seq(user_record(name, addr), '@') == seq![record, Seq::<char>::empty()]
            &&& piece_well_formed(record)
            &&& piece_actions(record) == seq![
                ChannelActionView::Connect { name: name, addr: addr },
                ChannelActionView::Notify { from: "0"@, message: name },
            ]
            &&& piece_actions(Seq::<char>::empty()) == Seq::<ChannelActionView>::empty()
        }),
{
    reveal_strlit("User;");
    reveal_strlit("User");
    reveal_strlit(";");
    reveal_strlit("@");
    let record = "User;"@ + name + ";"@ + addr;
    assert(user_record(name, addr) =~= record.push('@') + Seq::<char>::empty());
    assert(!record.contains('@')) by {
        if record.contains('@') {
            let k = choose|k: int| 0 <= k < record.len() && record[k] == '@';
            if 5 <= k < 5 + name.len() {
                assert(name[k - 5] == '@');
            } else if k >= 6 + name.len() {
                assert(addr[k - 6 - name.len()] == '@');
            }
        }
    }
    lemma_split_two(record, Seq::<char>::empty(), '@');
    assert(record =~= ("User"@.push(';') + name).push(';') + addr);
    assert(!"User"@.contains(';'));
    lemma_split_three("User"@, name, addr, ';');
    assert(record.len() > 0);
}

/// What a peer sends is always a peer's line, from that peer, and never a
/// line from the server: no peer can make the client connect anywhere. A
/// text message becomes, whole, a notification from that peer.
pub proof fn law_peer_text_becomes_notification(name: Seq<char>, ev: PeerEvent, text: String)
    ensures
        relay_text(name, ev) matches ChannelLineView::Peer { from, .. } && from == name,
        relay_text(name, PeerEvent::Message(Frame::Text(text))) == (ChannelLineView::Peer {
            from: name,
            text: text@,
        }),
        line_notes(relay_text(name, PeerEvent::Message(Frame::Text(text)))) == seq![
            (name, text@),
        ],
{
}

/// Sending to a peer: the command `2:name:msg` typed by a user that holds a
/// connection to the peer `name` sends all of `msg` to that peer, and the
/// peer, which knows the sender as `sender`, keeps it whole as a
/// notification from `sender`. The name holds no `:`.
pub proof fn law_message_delivery<T, W, S>(
    links: Map<Seq<char>, StreamType<T, W, S>>,
    name: Seq<char>,
    text: String,
    sender: Seq<char>,
)
    requires
        links.contains_key(name),
        !is_server_link(links[name]),
        !name.contains(':'),
    ensures
        ({
            let v = seq!["2"@, name, text@];
            let line = relay_text(sender, PeerEvent::Message(Frame::Text(text)));
            &&& command_of("2:"@ + name + ":"@ + text@) == CommandView::Send(v)
            &&& send_well_formed(links, v)
            &&& send_plan_of(links, v) == (SendPlanView::Peer { name: name, text: text@ })
            &&& line_notes(line) == seq![(sender, text@)]
        }),
{
    reveal_strlit("2:");
    reveal_strlit("2");
    reveal_strlit("0");
    reveal_strlit(":");
    let input = "2:"@ + name + ":"@ + text@;
    let rest = name.push(':') + text@;
    assert(input =~= "2"@.push(':') + rest);
    assert(!"2"@.contains(':'));
    lemma_fields_of_join("2"@, rest, ':');
    lemma_fields_of_join(name, text@, ':');
    assert(fields3(input, ':') =~= seq!["2"@, name, text@]);
    assert(input[0] == '2');
    assert(input.len() >= 2);
    assert(input != "0"@);
    assert(seq!["2"@, name, text@][1] == name);
}

proof fn lemma_connection_run(st0: SessionState, db0: Map<Seq<char>, Seq<char>>, msgs: Seq<Seq<char>>)
    requires
        !st0.login,
        run_well_formed(st0, db0, msgs),
    ensures
        ({
            let (st, db) = run_requests(st0, db0, msgs);
            &&& st.tag == st0.tag
            &&& (!st.login && db == db0 && st.name == st0.name) || (st.login
                && !db0.contains_key(st.name) && db == db0.insert(st.name, st.addr))
        }),
    decreases msgs.len(),
{
    if msgs.len() > 0 {
        lemma_connection_run(st0, db0, msgs.drop_last());
        let (s1, d1) = run_requests(st0, db0, msgs.drop_last());
        lemma_split_nonempty(msgs.last(), ';');
    }
}

/// Over a connection's life, when no other connection acts: the registry
/// gains at most one entry, the name and address of its first successful
/// login, and closing the connection (removing its user's name) takes that
/// entry away again, leaving the registry as it found it. A connection that
/// never logged in removes only the name it started with.
pub proof fn law_connection_life(
    st0: SessionState,
    db0: Map<Seq<char>, Seq<char>>,
    msgs: Seq<Seq<char>>,
)
    requires
        !st0.login,
        run_well_formed(st0, db0, msgs),
    ensures
        ({
            let (st, db) = run_requests(st0, db0, msgs);
            &&& (!st.login && db == db0) || (st.login && !db0.contains_key(st.name) && db
                == db0.insert(st.name, st.addr))
            &&& db.remove(st.name) == if st.login {
                db0
            } else {
                db0.remove(st0.name)
            }
        }),
{
    lemma_connection_run(st0, db0, msgs);
    let (st, db) = run_requests(st0, db0, msgs);
    if st.login {
        assert(db.remove(st.name) =~= db0);
    }
}

/// A piece of a channel line yields at most one notification.
pub proof fn law_piece_notes(piece: Seq<char>)
    ensures
        notes_of(piece_actions(piece)).len() <= 1,
{
    reveal_with_fuel(notes_of, 3);
    let acts = piece_actions(piece);
    if acts.len() == 2 {
        assert(acts.drop_last() =~= seq![acts[0]]);
        assert(acts.drop_last().drop_last() =~= Seq::<ChannelActionView>::empty());
    } else if acts.len() == 1 {
        assert(acts.drop_last() =~= Seq::<ChannelActionView>::empty());
    }
}

/// The inbox only grows: handling channel lines keeps what it held, in
/// order, and adds after it; a line from the server adds at most one
/// notification per `@`-separated line (see `law_piece_notes`).
pub proof fn law_inbox_grows(old: Seq<(Seq<char>, Seq<char>)>, lines: Seq<ChannelLineView>)
    ensures
        old.len() <= inbox_after(old, lines).len(),
        inbox_after(old, lines).take(old.len() as int) == old,
    decreases lines.len(),
{
    if lines.len() > 0 {
        law_inbox_grows(old, lines.drop_last());
        let prev = inbox_after(old, lines.drop_last());
        assert((prev + line_notes(lines.last())).take(old.len() as int) =~= prev.take(
            old.len() as int,
        ));
    }
}

/// A request from a connection that is logged in already, whose first field
/// is `login`, changes neither the connection nor the registry, and is
/// answered only with `Already logged in`, addressed to that connection.
pub proof fn law_logged_in_login_changes_nothing(
    st: SessionState,
    db: Map<Seq<char>, Seq<char>>,
    msg: Seq<char>,
)
    requires
        st.login,
        split_seq(msg, ';')[0] == "login"@,
    ensures
        request_step(st, db, msg) == (st, db, seq![st.tag + "#Already logged in@"@]),
{
}

/// What serving any request may do: the tag stays; a connection that is
/// logged in changes neither itself nor the registry; the registry changes
/// only by the first login of a name that no one holds, recording that name
/// with the address given; at most two lines are broadcast, and each is
/// addressed to the requesting connection (its tag, then `#`).
pub proof fn law_request_effects(st: SessionState, db: Map<Seq<char>, Seq<char>>, msg: Seq<char>)
    ensures
        ({
            let (st2, db2, out) = request_step(st, db, msg);
            &&& st2.tag == st.tag
            &&& st.login ==> st2 == st && db2 == db
            &&& db2 == db || (!st.login && st2.login && !db.contains_key(st2.name) && db2
                == db.insert(st2.name, st2.addr))
            &&& out.len() <= 2
            &&& forall|i: int|
                0 <= i < out.len() ==> (#[trigger] out[i]).take(st.tag.len() as int + 1)
                    == st.tag.push('#')
        }),
{
    reveal_strlit("#Already logged in@");
    reveal_strlit("#success@");
    reveal_strlit("#");
    reveal_strlit("#User;Userdown;");
    reveal_strlit("# invalid request@");
    let (st2, db2, out) = request_step(st, db, msg);
    let t = st.tag;
    assert forall|i: int| 0 <= i < out.len() implies (#[trigger] out[i]).take(t.len() as int + 1)
        == t.push('#') by {
        let o = out[i];
        assert(o.take(t.len() as int + 1) =~= t.push('#')) by {
            assert(o.len() > t.len());
            assert forall|k: int| 0 <= k < t.len() implies o[k] == t[k] by {}
            assert(o[t.len() as int] == '#');
        }
    }
}

/// The server's answer to a login that begins `success@` logs the client
/// in under the name it asked for, whatever follows (such as the greeting
/// that arrives in the same read).
pub proof fn law_success_reply_any_rest(name: Seq<char>, rest: Seq<char>)
    ensures
        login_outcome_of(name, "success@"@ + rest) == LoginOutcomeView::Success(name),
{
    reveal_strlit("success@");
    reveal_strlit("success");
    let a = "success@"@;
    let r = a + rest;
    assert(r[0] == 's');
    assert(!white_space(r[0]));
    assert(trim_start_seq(r) == r);
    assert(a.last() == '@');
    lemma_trim_end_concat(a, rest);
    assert(trim_seq(r) == a + trim_end_seq(rest));
    assert(a + trim_end_seq(rest) =~= "success"@.push('@') + trim_end_seq(rest));
    assert(!"success"@.contains('@'));
    lemma_split_concat("success"@, trim_end_seq(rest), '@');
    lemma_split_free("success"@, '@');
}

/// A notification is shown as `From: `, the sender, ` Message: `, then the
/// whole message: the line ends with the stored message itself.
pub proof fn law_notification_line_whole(from: Seq<char>, message: Seq<char>)
    ensures
        ({
            let l = notification_line((from, message));
            &&& l.len() == from.len() + message.len() + 16
            &&& l.take(6) == "From: "@
            &&& l.subrange(6, 6 + from.len() as int) == from
            &&& l.subrange(6 + from.len() as int, 16 + from.len() as int as int) == " Message: "@
            &&& l.skip(l.len() - message.len()) == message
        }),
{
    reveal_strlit("From: ");
    reveal_strlit(" Message: ");
    let l = notification_line((from, message));
    assert(l.take(6) =~= "From: "@);
    assert(l.subrange(6, 6 + from.len() as int) =~= from);
    assert(l.subrange(6 + from.len() as int, 16 + from.len() as int as int) =~= " Message: "@);
    assert(l.skip(l.len() - message.len()) =~= message);
}

/// With the server connected, a lookup sends `getUser;` and then the name
/// field exactly as typed: splitting the request at its first `;` gives back
/// `getUser` and the name, character for character.
pub proof fn law_lookup_request_keeps_name<T, W, S>(
    m: Map<Seq<char>, StreamType<T, W, S>>,
    v: Seq<Seq<char>>,
)
    requires
        m.contains_key("0"@),
        is_server_link(m["0"@]),
        v.len() >= 2,
    ensures
        get_well_formed(m, v),
        get_request_of(m, v) matches Some(r) && field_head(r, ';') == "getUser"@ && field_rest(
            r,
            ';',
        ) == v[1],
{
    reveal_strlit("getUser;");
    reveal_strlit("getUser");
    let r = "getUser;"@ + v[1];
    assert(r =~= "getUser"@.push(';') + v[1]);
    assert(!"getUser"@.contains(';'));
    lemma_fields_of_join("getUser"@, v[1], ';');
}

/// Typed commands keep what was typed: a lookup (`3...`) is the input split
/// at each `:`, and a send (`2...`) is the input cut at its first two `:`
/// only; either way the fields put back together with `:` are the input.
pub proof fn law_typed_commands_keep_text(input: Seq<char>)
    requires
        input.len() > 0,
    ensures
        input[0] == '3' ==> (command_of(input) matches CommandView::Get(p) && join_seq(p, ':')
            == input),
        input[0] == '2' ==> (command_of(input) matches CommandView::Send(p) && join_seq(p, ':')
            == input && 1 <= p.len() <= 3 && (forall|k: int|
            0 <= k < p.len() - 1 ==> !(#[trigger] p[k]).contains(':')) && (p.len() < 3
            ==> !p[p.len() - 1].contains(':'))),
        input == "0"@ ==> command_of(input) == CommandView::Exit,
        input[0] == '1' ==> command_of(input) == CommandView::ShowNotifications,
        input != "0"@ && input[0] != '1' && input[0] != '2' && input[0] != '3' ==> command_of(
            input,
        ) == CommandView::Ignore,
{
    reveal_strlit("0");
    assert(input[0] == '3' || input[0] == '2' || input[0] == '1' ==> input != "0"@);
    if input[0] == '3' {
        lemma_split_join(input, ':');
    }
    if input[0] == '2' {
        let p = fields3(input, ':');
        if !input.contains(':') {
            assert(p == seq![input]);
        }
        if input.contains(':') {
            lemma_field_join(input, ':');
            let h = field_head(input, ':');
            let r = field_rest(input, ':');
            if r.contains(':') {
                lemma_field_join(r, ':');
                let h2 = field_head(r, ':');
                let r2 = field_rest(r, ':');
                assert(p == seq![h, h2, r2]);
                assert(p[0] == h && p[1] == h2);
                let d = seq![h, h2];
                assert(p.drop_last() =~= d);
                assert(d.drop_last() =~= seq![h]);
                assert(join_seq(seq![h], ':') == h);
                assert(join_seq(d, ':') == join_seq(seq![h], ':').push(':') + h2);
                assert(join_seq(p, ':') == join_seq(d, ':').push(':') + r2);
                assert((h.push(':') + h2).push(':') + r2 =~= h.push(':') + (h2.push(':') + r2));
            } else {
                assert(p == seq![h, r]);
                assert(p[0] == h && p[1] == r);
                assert(p.drop_last() =~= seq![h]);
                assert(join_seq(seq![h], ':') == h);
                assert(join_seq(p, ':') == join_seq(seq![h], ':').push(':') + r);
            }
        }
    }
}

/// A login request names the trimmed line and the address as its fields,
/// when neither holds `;`.
pub proof fn law_login_request_fields(line: Seq<char>, addr: Seq<char>)
    requires
        !trim_seq(line).contains(';'),
        !addr.contains(';'),
    ensures
        split_seq(login_request_text(trim_seq(line), addr), ';') == seq![
            "login"@,
            trim_seq(line),
            addr,
        ],
{
    reveal_strlit("login;");
    reveal_strlit("login");
    reveal_strlit(";");
    let t = trim_seq(line);
    assert(login_request_text(t, addr) =~= ("login"@.push(';') + t).push(';') + addr);
    assert(!"login"@.contains(';'));
    lemma_split_three("login"@, t, addr, ';');
}

/// Trimming takes away white space at both ends and nothing else: the result
/// is a stretch of the text, everything outside it is white space, and it
/// neither begins nor ends with white space.
pub proof fn law_trim_shape(s: Seq<char>)
    ensures
        exists|i: int, j: int|
            0 <= i <= j <= s.len() && trim_seq(s) == s.subrange(i, j) && (forall|k: int|
                0 <= k < i ==> white_space(#[trigger] s[k])) && (forall|k: int|
                j <= k < s.len() ==> white_space(#[trigger] s[k])),
        trim_seq(s).len() > 0 ==> !white_space(trim_seq(s)[0]) && !white_space(
            trim_seq(s).last(),
        ),
{
    let i = lemma_trim_start_shape(s);
    let u = s.skip(i);
    let j = lemma_trim_end_shape(u);
    assert(trim_seq(s) =~= s.subrange(i, i + j));
    assert forall|k: int| i + j <= k < s.len() implies white_space(#[trigger] s[k]) by {
        assert(s[k] == u[k - i]);
    }
    if j > 0 {
        assert(trim_seq(s)[0] == s[i]);
        assert(trim_seq(s).last() == u[j - 1]);
    }
    assert(0 <= i <= i + j <= s.len());
}

/// A request whose first field is neither `login` nor `getUser` changes
/// nothing and is answered ` invalid request`, addressed to the connection.
pub proof fn law_invalid_request(st: SessionState, db: Map<Seq<char>, Seq<char>>, msg: Seq<char>)
    requires
        split_seq(msg, ';')[0] != "login"@,
        split_seq(msg, ';')[0] != "getUser"@,
    ensures
        request_well_formed(st, msg),
        request_step(st, db, msg) == (st, db, seq![st.tag + "# invalid request@"@]),
{
}

/// How a login answer is read: an answer that begins `Already logged in@`
/// says so, whatever follows; any answer that is read as invalid carries
/// its lines, which put back together with `@` give the trimmed answer.
pub proof fn law_login_answers(name: Seq<char>, rest: Seq<char>, reply: Seq<char>)
    ensures
        login_outcome_of(name, "Already logged in@"@ + rest) == LoginOutcomeView::AlreadyLoggedIn,
        login_outcome_of(name, reply) matches LoginOutcomeView::Invalid(p) ==> join_seq(p, '@')
            == trim_seq(reply),
{
    reveal_strlit("Already logged in@");
    reveal_strlit("Already logged in");
    reveal_strlit("success");
    let a = "Already logged in@"@;
    let r = a + rest;
    assert(r[0] == 'A');
    assert(!white_space(r[0]));
    assert(trim_start_seq(r) == r);
    assert(a.last() == '@');
    lemma_trim_end_concat(a, rest);
    assert(a + trim_end_seq(rest) =~= "Already logged in"@.push('@') + trim_end_seq(rest));
    assert(!"Already logged in"@.contains('@'));
    lemma_split_concat("Already logged in"@, trim_end_seq(rest), '@');
    lemma_split_free("Already logged in"@, '@');
    assert("Already logged in"@ != "success"@);
    lemma_split_join(trim_seq(reply), '@');
}

} // verus!
