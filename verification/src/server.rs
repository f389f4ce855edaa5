use vstd::prelude::*;

use crate::error::CustomError;
use crate::names::NameMap;
use crate::text::{
    cat, decimal, decode_lossy, dec_int, has_char, lemma_split_holding, lossy_utf8,
    same_text, split, split_seq, trim, trim_seq, views,
};

verus! {

/// A user that has logged in: its name and the address it listens on.
pub struct User {
    pub name: String,
    pub addr: String,
}

/// The users that are online, each name with its listening address.
pub struct Registry {
    users: NameMap<String>,
}

impl View for Registry {
    type V = Map<Seq<char>, Seq<char>>;

    closed spec fn view(&self) -> Map<Seq<char>, Seq<char>> {
        self.users@.map_values(|a: String| a@)
    }
}

/// The reply that tells where a user listens.
pub open spec fn user_record(name: Seq<char>, addr: Seq<char>) -> Seq<char> {
    "User;"@ + name + ";"@ + addr + "@"@
}

impl Registry {
    /// A registry with nobody online.
    pub fn new() -> (r: Self)
        ensures
            r@ == Map::<Seq<char>, Seq<char>>::empty(),
    {
        let r = Registry { users: NameMap::new() };
        assert(r@ =~= Map::<Seq<char>, Seq<char>>::empty());
        r
    }

    /// Whether `name` is online.
    pub fn contains(&self, name: &String) -> (b: bool)
        ensures
            b == self@.contains_key(name@),
    {
        self.users.contains(name)
    }

    /// Logs in the user `parts[1]` at `addr`: refused with `UserExists` when
    /// the name is online already; else the name is recorded and returned.
    pub fn handle_login(&mut self, addr: &str, parts: &Vec<String>) -> (r: Result<
        String,
        CustomError,
    >)
        requires
            parts.len() >= 2,
        ensures
            old(self)@.contains_key(parts@[1]@) ==> r == Err::<String, CustomError>(
                CustomError::UserExists,
            ) && final(self)@ == old(self)@,
            !old(self)@.contains_key(parts@[1]@) ==> (r matches Ok(s) && s@ == parts@[1]@)
                && final(self)@ == old(self)@.insert(parts@[1]@, addr@),
    {
        let name = parts[1].clone();
        if self.users.contains(&name) {
            Err(CustomError::UserExists)
        } else {
            self.users.insert(name.clone(), addr.to_owned());
            assert(self@ =~= old(self)@.insert(parts@[1]@, addr@));
            Ok(name)
        }
    }

    /// Looks up the user named by `parts[1]` without its surrounding white
    /// space: its record when it is online, else `UserIsNotOnline`.
    pub fn handle_get(&self, parts: &Vec<String>) -> (r: Result<String, CustomError>)
        requires
            parts.len() >= 2,
        ensures
            ({
                let req = trim_seq(parts@[1]@);
                if self@.contains_key(req) {
                    r matches Ok(s) && s@ == user_record(req, self@[req])
                } else {
                    r == Err::<String, CustomError>(CustomError::UserIsNotOnline)
                }
            }),
    {
        let req = trim(parts[1].as_str());
        match self.users.get(&req) {
            Some(addr) => {
                let a = cat("User;", req.as_str());
                let b = cat(a.as_str(), ";");
                let c = cat(b.as_str(), addr.as_str());
                let d = cat(c.as_str(), "@");
                assert(d@ =~= user_record(req@, self@[req@]));
                Ok(d)
            },
            None => Err(CustomError::UserIsNotOnline),
        }
    }

    /// Takes the user's name off the registry.
    pub fn remove_key(&mut self, user: &User)
        ensures
            final(self)@ == old(self)@.remove(user.name@),
    {
        let _ = self.users.remove(&user.name);
        assert(self@ =~= old(self)@.remove(user.name@));
    }
}

/// What a connection knows of itself: the tag that addresses its replies,
/// whether it has logged in, and the user it logged in as.
pub struct SessionState {
    pub tag: Seq<char>,
    pub login: bool,
    pub name: Seq<char>,
    pub addr: Seq<char>,
}

/// One client connection to the server.
pub struct Session {
    tag: String,
    login: bool,
    user: User,
}

impl View for Session {
    type V = SessionState;

    closed spec fn view(&self) -> SessionState {
        SessionState {
            tag: self.tag@,
            login: self.login,
            name: self.user.name@,
            addr: self.user.addr@,
        }
    }
}

/// Whether the request can be served: a login by a connection that has not
/// logged in names a user and an address, and a lookup names a user.
pub open spec fn request_well_formed(st: SessionState, msg: Seq<char>) -> bool {
    let p = split_seq(msg, ';');
    &&& (p[0] == "login"@ && !st.login ==> p.len() >= 3)
    &&& (p[0] == "getUser"@ ==> p.len() >= 2)
}

/// What serving the request `msg` does: the connection's new state, the
/// registry's new contents, and the lines broadcast, in order.
pub open spec fn request_step(st: SessionState, db: Map<Seq<char>, Seq<char>>, msg: Seq<char>) -> (
    SessionState,
    Map<Seq<char>, Seq<char>>,
    Seq<Seq<char>>,
) {
    let p = split_seq(msg, ';');
    if p[0] == "login"@ {
        if st.login {
            (st, db, seq![st.tag + "#Already logged in@"@])
        } else if db.contains_key(p[1]) {
            (st, db, Seq::<Seq<char>>::empty())
        } else {
            (
                SessionState { tag: st.tag, login: true, name: p[1], addr: p[2] },
                db.insert(p[1], p[2]),
                seq![st.tag + "#success@"@, st.tag + "#"@ + p[1] + ":joined the chat@"@],
            )
        }
    } else if p[0] == "getUser"@ {
        let req = trim_seq(p[1]);
        if db.contains_key(req) {
            (st, db, seq![st.tag + "#"@ + user_record(req, db[req])])
        } else {
            (st, db, seq![st.tag + "#User;Userdown;"@ + p[1] + "@"@])
        }
    } else {
        (st, db, seq![st.tag + "# invalid request@"@])
    }
}

/// The state and registry after serving the requests `msgs` in order.
pub open spec fn run_requests(
    st: SessionState,
    db: Map<Seq<char>, Seq<char>>,
    msgs: Seq<Seq<char>>,
) -> (SessionState, Map<Seq<char>, Seq<char>>)
    decreases msgs.len(),
{
    if msgs.len() == 0 {
        (st, db)
    } else {
        let (s1, d1) = run_requests(st, db, msgs.drop_last());
        let (s2, d2, _) = request_step(s1, d1, msgs.last());
        (s2, d2)
    }
}

/// Whether each of the requests `msgs` can be served when its turn comes.
pub open spec fn run_well_formed(
    st: SessionState,
    db: Map<Seq<char>, Seq<char>>,
    msgs: Seq<Seq<char>>,
) -> bool
    decreases msgs.len(),
{
    msgs.len() == 0 || (run_well_formed(st, db, msgs.drop_last()) && request_well_formed(
        run_requests(st, db, msgs.drop_last()).0,
        msgs.last(),
    ))
}

impl Session {
    /// A fresh connection, tagged with the decimal notation of its number.
    pub fn new(userid: i32) -> (r: Self)
        ensures
            r@ == (SessionState {
                tag: dec_int(userid as int),
                login: false,
                name: Seq::<char>::empty(),
                addr: Seq::<char>::empty(),
            }),
    {
        Session {
            tag: decimal(userid),
            login: false,
            user: User { name: String::new(), addr: String::new() },
        }
    }

    /// The tag that addresses this connection's replies.
    pub fn tag(&self) -> (r: String)
        ensures
            r@ == self@.tag,
    {
        self.tag.clone()
    }

    /// Whether the request can be served, see `request_well_formed`.
    pub fn is_well_formed(&self, message: &str) -> (b: bool)
        ensures
            b == request_well_formed(self@, message@),
    {
        let parts = split(message, ';');
        let is_login = same_text(parts[0].as_str(), "login");
        let is_get = same_text(parts[0].as_str(), "getUser");
        (!is_login || self.login || parts.len() >= 3) && (!is_get || parts.len() >= 2)
    }

    /// Serves one request and returns the lines to broadcast.
    pub fn handle_request(&mut self, db: &mut Registry, message: &str) -> (out: Vec<String>)
        requires
            request_well_formed(old(self)@, message@),
        ensures
            (final(self)@, final(db)@, views(out@)) == request_step(old(self)@, old(db)@, message@),
    {
        let parts = split(message, ';');
        let mut out: Vec<String> = Vec::new();
        if same_text(parts[0].as_str(), "login") {
            if self.login {
                out.push(cat(self.tag.as_str(), "#Already logged in@"));
                assert(views(out@) =~= seq![self@.tag + "#Already logged in@"@]);
                return out;
            }
            let addr = parts[2].clone();
            match db.handle_login(addr.as_str(), &parts) {
                Ok(s) => {
                    self.login = true;
                    self.user = User { name: s.clone(), addr: addr.clone() };
                    out.push(cat(self.tag.as_str(), "#success@"));
                    let a = cat(self.tag.as_str(), "#");
                    let b = cat(a.as_str(), s.as_str());
                    out.push(cat(b.as_str(), ":joined the chat@"));
                    assert(views(out@) =~= seq![
                        self@.tag + "#success@"@,
                        self@.tag + "#"@ + parts@[1]@ + ":joined the chat@"@,
                    ]);
                },
                Err(_) => {
                    assert(views(out@) =~= Seq::<Seq<char>>::empty());
                },
            }
        } else if same_text(parts[0].as_str(), "getUser") {
            match db.handle_get(&parts) {
                Ok(s) => {
                    let a = cat(self.tag.as_str(), "#");
                    out.push(cat(a.as_str(), s.as_str()));
                    assert(views(out@) =~= seq![out@[0]@]);
                },
                Err(_) => {
                    let a = cat(self.tag.as_str(), "#User;Userdown;");
                    let b = cat(a.as_str(), parts[1].as_str());
                    out.push(cat(b.as_str(), "@"));
                    assert(views(out@) =~= seq![
                        self@.tag + "#User;Userdown;"@ + parts@[1]@ + "@"@,
                    ]);
                },
            }
        } else {
            out.push(cat(self.tag.as_str(), "# invalid request@"));
            assert(views(out@) =~= seq![self@.tag + "# invalid request@"@]);
        }
        out
    }

    /// Serves the request carried by the bytes read from the connection,
    /// decoded as `String::from_utf8_lossy` does. `None` when the request
    /// cannot be served (see `request_well_formed`): nothing changes then.
    pub fn handle_bytes(&mut self, db: &mut Registry, bytes: &[u8]) -> (r: Option<Vec<String>>)
        ensures
            match r {
                Some(out) => request_well_formed(old(self)@, lossy_utf8(bytes@)) && (
                final(self)@,
                final(db)@,
                views(out@),
                ) == request_step(old(self)@, old(db)@, lossy_utf8(bytes@)),
                None => !request_well_formed(old(self)@, lossy_utf8(bytes@)) && final(self)@
                    == old(self)@ && final(db)@ == old(db)@,
            },
    {
        let message = decode_lossy(bytes);
        if self.is_well_formed(message.as_str()) {
            Some(self.handle_request(db, message.as_str()))
        } else {
            None
        }
    }

    /// Ends the connection: takes its user off the registry and returns the
    /// line to broadcast, which stops this connection's relaying only.
    pub fn handle_close(&self, db: &mut Registry) -> (r: String)
        ensures
            r@ == self@.tag + "#closed"@,
            final(db)@ == old(db)@.remove(self@.name),
    {
        db.remove_key(&self.user);
        cat(self.tag.as_str(), "#closed")
    }
}

/// What a connection does with a broadcast line.
pub enum Delivery {
    /// Stop relaying.
    Stop,
    /// Write this text to the client.
    Write(String),
    /// The line is addressed to another connection.
    Skip,
}

/// The abstract form of a `Delivery`.
pub enum DeliveryView {
    Stop,
    Write(Seq<char>),
    Skip,
}

impl View for Delivery {
    type V = DeliveryView;

    open spec fn view(&self) -> DeliveryView {
        match self {
            Delivery::Stop => DeliveryView::Stop,
            Delivery::Write(s) => DeliveryView::Write(s@),
            Delivery::Skip => DeliveryView::Skip,
        }
    }
}

/// Where a broadcast line goes: a line with `#` is for the connection whose
/// tag stands before its first `#`, and is skipped by every other one; that
/// connection stops on `closed` and otherwise writes the text after the
/// first `#` up to the next one. A line without `#` goes whole to every
/// connection.
pub open spec fn delivery_of(s: Seq<char>, name: Seq<char>) -> DeliveryView {
    if s.contains('#') {
        let p = split_seq(s, '#');
        if p[0] != name {
            DeliveryView::Skip
        } else if p[1] == "closed"@ {
            DeliveryView::Stop
        } else {
            DeliveryView::Write(p[1])
        }
    } else {
        DeliveryView::Write(s)
    }
}

/// Decides what the connection tagged `name` does with the broadcast line `s`.
pub fn route_broadcast(s: &str, name: &str) -> (r: Delivery)
    ensures
        r@ == delivery_of(s@, name@),
{
    if has_char(s, '#') {
        proof {
            lemma_split_holding(s@, '#');
        }
        let p = split(s, '#');
        if !same_text(p[0].as_str(), name) {
            Delivery::Skip
        } else if same_text(p[1].as_str(), "closed") {
            Delivery::Stop
        } else {
            Delivery::Write(p[1].clone())
        }
    } else {
        Delivery::Write(s.to_owned())
    }
}

} // verus!
