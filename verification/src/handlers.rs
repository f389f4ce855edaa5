use vstd::prelude::*;

use crate::names::NameMap;
use crate::text::{cat, split_seq, views};

verus! {

/// The write side of a connection: to the server, to a peer that connected
/// to us, or to a peer that we connected to.
pub enum StreamType<T, W, S> {
    TcpWrite(T),
    WsSend(W),
    WsSendTls(S),
}

/// Whether a link goes to the server.
pub open spec fn is_server_link<T, W, S>(l: StreamType<T, W, S>) -> bool {
    l is TcpWrite
}

/// The write sides of the open connections, each under the name of the one
/// at the other end (`0` for the server).
pub struct WriteHandlers<T, W, S> {
    links: NameMap<StreamType<T, W, S>>,
}

impl<T, W, S> View for WriteHandlers<T, W, S> {
    type V = Map<Seq<char>, StreamType<T, W, S>>;

    closed spec fn view(&self) -> Map<Seq<char>, StreamType<T, W, S>> {
        self.links@
    }
}

/// How to send a message typed as `2:name:text`.
pub enum SendPlan {
    /// Nobody is connected under that name.
    NotFound(String),
    /// The name is the server's, which takes no messages.
    Server,
    /// Send the text to the peer of that name.
    Peer { name: String, text: String },
}

/// The abstract form of a `SendPlan`.
pub enum SendPlanView {
    NotFound(Seq<char>),
    Server,
    Peer { name: Seq<char>, text: Seq<char> },
}

impl View for SendPlan {
    type V = SendPlanView;

    open spec fn view(&self) -> SendPlanView {
        match self {
            SendPlan::NotFound(n) => SendPlanView::NotFound(n@),
            SendPlan::Server => SendPlanView::Server,
            SendPlan::Peer { name, text } => SendPlanView::Peer { name: name@, text: text@ },
        }
    }
}

/// Whether a send command can be carried out: it names someone, and when
/// that is a peer, it has a text.
pub open spec fn send_well_formed<T, W, S>(
    m: Map<Seq<char>, StreamType<T, W, S>>,
    v: Seq<Seq<char>>,
) -> bool {
    &&& v.len() >= 2
    &&& (m.contains_key(v[1]) && !is_server_link(m[v[1]]) ==> v.len() >= 3)
}

/// The plan for the send command with fields `v`.
pub open spec fn send_plan_of<T, W, S>(
    m: Map<Seq<char>, StreamType<T, W, S>>,
    v: Seq<Seq<char>>,
) -> SendPlanView {
    if !m.contains_key(v[1]) {
        SendPlanView::NotFound(v[1])
    } else if is_server_link(m[v[1]]) {
        SendPlanView::Server
    } else {
        SendPlanView::Peer { name: v[1], text: v[2] }
    }
}

/// Whether a lookup command can be carried out: when the server is
/// connected, the command names a user.
pub open spec fn get_well_formed<T, W, S>(
    m: Map<Seq<char>, StreamType<T, W, S>>,
    v: Seq<Seq<char>>,
) -> bool {
    m.contains_key("0"@) && is_server_link(m["0"@]) ==> v.len() >= 2
}

/// The request to send to the server for the lookup command with fields
/// `v`, if the server is connected.
pub open spec fn get_request_of<T, W, S>(
    m: Map<Seq<char>, StreamType<T, W, S>>,
    v: Seq<Seq<char>>,
) -> Option<Seq<char>> {
    if m.contains_key("0"@) && is_server_link(m["0"@]) {
        Some("getUser;"@ + v[1])
    } else {
        None
    }
}

impl<T, W, S> WriteHandlers<T, W, S> {
    /// No connections.
    pub fn new() -> (r: Self)
        ensures
            r@ == Map::<Seq<char>, StreamType<T, W, S>>::empty(),
    {
        WriteHandlers { links: NameMap::new() }
    }

    /// Records `link` under `name`, in place of any link it had.
    pub fn insert(&mut self, name: String, link: StreamType<T, W, S>)
        ensures
            final(self)@ == old(self)@.insert(name@, link),
    {
        self.links.insert(name, link);
    }

    /// Takes out the link recorded under `name`, if any.
    pub fn take(&mut self, name: &String) -> (r: Option<StreamType<T, W, S>>)
        ensures
            final(self)@ == old(self)@.remove(name@),
            match r {
                Some(l) => old(self)@.contains_key(name@) && l == old(self)@[name@],
                None => !old(self)@.contains_key(name@),
            },
    {
        self.links.remove(name)
    }

    /// Plans the send command with fields `v`; `None` when it cannot be
    /// carried out (see `send_well_formed`).
    pub fn send_message(&self, v: &Vec<String>) -> (r: Option<SendPlan>)
        ensures
            match r {
                Some(p) => send_well_formed(self@, views(v@)) && p@ == send_plan_of(
                    self@,
                    views(v@),
                ),
                None => !send_well_formed(self@, views(v@)),
            },
    {
        if v.len() < 2 {
            return None;
        }
        match self.links.get(&v[1]) {
            None => Some(SendPlan::NotFound(v[1].clone())),
            Some(StreamType::TcpWrite(_)) => Some(SendPlan::Server),
            Some(_) => {
                if v.len() < 3 {
                    None
                } else {
                    Some(SendPlan::Peer { name: v[1].clone(), text: v[2].clone() })
                }
            },
        }
    }

    /// The request that the lookup command with fields `v` sends to the
    /// server; `Some(None)` when the server is not connected, `None` when
    /// the command cannot be carried out (see `get_well_formed`).
    pub fn get_user(&self, v: &Vec<String>) -> (r: Option<Option<String>>)
        ensures
            match r {
                Some(q) => get_well_formed(self@, views(v@)) && match q {
                    Some(s) => get_request_of(self@, views(v@)) == Some(s@),
                    None => get_request_of(self@, views(v@)) is None,
                },
                None => !get_well_formed(self@, views(v@)),
            },
    {
        let server = "0".to_owned();
        match self.links.get(&server) {
            Some(StreamType::TcpWrite(_)) => {
                if v.len() < 2 {
                    None
                } else {
                    Some(Some(cat("getUser;", v[1].as_str())))
                }
            },
            _ => Some(None),
        }
    }
}

} // verus!
