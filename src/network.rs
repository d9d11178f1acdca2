//! The message protocol between client and server, and an in-process
//! duplex link that carries it.
use vstd::prelude::*;
use std::collections::VecDeque;
use crate::chunk::Chunk;
use crate::data::Data;

verus! {

pub type PlayerId = u64;

/// The player served by an in-process link.
pub const LOCAL_PLAYER: PlayerId = 0;

/// Messages from the server.
pub enum ToClient {
    GameData(Data),
    Chunk(Chunk),
}

/// Messages from the client: the player's position after collision, in
/// position units.
pub enum ToServer {
    SetPos([i64; 3]),
}

pub enum ServerEvent {
    NoEvent,
    ClientConnected(PlayerId),
    ClientDisconnected(PlayerId),
    ClientMessage(PlayerId, ToServer),
}

pub enum ClientEvent {
    NoEvent,
    Connected,
    Disconnected,
    ServerMessage(ToClient),
}

/// The server's end of a transport.
pub trait Server {
    /// The next event, or `NoEvent` when none is queued; never blocks.
    fn receive_event(&mut self) -> ServerEvent;

    /// Queues `message` for `client`; returns at once.
    fn send(&mut self, client: PlayerId, message: ToClient);
}

/// The client's end of a transport.
pub trait Client {
    /// The next event, or `NoEvent` when none is queued; never blocks.
    fn receive_event(&mut self) -> ClientEvent;

    /// Queues `message` for the server; returns at once.
    fn send(&mut self, message: ToServer);
}

/// A first-in first-out queue.
pub struct Fifo<T> {
    pub items: VecDeque<T>,
}

impl<T> View for Fifo<T> {
    type V = Seq<T>;

    open spec fn view(&self) -> Seq<T> {
        self.items@
    }
}

impl<T> Fifo<T> {
    pub fn new() -> (r: Fifo<T>)
        ensures
            r@ == Seq::<T>::empty(),
    {
        Fifo { items: VecDeque::new() }
    }

    /// Appends `x` at the back.
    pub fn push(&mut self, x: T)
        ensures
            final(self)@ == old(self)@.push(x),
    {
        self.items.push_back(x);
    }

    /// Takes the front item, if any.
    pub fn pop(&mut self) -> (r: Option<T>)
        ensures
            old(self)@.len() == 0 ==> r is None && final(self)@ == old(self)@,
            old(self)@.len() > 0 ==> r == Some(old(self)@[0]) && final(self)@ == old(self)@.drop_first(),
    {
        let r = self.items.pop_front();
        proof {
            if old(self)@.len() > 0 {
                assert(self@ =~= old(self)@.drop_first());
            }
        }
        r
    }

    pub fn len(&self) -> (r: usize)
        ensures
            r == self@.len(),
    {
        self.items.len()
    }

    /// Takes every queued item, front first.
    pub fn drain(&mut self) -> (r: Vec<T>)
        ensures
            r@ == old(self)@,
            final(self)@.len() == 0,
    {
        let mut r: Vec<T> = Vec::new();
        while self.items.len() > 0
            invariant
                r@ + self@ == old(self)@,
            decreases self@.len(),
        {
            let ghost before = self@;
            match self.items.pop_front() {
                Some(x) => {
                    r.push(x);
                    assert(r@ + self@ =~= old(self)@);
                },
                None => {},
            }
        }
        assert(r@ + self@ =~= r@);
        r
    }
}

/// Whatever was queued before, then `a`, then `b`: what is pushed first
/// comes out first.
pub proof fn lemma_fifo_order<T>(before: Seq<T>, a: T, b: T)
    ensures
        before.push(a).push(b) == before + seq![a, b],
        before.push(a).push(b)[before.len() as int] == a,
        before.push(a).push(b)[before.len() as int + 1] == b,
        before.len() == 0 ==> before.push(a).push(b)[0] == a && before.push(a).push(b).drop_first() == seq![b],
{
    assert(before.push(a).push(b) =~= before + seq![a, b]);
    if before.len() == 0 {
        assert(before.push(a).push(b).drop_first() =~= seq![b]);
    }
}

/// An in-process duplex link: one queue toward each end.
pub struct LocalLink {
    pub to_client: Fifo<ClientEvent>,
    pub to_server: Fifo<ServerEvent>,
}

impl LocalLink {
    /// A link whose ends each see the other connected.
    pub fn new() -> (r: LocalLink)
        ensures
            r.to_client@ == seq![ClientEvent::Connected],
            r.to_server@ == seq![ServerEvent::ClientConnected(LOCAL_PLAYER)],
    {
        let mut to_client = Fifo::new();
        to_client.push(ClientEvent::Connected);
        let mut to_server = Fifo::new();
        to_server.push(ServerEvent::ClientConnected(LOCAL_PLAYER));
        LocalLink { to_client, to_server }
    }

    /// The client's next event.
    pub fn client_receive(&mut self) -> (r: ClientEvent)
        ensures
            old(self).to_client@.len() == 0 ==> r is NoEvent && final(self).to_client@ == old(self).to_client@,
            old(self).to_client@.len() > 0 ==> r == old(self).to_client@[0]
                && final(self).to_client@ == old(self).to_client@.drop_first(),
            final(self).to_server@ == old(self).to_server@,
    {
        match self.to_client.pop() {
            Some(e) => e,
            None => ClientEvent::NoEvent,
        }
    }

    /// Sends `message` from the client to the server.
    pub fn client_send(&mut self, message: ToServer)
        ensures
            final(self).to_server@ == old(self).to_server@.push(ServerEvent::ClientMessage(LOCAL_PLAYER, message)),
            final(self).to_client@ == old(self).to_client@,
    {
        self.to_server.push(ServerEvent::ClientMessage(LOCAL_PLAYER, message));
    }

    /// The server's next event.
    pub fn server_receive(&mut self) -> (r: ServerEvent)
        ensures
            old(self).to_server@.len() == 0 ==> r is NoEvent && final(self).to_server@ == old(self).to_server@,
            old(self).to_server@.len() > 0 ==> r == old(self).to_server@[0]
                && final(self).to_server@ == old(self).to_server@.drop_first(),
            final(self).to_client@ == old(self).to_client@,
    {
        match self.to_server.pop() {
            Some(e) => e,
            None => ServerEvent::NoEvent,
        }
    }

    /// Sends `message` from the server to the client; the link serves one
    /// client, whatever `client` is.
    pub fn server_send(&mut self, client: PlayerId, message: ToClient)
        ensures
            final(self).to_client@ == old(self).to_client@.push(ClientEvent::ServerMessage(message)),
            final(self).to_server@ == old(self).to_server@,
    {
        self.to_client.push(ClientEvent::ServerMessage(message));
    }
}

} // verus!
