//! The peer mesh of one node: who it is linked with, the messages that it
//! stamps, and where an inbound message goes.

use vstd::prelude::*;
use crate::error::LiquidError;
use crate::network::message::{
    dir_view, Body, BodyView, Message, MessageView, COORDINATOR_ID,
};
use crate::network::server::{listing, ServerView};

verus! {

/// The directory holds a link to the node `id`.
pub open spec fn knows(dir: Seq<(u64, Seq<char>)>, id: u64) -> bool {
    exists|i: int| 0 <= i < dir.len() && (#[trigger] dir[i]).0 == id
}

/// The directory after a link to `peer` came up: a node that is already
/// there is not entered again.
pub open spec fn with_peer(dir: Seq<(u64, Seq<char>)>, peer: (u64, Seq<char>)) -> Seq<
    (u64, Seq<char>),
> {
    if knows(dir, peer.0) {
        dir
    } else {
        dir.push(peer)
    }
}

/// The directory after links to all of `peers` came up, one after the other.
pub open spec fn joined(dir: Seq<(u64, Seq<char>)>, peers: Seq<(u64, Seq<char>)>) -> Seq<
    (u64, Seq<char>),
>
    decreases peers.len(),
{
    if peers.len() == 0 {
        dir
    } else {
        with_peer(joined(dir, peers.drop_last()), peers.last())
    }
}

/// No id stands twice in the listing.
pub open spec fn distinct_ids(dir: Seq<(u64, Seq<char>)>) -> bool {
    forall|i: int, j: int| 0 <= i < j < dir.len() ==> (#[trigger] dir[i]).0 != (#[trigger] dir[j]).0
}

/// A peer that is new to the directory keeps its ids distinct.
pub proof fn with_peer_keeps_distinct(dir: Seq<(u64, Seq<char>)>, peer: (u64, Seq<char>))
    requires
        distinct_ids(dir),
    ensures
        distinct_ids(with_peer(dir, peer)),
{
    if !knows(dir, peer.0) {
        let next = dir.push(peer);
        assert forall|i: int, j: int| 0 <= i < j < next.len() implies (#[trigger] next[i]).0 != (
        #[trigger] next[j]).0 by {
            if j < dir.len() {
                assert(next[i] == dir[i] && next[j] == dir[j]);
            } else {
                assert(next[i] == dir[i]);
            }
        }
    }
}

/// Peers with ids of their own are all entered, in their order.
pub proof fn joined_distinct(dir: Seq<(u64, Seq<char>)>, peers: Seq<(u64, Seq<char>)>)
    requires
        distinct_ids(dir + peers),
    ensures
        joined(dir, peers) == dir + peers,
    decreases peers.len(),
{
    if peers.len() == 0 {
        assert(dir + peers =~= dir);
    } else {
        let front = peers.drop_last();
        let all = dir + peers;
        assert forall|i: int, j: int| 0 <= i < j < (dir + front).len() implies (#[trigger] (dir
            + front)[i]).0 != (#[trigger] (dir + front)[j]).0 by {
            assert((dir + front)[i] == all[i]);
            assert((dir + front)[j] == all[j]);
        }
        joined_distinct(dir, front);
        let last = peers.last();
        assert(all[all.len() - 1] == last);
        assert forall|i: int| 0 <= i < (dir + front).len() implies (#[trigger] (dir + front)[i]).0
            != last.0 by {
            assert((dir + front)[i] == all[i]);
        }
        assert((dir + front).push(last) =~= all);
    }
}

/// After the bootstrap of a cluster of `n` nodes, the node `k` is linked
/// with every other node and with no one else: it dialled those that the
/// coordinator listed, which are the nodes below it, and took the hellos of
/// the nodes above it. Its directory holds `n - 1` entries.
pub proof fn mesh_is_complete(addrs: Seq<Seq<char>>, k: int)
    requires
        1 <= k <= addrs.len() <= u64::MAX,
    ensures
        ({
            let lower = listing(addrs.take(k - 1));
            let upper = listing(addrs).skip(k);
            let dir = joined(joined(Seq::empty(), lower), upper);
            &&& lower == listing(addrs).take(k - 1)
            &&& dir.len() == addrs.len() - 1
            &&& !knows(dir, k as u64)
            &&& forall|j: int|
                1 <= j <= addrs.len() && j != k ==> knows(dir, j as u64) && dir.contains(
                    (j as u64, #[trigger] addrs[j - 1]),
                )
        }),
{
    let lower = listing(addrs.take(k - 1));
    let upper = listing(addrs).skip(k);
    let empty = Seq::<(u64, Seq<char>)>::empty();
    assert(lower =~= listing(addrs).take(k - 1));
    assert(empty + lower =~= lower);
    joined_distinct(empty, lower);
    joined_distinct(lower, upper);
    let dir = lower + upper;
    assert forall|j: int| 1 <= j <= addrs.len() && j != k implies knows(dir, j as u64)
        && dir.contains((j as u64, #[trigger] addrs[j - 1])) by {
        if j < k {
            assert(dir[j - 1] == (j as u64, addrs[j - 1]));
        } else {
            assert(dir[j - 2] == (j as u64, addrs[j - 1]));
        }
    }
}

/// Where an inbound message goes.
#[derive(Debug, Clone, PartialEq, Eq)]
pub enum Inbound {
    /// To the store: a `Get` or a `Value`, with the node that sent it.
    Store { sender: u64, body: Body },
    /// To the application's blob channel.
    Blob(Vec<u8>),
    /// The coordinator ended the cluster: fire the termination notifier.
    Terminate,
}

pub enum InboundView {
    Store { sender: u64, body: BodyView },
    Blob(Seq<u8>),
    Terminate,
}

impl View for Inbound {
    type V = InboundView;

    open spec fn view(&self) -> InboundView {
        match *self {
            Inbound::Store { sender, body } => InboundView::Store { sender, body: body@ },
            Inbound::Blob(bytes) => InboundView::Blob(bytes@),
            Inbound::Terminate => InboundView::Terminate,
        }
    }
}

/// Where a message goes by its kind. `Kill` is taken from the coordinator
/// only; no link carries an introduction or a directory once it is up.
pub open spec fn route(m: MessageView, from_coordinator: bool) -> Result<InboundView, LiquidError> {
    match m.body {
        BodyView::Get { .. } => Ok(InboundView::Store { sender: m.sender, body: m.body }),
        BodyView::Value { .. } => Ok(InboundView::Store { sender: m.sender, body: m.body }),
        BodyView::Blob { bytes } => Ok(InboundView::Blob(bytes)),
        BodyView::Kill => if from_coordinator {
            Ok(InboundView::Terminate)
        } else {
            Err(LiquidError::ProtocolViolation)
        },
        _ => Err(LiquidError::ProtocolViolation),
    }
}

/// A broadcast of `Kill` holds, for every node of the network, a message
/// to that node, and the node that takes it from its coordinator link
/// terminates.
pub proof fn kill_reaches_every_node(server: ServerView, name: Seq<char>, id: int)
    requires
        1 <= id <= server.members(name).len() <= u64::MAX,
    ensures
        ({
            let m = server.broadcast(name, BodyView::Kill)[id - 1];
            &&& m.target == id
            &&& m.sender == COORDINATOR_ID
            &&& route(m, true) == Ok::<InboundView, LiquidError>(InboundView::Terminate)
        }),
{
}

/// A node of the mesh.
#[derive(Debug)]
pub struct Client {
    id: u64,
    address: String,
    network_name: String,
    num_nodes: usize,
    msg_id: u64,
    directory: Vec<(u64, String)>,
}

/// The mathematical value of a [`Client`].
pub struct ClientView {
    pub id: u64,
    pub address: Seq<char>,
    pub network_name: Seq<char>,
    pub num_nodes: usize,
    pub msg_id: u64,
    pub directory: Seq<(u64, Seq<char>)>,
}

impl ClientView {
    /// The message that this node sends next, to `target`.
    pub open spec fn stamp(self, target: u64, body: BodyView) -> MessageView {
        MessageView { msg_id: self.msg_id, sender: self.id, target, body }
    }

    /// The hello that tells `target` who dialled it.
    pub open spec fn hello(self, target: u64) -> MessageView {
        self.stamp(
            target,
            BodyView::Introduction { address: self.address, network_name: self.network_name },
        )
    }

    /// This node after it sent one message.
    pub open spec fn sent(self) -> ClientView {
        ClientView { msg_id: (self.msg_id + 1) as u64, ..self }
    }

    /// No node stands twice in the directory.
    pub open spec fn inv(self) -> bool {
        distinct_ids(self.directory)
    }

    /// This node with a link to `peer`.
    pub open spec fn linked(self, peer: (u64, Seq<char>)) -> ClientView {
        ClientView { directory: self.directory.push(peer), ..self }
    }
}

impl View for Client {
    type V = ClientView;

    closed spec fn view(&self) -> ClientView {
        ClientView {
            id: self.id,
            address: self.address@,
            network_name: self.network_name@,
            num_nodes: self.num_nodes,
            msg_id: self.msg_id,
            directory: dir_view(self.directory@),
        }
    }
}

impl Client {
    /// The node that the coordinator's `reply` to an introduction makes of
    /// the caller, and the peers that it has to dial. The reply's target is
    /// the node's id. A reply that is no directory is refused.
    pub fn new(my_addr: &str, network_name: &str, num_nodes: usize, reply: Message) -> (res: Result<
        (Client, Vec<(u64, String)>),
        LiquidError,
    >)
        ensures
            match reply@.body {
                BodyView::Directory { dir } => if reply@.msg_id < u64::MAX {
                    &&& res is Ok
                    &&& res->Ok_0.0@ == (ClientView {
                        id: reply@.target,
                        address: my_addr@,
                        network_name: network_name@,
                        num_nodes,
                        msg_id: (reply@.msg_id + 1) as u64,
                        directory: Seq::empty(),
                    })
                    &&& res->Ok_0.0@.inv()
                    &&& dir_view(res->Ok_0.1@) == dir
                } else {
                    res matches Err(e) && e == LiquidError::ProtocolViolation
                },
                _ => res matches Err(e) && e == LiquidError::UnexpectedMessage,
            },
    {
        match reply.body {
            Body::Directory { dir } => {
                if reply.msg_id == u64::MAX {
                    return Err(LiquidError::ProtocolViolation);
                }
                let client = Client {
                    id: reply.target,
                    address: my_addr.to_owned(),
                    network_name: network_name.to_owned(),
                    num_nodes,
                    msg_id: reply.msg_id + 1,
                    directory: Vec::new(),
                };
                assert(dir_view(client.directory@) =~= Seq::empty());
                Ok((client, dir))
            },
            _ => Err(LiquidError::UnexpectedMessage),
        }
    }

    /// The id that the coordinator gave this node.
    pub fn id(&self) -> (id: u64)
        ensures
            id == self@.id,
    {
        self.id
    }

    /// The id that the next message of this node carries.
    pub fn msg_id(&self) -> (id: u64)
        ensures
            id == self@.msg_id,
    {
        self.msg_id
    }

    /// The address on which this node listens.
    pub fn address(&self) -> (res: &String)
        ensures
            res@ == self@.address,
    {
        &self.address
    }

    /// The number of peers that this node is linked with.
    pub fn num_peers(&self) -> (n: usize)
        ensures
            n == self@.directory.len(),
    {
        self.directory.len()
    }

    /// Whether this node is linked with the node `id`.
    pub fn is_linked(&self, id: u64) -> (res: bool)
        ensures
            res == knows(self@.directory, id),
    {
        let mut i: usize = 0;
        while i < self.directory.len()
            invariant
                i <= self.directory@.len(),
                forall|j: int| 0 <= j < i ==> (#[trigger] self@.directory[j]).0 != id,
            decreases self.directory@.len() - i,
        {
            if self.directory[i].0 == id {
                assert(self@.directory[i as int].0 == id);
                return true;
            }
            i += 1;
        }
        false
    }

    /// Whether the mesh is complete as seen from this node: it is linked
    /// with all the other nodes of the cluster.
    pub fn is_ready(&self) -> (res: bool)
        ensures
            res == (self@.directory.len() + 1 == self@.num_nodes),
    {
        self.num_nodes > 0 && self.directory.len() == self.num_nodes - 1
    }

    fn link(&mut self, id: u64, address: String)
        ensures
            final(self)@ == old(self)@.linked((id, address@)),
    {
        self.directory.push((id, address));
        assert(dir_view(self.directory@) =~= dir_view(old(self).directory@).push((id, address@)));
    }

    /// Enters the peer that was dialled into the directory and gives the
    /// hello to send to it. A peer that is already linked is refused.
    pub fn connect(&mut self, client: (u64, String)) -> (res: Result<Message, LiquidError>)
        requires
            old(self)@.msg_id < u64::MAX,
        ensures
            match res {
                Ok(m) => {
                    &&& !knows(old(self)@.directory, client.0)
                    &&& m@ == old(self)@.hello(client.0)
                    &&& final(self)@ == old(self)@.linked((client.0, client.1@)).sent()
                },
                Err(e) => {
                    &&& e == LiquidError::ReconnectionError
                    &&& knows(old(self)@.directory, client.0)
                    &&& *final(self) == *old(self)
                },
            },
            final(self)@.directory == with_peer(old(self)@.directory, (client.0, client.1@)),
            old(self)@.inv() ==> final(self)@.inv(),
    {
        proof {
            if self@.inv() {
                with_peer_keeps_distinct(self@.directory, (client.0, client.1@));
            }
        }
        if self.is_linked(client.0) {
            return Err(LiquidError::ReconnectionError);
        }
        let hello = Message::new(
            self.msg_id,
            self.id,
            client.0,
            Body::Introduction {
                address: self.address.clone(),
                network_name: self.network_name.clone(),
            },
        );
        self.link(client.0, client.1);
        self.msg_id = self.msg_id + 1;
        Ok(hello)
    }

    /// Takes the first message of a link that a peer opened. A hello enters
    /// its sender into the directory; a second hello of a linked node and
    /// any other kind of message are refused, and the directory stays as it
    /// is.
    pub fn accept_new_connections(&mut self, first: &Message) -> (res: Result<u64, LiquidError>)
        ensures
            match first@.body {
                BodyView::Introduction { address, network_name } => if knows(
                    old(self)@.directory,
                    first@.sender,
                ) {
                    &&& res == Err::<u64, LiquidError>(LiquidError::ReconnectionError)
                    &&& *final(self) == *old(self)
                } else {
                    &&& res == Ok::<u64, LiquidError>(first@.sender)
                    &&& final(self)@ == old(self)@.linked((first@.sender, address))
                },
                _ => {
                    &&& res == Err::<u64, LiquidError>(LiquidError::ProtocolViolation)
                    &&& *final(self) == *old(self)
                },
            },
            first@.body matches BodyView::Introduction { address, .. } ==> final(self)@.directory
                == with_peer(old(self)@.directory, (first@.sender, address)),
            old(self)@.inv() ==> final(self)@.inv(),
    {
        match &first.body {
            Body::Introduction { address, network_name } => {
                proof {
                    if self@.inv() {
                        with_peer_keeps_distinct(self@.directory, (first@.sender, address@));
                    }
                }
                if self.is_linked(first.sender) {
                    return Err(LiquidError::ReconnectionError);
                }
                self.link(first.sender, address.clone());
                Ok(first.sender)
            },
            _ => Err(LiquidError::ProtocolViolation),
        }
    }

    /// Stamps `body` as the next message to the peer `target_id`. A node
    /// that the directory does not hold is unknown.
    pub fn send_msg(&mut self, target_id: u64, body: Body) -> (res: Result<Message, LiquidError>)
        requires
            old(self)@.msg_id < u64::MAX,
        ensures
            match res {
                Ok(m) => {
                    &&& knows(old(self)@.directory, target_id)
                    &&& m@ == old(self)@.stamp(target_id, body@)
                    &&& final(self)@ == old(self)@.sent()
                },
                Err(e) => {
                    &&& e == LiquidError::UnknownId
                    &&& !knows(old(self)@.directory, target_id)
                    &&& *final(self) == *old(self)
                },
            },
    {
        if !self.is_linked(target_id) {
            return Err(LiquidError::UnknownId);
        }
        let m = Message::new(self.msg_id, self.id, target_id, body);
        self.msg_id = self.msg_id + 1;
        Ok(m)
    }

    /// Says where a message that a link's reader took goes, by its kind.
    pub fn recv_msg(message: Message, from_coordinator: bool) -> (res: Result<
        Inbound,
        LiquidError,
    >)
        ensures
            match res {
                Ok(inbound) => route(message@, from_coordinator) == Ok::<InboundView, LiquidError>(
                    inbound@,
                ),
                Err(e) => route(message@, from_coordinator) == Err::<InboundView, LiquidError>(e),
            },
    {
        let sender = message.sender;
        match message.body {
            Body::Get { key_name, home } => Ok(
                Inbound::Store { sender, body: Body::Get { key_name, home } },
            ),
            Body::Value { key_name, home, bytes } => Ok(
                Inbound::Store { sender, body: Body::Value { key_name, home, bytes } },
            ),
            Body::Blob { bytes } => Ok(Inbound::Blob(bytes)),
            Body::Kill => if from_coordinator {
                Ok(Inbound::Terminate)
            } else {
                Err(LiquidError::ProtocolViolation)
            },
            _ => Err(LiquidError::ProtocolViolation),
        }
    }
}

} // verus!
