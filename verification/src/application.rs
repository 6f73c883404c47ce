//! The application facade: one handle that binds a node's mesh, its store,
//! its inbound blobs and the termination signal.

use vstd::prelude::*;
use crate::error::LiquidError;
use crate::kv::{actions_view, Action, ActionView, KVStore, StoreView};
use crate::network::client::{route, Client, ClientView, Inbound, InboundView};
use crate::network::message::{Body, BodyView, Message, MessageView};

verus! {

/// What a node does in the chain that joins the partial results of a
/// distributed map: results travel from the last node down to the first.
#[derive(Debug, Clone, Copy, PartialEq, Eq, Structural)]
pub struct ReducePlan {
    /// Whether the node first takes a partial result from its blob channel
    /// and joins it with its own.
    pub receives: bool,
    /// The node that gets this node's result, if any does.
    pub sends_to: Option<u64>,
}

impl ReducePlan {
    /// The node keeps the joined result: it is the head of the chain.
    pub open spec fn keeps_result(self) -> bool {
        self.sends_to is None
    }
}

/// The plan of the node `node_id` in a cluster of `num_nodes` nodes. The
/// last node starts the chain, so in a cluster of one node the only node is
/// told to send to the node 0, which no directory holds.
pub open spec fn reduce_plan(node_id: u64, num_nodes: u64) -> ReducePlan {
    if node_id == num_nodes {
        ReducePlan { receives: false, sends_to: Some((node_id - 1) as u64) }
    } else if node_id != 1 {
        ReducePlan { receives: true, sends_to: Some((node_id - 1) as u64) }
    } else {
        ReducePlan { receives: true, sends_to: None }
    }
}

/// The part of a file of `file_len` bytes that the node `node_id` of
/// `num_nodes` loads: where it starts, and its length before it is extended
/// to the end of the line on which it stops.
pub open spec fn chunk_of(file_len: u64, num_nodes: u64, node_id: u64) -> (int, int) {
    let size = file_len as int / num_nodes as int;
    (size * (node_id - 1), size)
}

/// Computes [`chunk_of`]: the start of the node's chunk and its length.
pub fn chunk_bounds(file_len: u64, num_nodes: u64, node_id: u64) -> (res: (u64, u64))
    requires
        1 <= node_id <= num_nodes,
    ensures
        (res.0 as int, res.1 as int) == chunk_of(file_len, num_nodes, node_id),
        res.0 + res.1 <= file_len,
{
    let size: u64 = file_len / num_nodes;
    assert(size * (node_id - 1) + size <= file_len) by (nonlinear_arith)
        requires
            size == file_len / num_nodes,
            1 <= node_id <= num_nodes,
    ;
    assert(0 <= size * (node_id - 1)) by (nonlinear_arith)
        requires
            1 <= node_id,
            0 <= size,
    ;
    (size * (node_id - 1), size)
}

/// The length of a chunk once it is extended by the `overrun` bytes that
/// were read up to the next line break, and by the line break itself.
/// `None` where no `u64` holds it.
pub fn chunk_len(size: u64, overrun: u64) -> (res: Option<u64>)
    ensures
        match res {
            Some(n) => n == size + overrun + 1,
            None => size + overrun + 1 > u64::MAX,
        },
{
    match size.checked_add(overrun) {
        Some(n) => n.checked_add(1),
        None => None,
    }
}

/// A node of the cluster as the user's code sees it.
#[derive(Debug)]
pub struct Application {
    /// The store of this node.
    pub kv: KVStore,
    /// The mesh of this node.
    pub client: Client,
    blobs: Vec<Vec<u8>>,
    killed: bool,
}

/// The mathematical value of an [`Application`].
pub struct ApplicationView {
    pub kv: StoreView,
    pub client: ClientView,
    /// The blobs that came in and were not taken yet, oldest first.
    pub blobs: Seq<Seq<u8>>,
    /// The coordinator's `Kill` has come.
    pub killed: bool,
}

pub open spec fn blobs_view(b: Seq<Vec<u8>>) -> Seq<Seq<u8>> {
    Seq::new(b.len(), |i: int| b[i]@)
}

impl ApplicationView {
    /// What an inbound message does: frames for the store are handled by
    /// it, a blob joins the queue, `Kill` from the coordinator ends the run;
    /// a message that its link may not carry changes nothing.
    pub open spec fn deliver(self, message: MessageView, from_coordinator: bool) -> (
        ApplicationView,
        Result<Seq<ActionView>, LiquidError>,
    ) {
        match route(message, from_coordinator) {
            Ok(InboundView::Store { sender, body }) => (
                ApplicationView { kv: self.kv.handle(sender, body).0, ..self },
                Ok(self.kv.handle(sender, body).1),
            ),
            Ok(InboundView::Blob(bytes)) => (
                ApplicationView { blobs: self.blobs.push(bytes), ..self },
                Ok(Seq::empty()),
            ),
            Ok(InboundView::Terminate) => (
                ApplicationView { killed: true, ..self },
                Ok(Seq::empty()),
            ),
            Err(e) => (self, Err(e)),
        }
    }

    /// The store belongs to the node that the mesh stands for, and both
    /// are valid.
    pub open spec fn inv(self) -> bool {
        self.kv.id == self.client.id && self.kv.inv() && self.client.inv()
    }

    /// The run is over: the user's task is done and `Kill` has come. Until
    /// then the node stays up to serve the reads of the others.
    pub open spec fn run_is_over(self, task_done: bool) -> bool {
        task_done && self.killed
    }
}

impl View for Application {
    type V = ApplicationView;

    closed spec fn view(&self) -> ApplicationView {
        ApplicationView {
            kv: self.kv@,
            client: self.client@,
            blobs: blobs_view(self.blobs@),
            killed: self.killed,
        }
    }
}

impl Application {
    /// The application of the node that the coordinator's `reply` to its
    /// introduction describes, with the peers that it has to dial.
    pub fn new(my_addr: &str, network_name: &str, num_nodes: usize, reply: Message) -> (res: Result<
        (Application, Vec<(u64, String)>),
        LiquidError,
    >)
        ensures
            match reply@.body {
                BodyView::Directory { dir } => if reply@.msg_id < u64::MAX {
                    &&& res is Ok
                    &&& res->Ok_0.0@.client == (ClientView {
                        id: reply@.target,
                        address: my_addr@,
                        network_name: network_name@,
                        num_nodes,
                        msg_id: (reply@.msg_id + 1) as u64,
                        directory: Seq::empty(),
                    })
                    &&& res->Ok_0.0@.kv == (StoreView {
                        id: reply@.target,
                        data: Map::empty(),
                        cache: Map::empty(),
                        waiting: Seq::empty(),
                    })
                    &&& res->Ok_0.0@.blobs == Seq::<Seq<u8>>::empty()
                    &&& !res->Ok_0.0@.killed
                    &&& res->Ok_0.0@.inv()
                    &&& crate::network::message::dir_view(res->Ok_0.1@) == dir
                } else {
                    res matches Err(e) && e == LiquidError::ProtocolViolation
                },
                _ => res matches Err(e) && e == LiquidError::UnexpectedMessage,
            },
    {
        match Client::new(my_addr, network_name, num_nodes, reply) {
            Ok((client, peers)) => {
                let kv = KVStore::new(client.id());
                let app = Application { kv, client, blobs: Vec::new(), killed: false };
                assert(blobs_view(app.blobs@) =~= Seq::empty());
                Ok((app, peers))
            },
            Err(e) => Err(e),
        }
    }

    /// The id of this node.
    pub fn node_id(&self) -> (id: u64)
        ensures
            id == self@.client.id,
    {
        self.client.id()
    }

    /// Whether the coordinator's `Kill` has come.
    pub fn is_terminated(&self) -> (res: bool)
        ensures
            res == self@.killed,
    {
        self.killed
    }

    /// Takes in a message that one of the links' readers got, and gives the
    /// actions that follow from it.
    pub fn deliver(&mut self, message: Message, from_coordinator: bool) -> (res: Result<
        Vec<Action>,
        LiquidError,
    >)
        ensures
            final(self)@ == old(self)@.deliver(message@, from_coordinator).0,
            match res {
                Ok(actions) => old(self)@.deliver(message@, from_coordinator).1 == Ok::<
                    Seq<ActionView>,
                    LiquidError,
                >(actions_view(actions@)),
                Err(e) => old(self)@.deliver(message@, from_coordinator).1 == Err::<
                    Seq<ActionView>,
                    LiquidError,
                >(e),
            },
            old(self)@.inv() ==> final(self)@.inv(),
    {
        match Client::recv_msg(message, from_coordinator) {
            Ok(Inbound::Store { sender, body }) => {
                let actions = self.kv.handle(sender, body);
                Ok(actions)
            },
            Ok(Inbound::Blob(bytes)) => {
                self.blobs.push(bytes);
                let actions: Vec<Action> = Vec::new();
                assert(blobs_view(self.blobs@) =~= blobs_view(old(self).blobs@).push(bytes@));
                assert(actions_view(actions@) =~= Seq::empty());
                Ok(actions)
            },
            Ok(Inbound::Terminate) => {
                self.killed = true;
                let actions: Vec<Action> = Vec::new();
                assert(actions_view(actions@) =~= Seq::empty());
                Ok(actions)
            },
            Err(e) => Err(e),
        }
    }

    /// Takes the oldest blob that came in, if there is one.
    pub fn recv_blob(&mut self) -> (res: Option<Vec<u8>>)
        ensures
            match res {
                Some(bytes) => old(self)@.blobs.len() > 0 && bytes@ == old(self)@.blobs[0]
                    && final(self)@ == (ApplicationView {
                    blobs: old(self)@.blobs.drop_first(),
                    ..old(self)@
                }),
                None => old(self)@.blobs.len() == 0 && *final(self) == *old(self),
            },
    {
        if self.blobs.len() == 0 {
            return None;
        }
        let bytes = self.blobs.remove(0);
        assert(blobs_view(self.blobs@) =~= blobs_view(old(self).blobs@).drop_first());
        Some(bytes)
    }

    /// Stamps `bytes` as a blob for the node `target`.
    pub fn send_blob(&mut self, target: u64, bytes: Vec<u8>) -> (res: Result<Message, LiquidError>)
        requires
            old(self)@.client.msg_id < u64::MAX,
        ensures
            match res {
                Ok(m) => {
                    &&& crate::network::client::knows(old(self)@.client.directory, target)
                    &&& m@ == old(self)@.client.stamp(target, BodyView::Blob { bytes: bytes@ })
                    &&& final(self)@ == (ApplicationView {
                        client: old(self)@.client.sent(),
                        ..old(self)@
                    })
                },
                Err(e) => {
                    &&& e == LiquidError::UnknownId
                    &&& !crate::network::client::knows(old(self)@.client.directory, target)
                    &&& *final(self) == *old(self)
                },
            },
    {
        self.client.send_msg(target, Body::Blob { bytes })
    }

    /// The share of a file of `file_len` bytes that this node loads when
    /// the file is split over `num_nodes` nodes: where the share starts, and
    /// its length before it is extended to the end of its last line.
    pub fn from_sor(&self, file_len: u64, num_nodes: u64) -> (res: (u64, u64))
        requires
            1 <= self@.client.id <= num_nodes,
        ensures
            (res.0 as int, res.1 as int) == chunk_of(file_len, num_nodes, self@.client.id),
            res.0 + res.1 <= file_len,
    {
        chunk_bounds(file_len, num_nodes, self.client.id())
    }

    /// Whether the run of this application is over, given whether the
    /// user's task is done: the node stays up until `Kill` has come.
    pub fn run(&self, task_done: bool) -> (over: bool)
        ensures
            over == self@.run_is_over(task_done),
    {
        task_done && self.killed
    }

    /// The part of this node in a distributed map over `num_nodes` nodes.
    pub fn pmap(&self, num_nodes: u64) -> (plan: ReducePlan)
        requires
            self@.client.id >= 1,
        ensures
            plan == reduce_plan(self@.client.id, num_nodes),
    {
        let node_id = self.client.id();
        if node_id == num_nodes {
            ReducePlan { receives: false, sends_to: Some(node_id - 1) }
        } else if node_id != 1 {
            ReducePlan { receives: true, sends_to: Some(node_id - 1) }
        } else {
            ReducePlan { receives: true, sends_to: None }
        }
    }
}

/// A blob that came in is handed out once, after those that came before it.
pub proof fn blob_is_handed_out_once(app: ApplicationView, message: MessageView, link: bool)
    requires
        message.body is Blob,
    ensures
        ({
            let (next, res) = app.deliver(message, link);
            &&& res == Ok::<Seq<ActionView>, LiquidError>(Seq::empty())
            &&& next.blobs.len() == app.blobs.len() + 1
            &&& next.blobs.last() == message.body->Blob_bytes
            &&& next.blobs.drop_last() == app.blobs
            &&& next.kv == app.kv
            &&& next.client == app.client
        }),
{
    let next = app.deliver(message, link).0;
    assert(next.blobs.drop_last() =~= app.blobs);
}

/// A message of a kind that its link may not carry is refused, and the
/// node stays as it was: its directory, its store and its other links.
pub proof fn violation_changes_nothing(app: ApplicationView, message: MessageView, link: bool)
    requires
        route(message, link) is Err,
    ensures
        app.deliver(message, link) == (
            app,
            Err::<Seq<ActionView>, LiquidError>(LiquidError::ProtocolViolation),
        ),
{
}

} // verus!
