//! The coordinator: it hands out node ids, tells each newcomer who is
//! already there, and stamps the messages that it sends.

use vstd::prelude::*;
use crate::error::LiquidError;
use crate::network::message::{dir_view, Body, BodyView, Message, MessageView, COORDINATOR_ID};

verus! {

/// One registration: the network that a node joined, and where it listens.
#[derive(Debug, Clone, PartialEq, Eq)]
pub struct Registration {
    pub network_name: String,
    pub address: String,
}

pub struct RegistrationView {
    pub network_name: Seq<char>,
    pub address: Seq<char>,
}

impl View for Registration {
    type V = RegistrationView;

    open spec fn view(&self) -> RegistrationView {
        RegistrationView { network_name: self.network_name@, address: self.address@ }
    }
}

pub open spec fn log_view(log: Seq<Registration>) -> Seq<RegistrationView> {
    Seq::new(log.len(), |i: int| log[i]@)
}

/// The addresses of the nodes of the network `name`, in the order in which
/// they registered: the node with the id `i + 1` stands at index `i`.
pub open spec fn members_of(log: Seq<RegistrationView>, name: Seq<char>) -> Seq<Seq<char>>
    decreases log.len(),
{
    if log.len() == 0 {
        Seq::empty()
    } else if log.last().network_name == name {
        members_of(log.drop_last(), name).push(log.last().address)
    } else {
        members_of(log.drop_last(), name)
    }
}

/// The directory listing of the given members: each with its id.
pub open spec fn listing(members: Seq<Seq<char>>) -> Seq<(u64, Seq<char>)> {
    Seq::new(members.len(), |i: int| ((i + 1) as u64, members[i]))
}

/// The id that the registration at index `k` of the log was given.
pub open spec fn assigned_id(log: Seq<RegistrationView>, k: int) -> int {
    (members_of(log.take(k), log[k].network_name).len() + 1) as int
}

/// The ids that were given out in the network `name`.
pub open spec fn ids_of(log: Seq<RegistrationView>, name: Seq<char>) -> Set<int> {
    Set::new(
        |id: int|
            exists|k: int|
                0 <= k < log.len() && (#[trigger] log[k]).network_name == name && assigned_id(
                    log,
                    k,
                ) == id,
    )
}

/// The ids given out in one network are exactly 1, 2, and so on up to the
/// number of its members: none is skipped and none is given twice.
pub proof fn ids_are_dense(log: Seq<RegistrationView>, name: Seq<char>)
    ensures
        ids_of(log, name) == Set::new(|id: int| 1 <= id <= members_of(log, name).len()),
        forall|j: int, k: int|
            0 <= j < k < log.len() && log[j].network_name == name && log[k].network_name
                == name ==> assigned_id(log, j) < assigned_id(log, k),
    decreases log.len(),
{
    let full = Set::new(|id: int| 1 <= id <= members_of(log, name).len());
    if log.len() == 0 {
        assert(ids_of(log, name) =~= full);
    } else {
        let front = log.drop_last();
        let n = front.len() as int;
        ids_are_dense(front, name);
        assert(log.take(n) =~= front);
        assert forall|k: int| 0 <= k < n implies assigned_id(log, k) == assigned_id(front, k) by {
            assert(log.take(k) =~= front.take(k));
            assert(log[k] == front[k]);
        }
        assert forall|id: int| ids_of(log, name).contains(id) <==> full.contains(id) by {
            if ids_of(log, name).contains(id) {
                let k = choose|k: int|
                    0 <= k < log.len() && (#[trigger] log[k]).network_name == name && assigned_id(
                        log,
                        k,
                    ) == id;
                if k < n {
                    assert(front[k].network_name == name);
                    assert(ids_of(front, name).contains(id));
                }
            }
            if full.contains(id) {
                if log.last().network_name == name && id == members_of(log, name).len() {
                    assert(log[n].network_name == name && assigned_id(log, n) == id);
                } else {
                    assert(ids_of(front, name).contains(id));
                    let k = choose|k: int|
                        0 <= k < front.len() && (#[trigger] front[k]).network_name == name
                            && assigned_id(front, k) == id;
                    assert(log[k].network_name == name && assigned_id(log, k) == id);
                }
            }
        }
        assert(ids_of(log, name) =~= full);
        assert forall|j: int, k: int|
            0 <= j < k < log.len() && log[j].network_name == name && log[k].network_name
                == name implies assigned_id(log, j) < assigned_id(log, k) by {
            if k == n {
                assert(front[j].network_name == name);
                assert(ids_of(front, name).contains(assigned_id(front, j)));
            } else {
                assert(front[j].network_name == name && front[k].network_name == name);
            }
        }
    }
}

pub open spec fn messages_view(ms: Seq<Message>) -> Seq<MessageView> {
    Seq::new(ms.len(), |i: int| ms[i]@)
}

/// The registration server of a cluster.
#[derive(Debug)]
pub struct Server {
    address: String,
    msg_id: u64,
    directory: Vec<Registration>,
}

/// The mathematical value of a [`Server`].
pub struct ServerView {
    pub address: Seq<char>,
    pub msg_id: u64,
    pub log: Seq<RegistrationView>,
}

impl ServerView {
    pub open spec fn members(self, name: Seq<char>) -> Seq<Seq<char>> {
        members_of(self.log, name)
    }

    /// The messages of a broadcast of `body` in the network `name`: one for
    /// each member, in the order of the ids.
    pub open spec fn broadcast(self, name: Seq<char>, body: BodyView) -> Seq<MessageView> {
        Seq::new(
            self.members(name).len(),
            |i: int|
                MessageView {
                    msg_id: (self.msg_id + i) as u64,
                    sender: COORDINATOR_ID,
                    target: (i + 1) as u64,
                    body,
                },
        )
    }

    /// The message that the coordinator sends next, to `target`.
    pub open spec fn stamp(self, target: u64, body: BodyView) -> MessageView {
        MessageView { msg_id: self.msg_id, sender: COORDINATOR_ID, target, body }
    }
}

impl View for Server {
    type V = ServerView;

    closed spec fn view(&self) -> ServerView {
        ServerView { address: self.address@, msg_id: self.msg_id, log: log_view(self.directory@) }
    }
}

impl Server {
    /// A server for the given listening address, with nobody registered.
    pub fn new(address: &str) -> (server: Server)
        ensures
            server@ == (ServerView { address: address@, msg_id: 0, log: Seq::empty() }),
    {
        let server = Server { address: address.to_owned(), msg_id: 0, directory: Vec::new() };
        assert(log_view(server.directory@) =~= Seq::empty());
        server
    }

    pub fn address(&self) -> (res: &String)
        ensures
            res@ == self@.address,
    {
        &self.address
    }

    /// The number of registrations so far, over all networks.
    pub fn registered(&self) -> (n: usize)
        ensures
            n == self@.log.len(),
    {
        self.directory.len()
    }

    /// The id that the next message of this server carries.
    pub fn msg_id(&self) -> (id: u64)
        ensures
            id == self@.msg_id,
    {
        self.msg_id
    }

    /// The members of the network `name`, each with its id.
    pub fn members(&self, name: &String) -> (dir: Vec<(u64, String)>)
        ensures
            dir_view(dir@) == listing(self@.members(name@)),
            dir@.len() == self@.members(name@).len(),
            dir@.len() <= self@.log.len(),
    {
        let ghost log = self@.log;
        let mut dir: Vec<(u64, String)> = Vec::new();
        let mut i: usize = 0;
        assert(log.take(0) =~= Seq::empty());
        assert(dir_view(dir@) =~= listing(members_of(log.take(0), name@)));
        while i < self.directory.len()
            invariant
                i <= self.directory@.len(),
                log == self@.log,
                dir@.len() == members_of(log.take(i as int), name@).len(),
                dir@.len() <= i,
                dir_view(dir@) == listing(members_of(log.take(i as int), name@)),
            decreases self.directory@.len() - i,
        {
            let ghost before = dir_view(dir@);
            proof {
                assert(log.take(i + 1).drop_last() =~= log.take(i as int));
                assert(log.take(i + 1).last() == self.directory@[i as int]@);
            }
            if self.directory[i].network_name == *name {
                let id: u64 = dir.len() as u64 + 1;
                let address = self.directory[i].address.clone();
                dir.push((id, address));
                proof {
                    let m_old = members_of(log.take(i as int), name@);
                    let m_new = members_of(log.take(i + 1), name@);
                    assert(m_new == m_old.push(address@));
                    assert(dir_view(dir@) =~= before.push((id, address@)));
                    assert(listing(m_new) =~= listing(m_old).push((id, address@)));
                }
            }
            i += 1;
        }
        assert(log.take(i as int) =~= log);
        dir
    }

    /// Takes the first message of a link that a node opened. An introduction
    /// gets the next id of its network and, as the reply to send, the
    /// directory of those that registered before; any other first message is
    /// refused and changes nothing.
    pub fn accept_new_connections(&mut self, first: &Message) -> (res: Result<(u64, Message), LiquidError>)
        requires
            old(self)@.msg_id < u64::MAX,
            old(self)@.log.len() < u64::MAX,
        ensures
            match first@.body {
                BodyView::Introduction { address, network_name } => {
                    let before = old(self)@.members(network_name);
                    &&& res is Ok
                    &&& res->Ok_0.0 == before.len() + 1
                    &&& res->Ok_0.0 == assigned_id(final(self)@.log, old(self)@.log.len() as int)
                    &&& res->Ok_0.1@ == old(self)@.stamp(
                        res->Ok_0.0,
                        BodyView::Directory { dir: listing(before) },
                    )
                    &&& final(self)@ == (ServerView {
                        msg_id: (old(self)@.msg_id + 1) as u64,
                        log: old(self)@.log.push(RegistrationView { network_name, address }),
                        ..old(self)@
                    })
                    &&& final(self)@.members(network_name) == before.push(address)
                },
                _ => res == Err::<(u64, Message), LiquidError>(LiquidError::UnexpectedMessage)
                    && *final(self) == *old(self),
            },
    {
        match &first.body {
            Body::Introduction { address, network_name } => {
                let dir = self.members(network_name);
                let target_id: u64 = dir.len() as u64 + 1;
                let reply = Message::new(
                    self.msg_id,
                    COORDINATOR_ID,
                    target_id,
                    Body::Directory { dir },
                );
                self.directory.push(
                    Registration { network_name: network_name.clone(), address: address.clone() },
                );
                self.msg_id = self.msg_id + 1;
                proof {
                    let entry = RegistrationView { network_name: network_name@, address: address@ };
                    assert(log_view(self.directory@) =~= old(self)@.log.push(entry));
                    assert(old(self)@.log.push(entry).drop_last() =~= old(self)@.log);
                    assert(old(self)@.log.push(entry).take(old(self)@.log.len() as int)
                        =~= old(self)@.log);
                }
                Ok((target_id, reply))
            },
            _ => Err(LiquidError::UnexpectedMessage),
        }
    }

    /// Stamps `body` as the next message to the node `target_id` of the
    /// network `network_name`. A node that never registered there is unknown.
    pub fn send_msg(&mut self, target_id: u64, network_name: &String, body: Body) -> (res: Result<
        Message,
        LiquidError,
    >)
        requires
            old(self)@.msg_id < u64::MAX,
        ensures
            match res {
                Ok(m) => {
                    &&& 1 <= target_id <= old(self)@.members(network_name@).len()
                    &&& m@ == old(self)@.stamp(target_id, body@)
                    &&& final(self)@ == (ServerView {
                        msg_id: (old(self)@.msg_id + 1) as u64,
                        ..old(self)@
                    })
                },
                Err(e) => {
                    &&& e == LiquidError::UnknownId
                    &&& !(1 <= target_id <= old(self)@.members(network_name@).len())
                    &&& *final(self) == *old(self)
                },
            },
    {
        let n = self.members(network_name).len();
        if target_id == 0 || target_id > n as u64 {
            return Err(LiquidError::UnknownId);
        }
        let m = Message::new(self.msg_id, COORDINATOR_ID, target_id, body);
        self.msg_id = self.msg_id + 1;
        Ok(m)
    }

    /// Stamps one copy of `body` for every node of the network
    /// `network_name`, in the order of their ids.
    pub fn broadcast(&mut self, body: &Body, network_name: &String) -> (out: Vec<Message>)
        requires
            old(self)@.msg_id + old(self)@.members(network_name@).len() <= u64::MAX,
        ensures
            messages_view(out@) == old(self)@.broadcast(network_name@, body@),
            final(self)@ == (ServerView {
                msg_id: (old(self)@.msg_id + out@.len()) as u64,
                ..old(self)@
            }),
    {
        let n = self.members(network_name).len();
        let mut out: Vec<Message> = Vec::new();
        let mut i: usize = 0;
        while i < n
            invariant
                i <= n,
                n == old(self)@.members(network_name@).len(),
                old(self)@.msg_id + n <= u64::MAX,
                out@.len() == i,
                self@ == (ServerView { msg_id: (old(self)@.msg_id + i) as u64, ..old(self)@ }),
                forall|j: int|
                    0 <= j < i ==> (#[trigger] out@[j])@ == (MessageView {
                        msg_id: (old(self)@.msg_id + j) as u64,
                        sender: COORDINATOR_ID,
                        target: (j + 1) as u64,
                        body: body@,
                    }),
            decreases n - i,
        {
            let m = Message::new(self.msg_id, COORDINATOR_ID, (i + 1) as u64, body.duplicate());
            out.push(m);
            self.msg_id = self.msg_id + 1;
            i += 1;
        }
        assert(messages_view(out@) =~= old(self)@.broadcast(network_name@, body@));
        out
    }
}

/// What a broadcast reports once every send was tried: the first failure,
/// if any send failed.
pub fn broadcast_outcome(results: &Vec<Result<(), LiquidError>>) -> (res: Result<(), LiquidError>)
    ensures
        res is Ok <==> forall|i: int| 0 <= i < results@.len() ==> results@[i] is Ok,
        res is Err ==> exists|i: int|
            0 <= i < results@.len() && results@[i] == res && forall|j: int|
                0 <= j < i ==> results@[j] is Ok,
{
    let mut i: usize = 0;
    while i < results.len()
        invariant
            i <= results@.len(),
            forall|j: int| 0 <= j < i ==> results@[j] is Ok,
        decreases results@.len() - i,
    {
        match results[i] {
            Ok(_) => {},
            Err(e) => {
                assert(results@[i as int] == Err::<(), LiquidError>(e));
                return Err(e);
            },
        }
        i += 1;
    }
    Ok(())
}

} // verus!
