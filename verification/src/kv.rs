//! The key-value store of one node, as a state machine.
//!
//! A key names its home node. Values of local keys live in `data`; values
//! fetched from other nodes are kept in `cache`. A reader that has to wait
//! leaves a waiter behind: a local one carries the ticket under which the
//! caller parked, a remote one the node that asked. Every operation returns
//! the actions that the caller has to perform: tickets to wake with a value,
//! and bodies to send to a peer.

use vstd::prelude::*;
use vstd::slice::slice_to_vec;
use crate::error::LiquidError;
use crate::network::message::{Body, BodyView};

verus! {

/// A name together with the node on which the value lives.
#[derive(Debug, Clone, PartialEq, Eq)]
pub struct Key {
    pub name: String,
    pub home: u64,
}

/// The mathematical value of a [`Key`].
pub struct KeyView {
    pub name: Seq<char>,
    pub home: u64,
}

impl View for Key {
    type V = KeyView;

    open spec fn view(&self) -> KeyView {
        KeyView { name: self.name@, home: self.home }
    }
}

impl Key {
    pub fn new(name: &str, home: u64) -> (key: Key)
        ensures
            key@ == (KeyView { name: name@, home }),
    {
        Key { name: name.to_owned(), home }
    }

    /// Keys are equal when both the name and the home are.
    pub fn same(&self, other: &Key) -> (res: bool)
        ensures
            res == (self@ == other@),
    {
        let res = self.home == other.home && self.name == other.name;
        assert(res == (self@ == other@));
        res
    }

    /// A copy of this key.
    pub fn duplicate(&self) -> (key: Key)
        ensures
            key@ == self@,
    {
        Key { name: self.name.clone(), home: self.home }
    }
}

/// Who waits for a value.
#[derive(Debug, Clone, Copy, PartialEq, Eq, Structural)]
pub enum Requester {
    /// A caller on this node, parked under a ticket.
    Local(u64),
    /// The node whose `Get` is still unanswered.
    Remote(u64),
}

/// One parked reader.
#[derive(Debug, Clone, PartialEq, Eq)]
pub struct Waiter {
    pub key: Key,
    pub who: Requester,
}

pub struct WaiterView {
    pub key: KeyView,
    pub who: Requester,
}

impl View for Waiter {
    type V = WaiterView;

    open spec fn view(&self) -> WaiterView {
        WaiterView { key: self.key@, who: self.who }
    }
}

/// What the caller has to do after an operation.
#[derive(Debug, Clone, PartialEq, Eq)]
pub enum Action {
    /// Wake the local reader that parked under `ticket`, with `value`.
    Deliver { ticket: u64, value: Vec<u8> },
    /// Send `body` to the node `target`.
    Send { target: u64, body: Body },
}

pub enum ActionView {
    Deliver { ticket: u64, value: Seq<u8> },
    Send { target: u64, body: BodyView },
}

impl View for Action {
    type V = ActionView;

    open spec fn view(&self) -> ActionView {
        match *self {
            Action::Deliver { ticket, value } => ActionView::Deliver { ticket, value: value@ },
            Action::Send { target, body } => ActionView::Send { target, body: body@ },
        }
    }
}

/// How a `wait_and_get` went.
#[derive(Debug, Clone, PartialEq, Eq)]
pub enum Wait {
    /// The value is here.
    Ready(Vec<u8>),
    /// The caller is parked under its ticket; nothing is to be sent.
    Parked,
    /// The caller is parked, and `body` has to be sent to `target`.
    Requested { target: u64, body: Body },
}

pub enum WaitView {
    Ready(Seq<u8>),
    Parked,
    Requested { target: u64, body: BodyView },
}

impl View for Wait {
    type V = WaitView;

    open spec fn view(&self) -> WaitView {
        match *self {
            Wait::Ready(value) => WaitView::Ready(value@),
            Wait::Parked => WaitView::Parked,
            Wait::Requested { target, body } => WaitView::Requested { target, body: body@ },
        }
    }
}

pub open spec fn actions_view(a: Seq<Action>) -> Seq<ActionView> {
    Seq::new(a.len(), |i: int| a[i]@)
}

pub open spec fn waiters_view(w: Seq<Waiter>) -> Seq<WaiterView> {
    Seq::new(w.len(), |i: int| w[i]@)
}

/// The `Value` body that carries `value` under `key`.
pub open spec fn value_body(key: KeyView, value: Seq<u8>) -> BodyView {
    BodyView::Value { key_name: key.name, home: key.home, bytes: value }
}

/// The `Get` body that asks for `key`.
pub open spec fn get_body(key: KeyView) -> BodyView {
    BodyView::Get { key_name: key.name, home: key.home }
}

/// What a waiter is owed once the value is there.
pub open spec fn answer(w: WaiterView, value: Seq<u8>) -> ActionView {
    match w.who {
        Requester::Local(ticket) => ActionView::Deliver { ticket, value },
        Requester::Remote(node) => ActionView::Send {
            target: node,
            body: value_body(w.key, value),
        },
    }
}

/// The answers to the waiters on `key`, in the order in which they came.
pub open spec fn release(ws: Seq<WaiterView>, key: KeyView, value: Seq<u8>) -> Seq<ActionView>
    decreases ws.len(),
{
    if ws.len() == 0 {
        Seq::empty()
    } else if ws.last().key == key {
        release(ws.drop_last(), key, value).push(answer(ws.last(), value))
    } else {
        release(ws.drop_last(), key, value)
    }
}

/// The waiters on other keys than `key`, in their order.
pub open spec fn keep(ws: Seq<WaiterView>, key: KeyView) -> Seq<WaiterView>
    decreases ws.len(),
{
    if ws.len() == 0 {
        Seq::empty()
    } else if ws.last().key == key {
        keep(ws.drop_last(), key)
    } else {
        keep(ws.drop_last(), key).push(ws.last())
    }
}

/// Some waiter waits on `key`.
pub open spec fn awaited(ws: Seq<WaiterView>, key: KeyView) -> bool {
    exists|i: int| 0 <= i < ws.len() && (#[trigger] ws[i]).key == key
}

/// The mathematical value of a [`KVStore`].
pub struct StoreView {
    pub id: u64,
    pub data: Map<KeyView, Seq<u8>>,
    pub cache: Map<KeyView, Seq<u8>>,
    pub waiting: Seq<WaiterView>,
}

impl StoreView {
    /// What holds of every store: `data` holds local keys only and `cache`
    /// remote ones; nobody waits on a value that is already here; and only
    /// local readers wait on remote keys.
    pub open spec fn inv(self) -> bool {
        &&& forall|k: KeyView| #[trigger] self.data.contains_key(k) ==> k.home == self.id
        &&& forall|k: KeyView| #[trigger] self.cache.contains_key(k) ==> k.home != self.id
        &&& forall|i: int|
            0 <= i < self.waiting.len() ==> {
                let w = #[trigger] self.waiting[i];
                if w.key.home == self.id {
                    !self.data.contains_key(w.key)
                } else {
                    w.who is Local && !self.cache.contains_key(w.key)
                }
            }
    }

    /// A `Get` for the remote key `key` is in flight.
    pub open spec fn pending(self, key: KeyView) -> bool {
        key.home != self.id && awaited(self.waiting, key)
    }

    /// The store with `value` under `key` in `data`, and the waiters on
    /// `key` released.
    pub open spec fn filled(self, key: KeyView, value: Seq<u8>) -> StoreView {
        StoreView {
            data: self.data.insert(key, value),
            waiting: keep(self.waiting, key),
            ..self
        }
    }

    pub open spec fn put(self, key: KeyView, value: Seq<u8>) -> (
        StoreView,
        Result<Seq<ActionView>, LiquidError>,
    ) {
        if key.home != self.id {
            (self, Ok(seq![ActionView::Send { target: key.home, body: value_body(key, value) }]))
        } else if self.data.contains_key(key) {
            (self, Err(LiquidError::KeyAlreadyPresent))
        } else {
            (self.filled(key, value), Ok(release(self.waiting, key, value)))
        }
    }

    pub open spec fn get(self, key: KeyView) -> Result<Seq<u8>, LiquidError> {
        if key.home == self.id && self.data.contains_key(key) {
            Ok(self.data[key])
        } else {
            Err(LiquidError::NotPresent)
        }
    }

    /// The store with one more local waiter.
    pub open spec fn parked(self, key: KeyView, ticket: u64) -> StoreView {
        StoreView {
            waiting: self.waiting.push(WaiterView { key, who: Requester::Local(ticket) }),
            ..self
        }
    }

    pub open spec fn wait_and_get(self, key: KeyView, ticket: u64) -> (StoreView, WaitView) {
        if key.home == self.id {
            if self.data.contains_key(key) {
                (self, WaitView::Ready(self.data[key]))
            } else {
                (self.parked(key, ticket), WaitView::Parked)
            }
        } else if self.cache.contains_key(key) {
            (self, WaitView::Ready(self.cache[key]))
        } else if self.pending(key) {
            (self.parked(key, ticket), WaitView::Parked)
        } else {
            (
                self.parked(key, ticket),
                WaitView::Requested { target: key.home, body: get_body(key) },
            )
        }
    }

    /// What an inbound frame from `sender` does to the store.
    pub open spec fn handle(self, sender: u64, body: BodyView) -> (StoreView, Seq<ActionView>) {
        match body {
            BodyView::Get { key_name, home } => {
                let key = KeyView { name: key_name, home };
                if home != self.id {
                    (self, Seq::empty())
                } else if self.data.contains_key(key) {
                    (
                        self,
                        seq![
                            ActionView::Send {
                                target: sender,
                                body: value_body(key, self.data[key]),
                            },
                        ],
                    )
                } else {
                    (
                        StoreView {
                            waiting: self.waiting.push(
                                WaiterView { key, who: Requester::Remote(sender) },
                            ),
                            ..self
                        },
                        Seq::empty(),
                    )
                }
            },
            BodyView::Value { key_name, home, bytes } => {
                let key = KeyView { name: key_name, home };
                if self.pending(key) {
                    (
                        StoreView {
                            cache: self.cache.insert(key, bytes),
                            waiting: keep(self.waiting, key),
                            ..self
                        },
                        release(self.waiting, key, bytes),
                    )
                } else if home == self.id && !self.data.contains_key(key) {
                    (self.filled(key, bytes), release(self.waiting, key, bytes))
                } else {
                    (self, Seq::empty())
                }
            },
            _ => (self, Seq::empty()),
        }
    }
}

/// Every waiter that stays waited before, on another key than `key`.
pub proof fn keep_members(ws: Seq<WaiterView>, key: KeyView)
    ensures
        forall|j: int|
            0 <= j < keep(ws, key).len() ==> (#[trigger] keep(ws, key)[j]).key != key
                && ws.contains(keep(ws, key)[j]),
    decreases ws.len(),
{
    if ws.len() > 0 {
        keep_members(ws.drop_last(), key);
        let k = keep(ws, key);
        assert forall|j: int| 0 <= j < k.len() implies (#[trigger] k[j]).key != key && ws.contains(
            k[j],
        ) by {
            if j < keep(ws.drop_last(), key).len() {
                let w = keep(ws.drop_last(), key)[j];
                assert(ws.drop_last().contains(w));
                let i = choose|i: int| 0 <= i < ws.drop_last().len() && ws.drop_last()[i] == w;
                assert(ws[i] == w);
            } else {
                assert(k[j] == ws[ws.len() - 1]);
            }
        }
    }
}

/// Where nobody holds the ticket, no answer is delivered to it.
pub proof fn release_skips_strangers(
    ws: Seq<WaiterView>,
    key: KeyView,
    value: Seq<u8>,
    ticket: u64,
)
    requires
        forall|i: int| 0 <= i < ws.len() ==> (#[trigger] ws[i]).who != Requester::Local(ticket),
    ensures
        forall|j: int|
            0 <= j < release(ws, key, value).len() ==> !(#[trigger] release(ws, key, value)[j]
                matches ActionView::Deliver { ticket: t, .. } && t == ticket),
    decreases ws.len(),
{
    if ws.len() > 0 {
        let front = ws.drop_last();
        assert forall|i: int| 0 <= i < front.len() implies (#[trigger] front[i]).who
            != Requester::Local(ticket) by {
            assert(front[i] == ws[i]);
        }
        release_skips_strangers(front, key, value, ticket);
        assert(ws[ws.len() - 1].who != Requester::Local(ticket));
    }
}

/// `put` keeps a store valid.
pub proof fn put_keeps_inv(s: StoreView, key: KeyView, value: Seq<u8>)
    requires
        s.inv(),
    ensures
        s.put(key, value).0.inv(),
{
    keep_members(s.waiting, key);
    let t = s.put(key, value).0;
    assert forall|i: int| 0 <= i < t.waiting.len() implies {
        let w = #[trigger] t.waiting[i];
        if w.key.home == t.id {
            !t.data.contains_key(w.key)
        } else {
            w.who is Local && !t.cache.contains_key(w.key)
        }
    } by {
        if t != s {
            let w = t.waiting[i];
            assert(s.waiting.contains(w));
            let j = choose|j: int| 0 <= j < s.waiting.len() && s.waiting[j] == w;
            assert(s.waiting[j] == w);
        }
    }
}

/// `wait_and_get` keeps a store valid.
pub proof fn wait_and_get_keeps_inv(s: StoreView, key: KeyView, ticket: u64)
    requires
        s.inv(),
    ensures
        s.wait_and_get(key, ticket).0.inv(),
{
    let t = s.wait_and_get(key, ticket).0;
    assert forall|i: int| 0 <= i < t.waiting.len() implies {
        let w = #[trigger] t.waiting[i];
        if w.key.home == t.id {
            !t.data.contains_key(w.key)
        } else {
            w.who is Local && !t.cache.contains_key(w.key)
        }
    } by {
        if t != s && i < s.waiting.len() {
            assert(t.waiting[i] == s.waiting[i]);
        }
    }
}

/// Handling an inbound frame keeps a store valid.
pub proof fn handle_keeps_inv(s: StoreView, sender: u64, body: BodyView)
    requires
        s.inv(),
    ensures
        s.handle(sender, body).0.inv(),
{
    let t = s.handle(sender, body).0;
    match body {
        BodyView::Get { key_name, home } => {
            assert forall|i: int| 0 <= i < t.waiting.len() implies {
                let w = #[trigger] t.waiting[i];
                if w.key.home == t.id {
                    !t.data.contains_key(w.key)
                } else {
                    w.who is Local && !t.cache.contains_key(w.key)
                }
            } by {
                if t != s && i < s.waiting.len() {
                    assert(t.waiting[i] == s.waiting[i]);
                }
            }
        },
        BodyView::Value { key_name, home, bytes } => {
            let key = KeyView { name: key_name, home };
            keep_members(s.waiting, key);
            assert forall|i: int| 0 <= i < t.waiting.len() implies {
                let w = #[trigger] t.waiting[i];
                if w.key.home == t.id {
                    !t.data.contains_key(w.key)
                } else {
                    w.who is Local && !t.cache.contains_key(w.key)
                }
            } by {
                if t != s {
                    let w = t.waiting[i];
                    assert(s.waiting.contains(w));
                    let j = choose|j: int| 0 <= j < s.waiting.len() && s.waiting[j] == w;
                    assert(s.waiting[j] == w);
                }
            }
        },
        _ => {},
    }
}

/// A value under its key.
#[derive(Debug, Clone, PartialEq, Eq)]
pub struct Slot {
    pub key: Key,
    pub value: Vec<u8>,
}

/// The map that a list of slots stands for: a later slot hides an earlier
/// one under the same key.
pub open spec fn to_map(s: Seq<Slot>) -> Map<KeyView, Seq<u8>>
    decreases s.len(),
{
    if s.len() == 0 {
        Map::empty()
    } else {
        to_map(s.drop_last()).insert(s.last().key@, s.last().value@)
    }
}

proof fn to_map_found(s: Seq<Slot>, k: KeyView, i: int)
    requires
        0 <= i < s.len(),
        s[i].key@ == k,
        forall|j: int| i < j < s.len() ==> (#[trigger] s[j]).key@ != k,
    ensures
        to_map(s).contains_key(k),
        to_map(s)[k] == s[i].value@,
    decreases s.len(),
{
    if i < s.len() - 1 {
        assert(s[s.len() - 1].key@ != k);
        assert forall|j: int| i < j < s.drop_last().len() implies (#[trigger] s.drop_last()[j]).key@
            != k by {
            assert(s.drop_last()[j] == s[j]);
        }
        to_map_found(s.drop_last(), k, i);
    }
}

proof fn to_map_absent(s: Seq<Slot>, k: KeyView)
    requires
        forall|j: int| 0 <= j < s.len() ==> (#[trigger] s[j]).key@ != k,
    ensures
        !to_map(s).contains_key(k),
    decreases s.len(),
{
    if s.len() > 0 {
        assert(s[s.len() - 1].key@ != k);
        assert forall|j: int| 0 <= j < s.drop_last().len() implies (#[trigger] s.drop_last()[j]).key@
            != k by {
            assert(s.drop_last()[j] == s[j]);
        }
        to_map_absent(s.drop_last(), k);
    }
}

fn lookup(slots: &Vec<Slot>, key: &Key) -> (res: Option<Vec<u8>>)
    ensures
        match res {
            Some(v) => to_map(slots@).contains_key(key@) && to_map(slots@)[key@] == v@,
            None => !to_map(slots@).contains_key(key@),
        },
{
    let mut i: usize = slots.len();
    while i > 0
        invariant
            i <= slots@.len(),
            forall|j: int| i <= j < slots@.len() ==> (#[trigger] slots@[j]).key@ != key@,
        decreases i,
    {
        i -= 1;
        if slots[i].key.same(key) {
            proof {
                to_map_found(slots@, key@, i as int);
            }
            return Some(slice_to_vec(slots[i].value.as_slice()));
        }
    }
    proof {
        to_map_absent(slots@, key@);
    }
    None
}

fn store(slots: &mut Vec<Slot>, key: Key, value: Vec<u8>)
    ensures
        to_map(final(slots)@) == to_map(old(slots)@).insert(key@, value@),
{
    slots.push(Slot { key, value });
    assert(slots@.drop_last() =~= old(slots)@);
}

/// The key-value store of one node.
#[derive(Debug)]
pub struct KVStore {
    id: u64,
    data: Vec<Slot>,
    cache: Vec<Slot>,
    waiting: Vec<Waiter>,
}

impl View for KVStore {
    type V = StoreView;

    closed spec fn view(&self) -> StoreView {
        StoreView {
            id: self.id,
            data: to_map(self.data@),
            cache: to_map(self.cache@),
            waiting: waiters_view(self.waiting@),
        }
    }
}

impl KVStore {
    /// The empty store of the node `id`.
    pub fn new(id: u64) -> (store: KVStore)
        ensures
            store@ == (StoreView {
                id,
                data: Map::empty(),
                cache: Map::empty(),
                waiting: Seq::empty(),
            }),
            store@.inv(),
    {
        let store = KVStore { id, data: Vec::new(), cache: Vec::new(), waiting: Vec::new() };
        assert(waiters_view(store.waiting@) =~= Seq::empty());
        store
    }

    /// The id of the node that this store belongs to.
    pub fn id(&self) -> (id: u64)
        ensures
            id == self@.id,
    {
        self.id
    }

    /// The number of readers that are parked.
    pub fn waiting_len(&self) -> (n: usize)
        ensures
            n == self@.waiting.len(),
    {
        self.waiting.len()
    }

    /// The value that was fetched for a remote key, if one was.
    pub fn cached(&self, key: &Key) -> (res: Option<Vec<u8>>)
        ensures
            match res {
                Some(v) => self@.cache.contains_key(key@) && self@.cache[key@] == v@,
                None => !self@.cache.contains_key(key@),
            },
    {
        lookup(&self.cache, key)
    }

    fn is_awaited(&self, key: &Key) -> (res: bool)
        ensures
            res == awaited(self@.waiting, key@),
    {
        let mut i: usize = 0;
        while i < self.waiting.len()
            invariant
                i <= self.waiting@.len(),
                forall|j: int| 0 <= j < i ==> (#[trigger] self@.waiting[j]).key != key@,
            decreases self.waiting@.len() - i,
        {
            if self.waiting[i].key.same(key) {
                assert(self@.waiting[i as int].key == key@);
                return true;
            }
            i += 1;
        }
        false
    }

    fn park(&mut self, key: &Key, who: Requester)
        ensures
            final(self)@ == (StoreView {
                waiting: old(self)@.waiting.push(WaiterView { key: key@, who }),
                ..old(self)@
            }),
    {
        self.waiting.push(Waiter { key: key.duplicate(), who });
        assert(waiters_view(self.waiting@) =~= waiters_view(old(self).waiting@).push(
            WaiterView { key: key@, who },
        ));
    }

    /// Takes the waiters on `key` out and answers each with `value`.
    fn release_waiters(&mut self, key: &Key, value: &Vec<u8>) -> (out: Vec<Action>)
        ensures
            final(self)@ == (StoreView { waiting: keep(old(self)@.waiting, key@), ..old(self)@ }),
            actions_view(out@) == release(old(self)@.waiting, key@, value@),
    {
        let ghost ws = self@.waiting;
        let mut kept: Vec<Waiter> = Vec::new();
        let mut out: Vec<Action> = Vec::new();
        let mut i: usize = 0;
        assert(waiters_view(kept@) =~= keep(ws.take(0), key@));
        assert(actions_view(out@) =~= release(ws.take(0), key@, value@));
        while i < self.waiting.len()
            invariant
                i <= self.waiting@.len(),
                *self == *old(self),
                ws == self@.waiting,
                waiters_view(kept@) == keep(ws.take(i as int), key@),
                actions_view(out@) == release(ws.take(i as int), key@, value@),
            decreases self.waiting@.len() - i,
        {
            let ghost kept_before = waiters_view(kept@);
            let ghost out_before = actions_view(out@);
            proof {
                assert(ws.take(i + 1).drop_last() =~= ws.take(i as int));
                assert(ws.take(i + 1).last() == self.waiting@[i as int]@);
            }
            let w = &self.waiting[i];
            if w.key.same(key) {
                let bytes = slice_to_vec(value.as_slice());
                let action = match w.who {
                    Requester::Local(ticket) => Action::Deliver { ticket, value: bytes },
                    Requester::Remote(node) => Action::Send {
                        target: node,
                        body: Body::Value {
                            key_name: w.key.name.clone(),
                            home: w.key.home,
                            bytes,
                        },
                    },
                };
                assert(action@ == answer(w@, value@));
                out.push(action);
                assert(actions_view(out@) =~= out_before.push(answer(w@, value@)));
            } else {
                kept.push(Waiter { key: w.key.duplicate(), who: w.who });
                assert(waiters_view(kept@) =~= kept_before.push(w@));
            }
            i += 1;
        }
        assert(ws.take(i as int) =~= ws);
        self.waiting = kept;
        out
    }

    /// Publishes `value` under `key`. On the key's home the value is stored
    /// and the waiters on it are answered; a second value for a key is
    /// refused. For a key of another node the value is sent to its home.
    pub fn put(&mut self, key: &Key, value: Vec<u8>) -> (res: Result<Vec<Action>, LiquidError>)
        ensures
            final(self)@ == old(self)@.put(key@, value@).0,
            match res {
                Ok(actions) => old(self)@.put(key@, value@).1 == Ok::<
                    Seq<ActionView>,
                    LiquidError,
                >(actions_view(actions@)),
                Err(e) => old(self)@.put(key@, value@).1 == Err::<Seq<ActionView>, LiquidError>(e),
            },
            old(self)@.inv() ==> final(self)@.inv(),
    {
        proof {
            if self@.inv() {
                put_keeps_inv(self@, key@, value@);
            }
        }
        if key.home != self.id {
            let mut actions: Vec<Action> = Vec::new();
            actions.push(
                Action::Send {
                    target: key.home,
                    body: Body::Value { key_name: key.name.clone(), home: key.home, bytes: value },
                },
            );
            assert(actions_view(actions@) =~= seq![
                ActionView::Send { target: key@.home, body: value_body(key@, value@) },
            ]);
            return Ok(actions);
        }
        if lookup(&self.data, key).is_some() {
            return Err(LiquidError::KeyAlreadyPresent);
        }
        let actions = self.release_waiters(key, &value);
        store(&mut self.data, key.duplicate(), value);
        Ok(actions)
    }

    /// Reads a local value without waiting: only a key whose home is this
    /// node and whose slot is filled has one.
    pub fn get(&self, key: &Key) -> (res: Result<Vec<u8>, LiquidError>)
        ensures
            match res {
                Ok(v) => self@.get(key@) == Ok::<Seq<u8>, LiquidError>(v@),
                Err(e) => self@.get(key@) == Err::<Seq<u8>, LiquidError>(e),
            },
    {
        if key.home != self.id {
            return Err(LiquidError::NotPresent);
        }
        match lookup(&self.data, key) {
            Some(v) => Ok(v),
            None => Err(LiquidError::NotPresent),
        }
    }

    /// Reads a value, or parks the caller under `ticket` until it comes.
    pub fn wait_and_get(&mut self, key: &Key, ticket: u64) -> (res: Wait)
        ensures
            final(self)@ == old(self)@.wait_and_get(key@, ticket).0,
            res@ == old(self)@.wait_and_get(key@, ticket).1,
            old(self)@.inv() ==> final(self)@.inv(),
    {
        proof {
            if self@.inv() {
                wait_and_get_keeps_inv(self@, key@, ticket);
            }
        }
        let here = if key.home == self.id {
            lookup(&self.data, key)
        } else {
            lookup(&self.cache, key)
        };
        match here {
            Some(v) => Wait::Ready(v),
            None => {
                let ask = key.home != self.id && !self.is_awaited(key);
                self.park(key, Requester::Local(ticket));
                if ask {
                    Wait::Requested {
                        target: key.home,
                        body: Body::Get { key_name: key.name.clone(), home: key.home },
                    }
                } else {
                    Wait::Parked
                }
            },
        }
    }

    /// Wraps `bytes` for the blob channel of the node `target`.
    pub fn send_blob(&self, target: u64, bytes: Vec<u8>) -> (action: Action)
        ensures
            action@ == (ActionView::Send { target, body: BodyView::Blob { bytes: bytes@ } }),
    {
        Action::Send { target, body: Body::Blob { bytes } }
    }

    /// Handles a frame of the store's inbound stream that came from `sender`.
    pub fn handle(&mut self, sender: u64, body: Body) -> (actions: Vec<Action>)
        ensures
            final(self)@ == old(self)@.handle(sender, body@).0,
            actions_view(actions@) == old(self)@.handle(sender, body@).1,
            old(self)@.inv() ==> final(self)@.inv(),
    {
        proof {
            if self@.inv() {
                handle_keeps_inv(self@, sender, body@);
            }
        }
        let mut actions: Vec<Action> = Vec::new();
        assert(actions_view(actions@) =~= Seq::empty());
        match body {
            Body::Get { key_name, home } => {
                let key = Key { name: key_name, home };
                if home == self.id {
                    match lookup(&self.data, &key) {
                        Some(v) => {
                            actions.push(
                                Action::Send {
                                    target: sender,
                                    body: Body::Value { key_name: key.name, home, bytes: v },
                                },
                            );
                            assert(actions_view(actions@) =~= old(self)@.handle(sender, body@).1);
                        },
                        None => {
                            self.park(&key, Requester::Remote(sender));
                        },
                    }
                }
                actions
            },
            Body::Value { key_name, home, bytes } => {
                let key = Key { name: key_name, home };
                if home != self.id && self.is_awaited(&key) {
                    let released = self.release_waiters(&key, &bytes);
                    store(&mut self.cache, key, bytes);
                    released
                } else if home == self.id && lookup(&self.data, &key).is_none() {
                    let released = self.release_waiters(&key, &bytes);
                    store(&mut self.data, key, bytes);
                    released
                } else {
                    actions
                }
            },
            _ => actions,
        }
    }
}

/// A value that was put on its home node is read there at once.
pub proof fn put_then_wait_and_get_at_home(
    home: StoreView,
    key: KeyView,
    value: Seq<u8>,
    ticket: u64,
)
    requires
        key.home == home.id,
        home.put(key, value).1 is Ok,
    ensures
        home.put(key, value).0.wait_and_get(key, ticket) == (
            home.put(key, value).0,
            WaitView::Ready(value),
        ),
        home.put(key, value).0.get(key) == Ok::<Seq<u8>, LiquidError>(value),
{
}

/// A value that was put on its home node reaches a reader on any other
/// node that holds no value for the key yet: the reader asks the home, or
/// joins a request that is already on its way; the home answers a request
/// with the value; and the answer wakes the reader with it and fills the
/// reader's cache.
pub proof fn put_then_wait_and_get_elsewhere(
    home: StoreView,
    other: StoreView,
    key: KeyView,
    value: Seq<u8>,
    ticket: u64,
)
    requires
        key.home == home.id,
        other.id != home.id,
        home.put(key, value).1 is Ok,
        !other.cache.contains_key(key),
    ensures
        ({
            let home1 = home.put(key, value).0;
            let (other1, asked) = other.wait_and_get(key, ticket);
            let (home2, sent) = home1.handle(other.id, get_body(key));
            let (other2, woken) = other1.handle(home.id, value_body(key, value));
            &&& asked == if other.pending(key) {
                WaitView::Parked
            } else {
                WaitView::Requested { target: home.id, body: get_body(key) }
            }
            &&& home2 == home1
            &&& sent == seq![ActionView::Send { target: other.id, body: value_body(key, value) }]
            &&& woken.len() > 0
            &&& woken.last() == ActionView::Deliver { ticket, value }
            &&& other2.wait_and_get(key, ticket) == (other2, WaitView::Ready(value))
        }),
{
    let other1 = other.wait_and_get(key, ticket).0;
    assert(other1.waiting.drop_last() =~= other.waiting);
    assert(other1.waiting[other1.waiting.len() - 1].key == key);
}

/// No answer in `actions` wakes `ticket`.
pub open spec fn silent_for(actions: Seq<ActionView>, ticket: u64) -> bool {
    forall|j: int|
        0 <= j < actions.len() ==> !(#[trigger] actions[j] matches ActionView::Deliver {
            ticket: t,
            ..
        } && t == ticket)
}

/// The ticket is held by no waiter.
pub open spec fn fresh(ws: Seq<WaiterView>, ticket: u64) -> bool {
    forall|i: int| 0 <= i < ws.len() ==> (#[trigger] ws[i]).who != Requester::Local(ticket)
}

/// A reader that waits on the home node before the value is put is woken
/// by the put, with the value, exactly once; and nobody waits on the key
/// afterwards.
pub proof fn wait_and_get_then_put_at_home(
    home: StoreView,
    key: KeyView,
    value: Seq<u8>,
    ticket: u64,
)
    requires
        key.home == home.id,
        !home.data.contains_key(key),
        fresh(home.waiting, ticket),
    ensures
        ({
            let (home1, parked) = home.wait_and_get(key, ticket);
            let (home2, res) = home1.put(key, value);
            &&& parked == WaitView::Parked
            &&& res is Ok
            &&& res->Ok_0.len() > 0
            &&& res->Ok_0.last() == ActionView::Deliver { ticket, value }
            &&& silent_for(res->Ok_0.drop_last(), ticket)
            &&& !awaited(home2.waiting, key)
            &&& home2.wait_and_get(key, ticket) == (home2, WaitView::Ready(value))
        }),
{
    let home1 = home.wait_and_get(key, ticket).0;
    assert(home1.waiting.drop_last() =~= home.waiting);
    release_skips_strangers(home.waiting, key, value, ticket);
    assert(release(home1.waiting, key, value).drop_last() =~= release(home.waiting, key, value));
    keep_members(home1.waiting, key);
}

/// A reader on another node that waits before the value is put on the home
/// node gets it all the same: the home parks the request, the put answers
/// it, and the answer wakes the reader with the value, exactly once.
pub proof fn wait_and_get_then_put_elsewhere(
    home: StoreView,
    other: StoreView,
    key: KeyView,
    value: Seq<u8>,
    ticket: u64,
)
    requires
        key.home == home.id,
        other.id != home.id,
        !home.data.contains_key(key),
        !other.cache.contains_key(key),
        fresh(other.waiting, ticket),
    ensures
        ({
            let (other1, asked) = other.wait_and_get(key, ticket);
            let (home1, none) = home.handle(other.id, get_body(key));
            let (home2, res) = home1.put(key, value);
            let (other2, woken) = other1.handle(home.id, value_body(key, value));
            &&& asked == if other.pending(key) {
                WaitView::Parked
            } else {
                WaitView::Requested { target: home.id, body: get_body(key) }
            }
            &&& none == Seq::<ActionView>::empty()
            &&& res is Ok
            &&& res->Ok_0.len() > 0
            &&& res->Ok_0.last() == ActionView::Send {
                target: other.id,
                body: value_body(key, value),
            }
            &&& woken.len() > 0
            &&& woken.last() == ActionView::Deliver { ticket, value }
            &&& silent_for(woken.drop_last(), ticket)
            &&& !awaited(other2.waiting, key)
            &&& other2.wait_and_get(key, ticket) == (other2, WaitView::Ready(value))
        }),
{
    let other1 = other.wait_and_get(key, ticket).0;
    let home1 = home.handle(other.id, get_body(key)).0;
    assert(other1.waiting.drop_last() =~= other.waiting);
    assert(home1.waiting.drop_last() =~= home.waiting);
    assert(other1.waiting[other1.waiting.len() - 1].key == key);
    release_skips_strangers(other.waiting, key, value, ticket);
    assert(release(other1.waiting, key, value).drop_last() =~= release(other.waiting, key, value));
    keep_members(other1.waiting, key);
}

/// A second value for a key is refused and changes nothing: the first one
/// stays.
pub proof fn second_put_is_refused(s: StoreView, key: KeyView, first: Seq<u8>, second: Seq<u8>)
    requires
        key.home == s.id,
        s.put(key, first).1 is Ok,
    ensures
        s.put(key, first).0.put(key, second) == (
            s.put(key, first).0,
            Err::<Seq<ActionView>, LiquidError>(LiquidError::KeyAlreadyPresent),
        ),
        s.put(key, first).0.get(key) == Ok::<Seq<u8>, LiquidError>(first),
{
}

/// A value that a node puts under a key of another node reaches the home
/// node's `data`, where the readers find it.
pub proof fn put_from_elsewhere(home: StoreView, other: StoreView, key: KeyView, value: Seq<u8>)
    requires
        key.home == home.id,
        other.id != home.id,
        !home.data.contains_key(key),
    ensures
        other.put(key, value) == (
            other,
            Ok::<Seq<ActionView>, LiquidError>(
                seq![ActionView::Send { target: home.id, body: value_body(key, value) }],
            ),
        ),
        home.handle(other.id, value_body(key, value)).0.get(key) == Ok::<Seq<u8>, LiquidError>(
            value,
        ),
{
}

} // verus!
