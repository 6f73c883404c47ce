use liquid_ml::error::LiquidError;
use liquid_ml::kv::{Action, KVStore, Key, Wait};
use liquid_ml::network::message::Body;

fn value_body(name: &str, home: u64, bytes: &[u8]) -> Body {
    Body::Value { key_name: name.to_string(), home, bytes: bytes.to_vec() }
}

fn get_body(name: &str, home: u64) -> Body {
    Body::Get { key_name: name.to_string(), home }
}

#[test]
fn keys_compare_by_name_and_home() {
    let a = Key::new("k", 1);
    assert!(a.same(&Key::new("k", 1)));
    assert!(!a.same(&Key::new("k", 2)));
    assert!(!a.same(&Key::new("j", 1)));
    assert_eq!(a.duplicate(), a);
    assert_eq!(a.name, "k");
    assert_eq!(a.home, 1);
}

#[test]
fn local_put_then_get() {
    let mut kv = KVStore::new(1);
    assert_eq!(kv.id(), 1);
    let key = Key::new("main", 1);
    assert_eq!(kv.get(&key), Err(LiquidError::NotPresent));
    assert_eq!(kv.put(&key, vec![1, 2, 3]), Ok(vec![]));
    assert_eq!(kv.get(&key), Ok(vec![1, 2, 3]));
    assert_eq!(kv.wait_and_get(&key, 0), Wait::Ready(vec![1, 2, 3]));
    assert_eq!(kv.waiting_len(), 0);
}

#[test]
fn same_name_other_home_is_another_key() {
    let mut kv = KVStore::new(1);
    kv.put(&Key::new("k", 1), vec![1]).unwrap();
    assert_eq!(kv.get(&Key::new("k", 2)), Err(LiquidError::NotPresent));
    assert_eq!(kv.get(&Key::new("j", 1)), Err(LiquidError::NotPresent));
}

#[test]
fn duplicate_put_rejection() {
    let mut kv = KVStore::new(1);
    let key = Key::new("k", 1);
    assert_eq!(kv.put(&key, vec![0x00]), Ok(vec![]));
    assert_eq!(kv.put(&key, vec![0x01]), Err(LiquidError::KeyAlreadyPresent));
    assert_eq!(kv.wait_and_get(&key, 1), Wait::Ready(vec![0x00]));
    assert_eq!(kv.get(&key), Ok(vec![0x00]));
}

#[test]
fn get_does_not_read_the_cache() {
    let mut kv = KVStore::new(2);
    let key = Key::new("x", 1);
    assert_eq!(
        kv.wait_and_get(&key, 7),
        Wait::Requested { target: 1, body: get_body("x", 1) }
    );
    assert_eq!(
        kv.handle(1, value_body("x", 1, &[5])),
        vec![Action::Deliver { ticket: 7, value: vec![5] }]
    );
    assert_eq!(kv.cached(&key), Some(vec![5]));
    assert_eq!(kv.get(&key), Err(LiquidError::NotPresent));
    assert_eq!(kv.wait_and_get(&key, 8), Wait::Ready(vec![5]));
}

#[test]
fn local_waiter_is_woken_by_put() {
    let mut kv = KVStore::new(1);
    let key = Key::new("late", 1);
    assert_eq!(kv.wait_and_get(&key, 11), Wait::Parked);
    assert_eq!(kv.wait_and_get(&Key::new("other", 1), 12), Wait::Parked);
    assert_eq!(kv.wait_and_get(&key, 13), Wait::Parked);
    assert_eq!(kv.waiting_len(), 3);
    assert_eq!(
        kv.put(&key, vec![9]),
        Ok(vec![
            Action::Deliver { ticket: 11, value: vec![9] },
            Action::Deliver { ticket: 13, value: vec![9] },
        ])
    );
    assert_eq!(kv.waiting_len(), 1);
    assert_eq!(
        kv.put(&Key::new("other", 1), vec![8]),
        Ok(vec![Action::Deliver { ticket: 12, value: vec![8] }])
    );
    assert_eq!(kv.waiting_len(), 0);
}

#[test]
fn deferred_producer() {
    let mut node1 = KVStore::new(1);
    let mut node2 = KVStore::new(2);
    let key = Key::new("x", 1);
    let asked = node2.wait_and_get(&key, 1);
    assert_eq!(asked, Wait::Requested { target: 1, body: get_body("x", 1) });
    // The request reaches the home before the producer ran: it is parked.
    assert_eq!(node1.handle(2, get_body("x", 1)), vec![]);
    assert_eq!(node1.waiting_len(), 1);
    let sent = node1.put(&key, vec![0xde, 0xad, 0xbe, 0xef]).unwrap();
    assert_eq!(
        sent,
        vec![Action::Send { target: 2, body: value_body("x", 1, &[0xde, 0xad, 0xbe, 0xef]) }]
    );
    assert_eq!(node1.waiting_len(), 0);
    let woken = node2.handle(1, value_body("x", 1, &[0xde, 0xad, 0xbe, 0xef]));
    assert_eq!(woken, vec![Action::Deliver { ticket: 1, value: vec![0xde, 0xad, 0xbe, 0xef] }]);
    assert_eq!(node2.waiting_len(), 0);
    // A second copy of the answer wakes nobody.
    assert_eq!(node2.handle(1, value_body("x", 1, &[0xde, 0xad, 0xbe, 0xef])), vec![]);
}

#[test]
fn cross_home_put() {
    let mut node1 = KVStore::new(1);
    let mut node2 = KVStore::new(2);
    let key = Key::new("y", 1);
    let sent = node2.put(&key, vec![0x01]).unwrap();
    assert_eq!(sent, vec![Action::Send { target: 1, body: value_body("y", 1, &[0x01]) }]);
    assert_eq!(node2.get(&key), Err(LiquidError::NotPresent));
    assert_eq!(node1.handle(2, value_body("y", 1, &[0x01])), vec![]);
    assert_eq!(node1.wait_and_get(&key, 1), Wait::Ready(vec![0x01]));
}

#[test]
fn cross_home_put_wakes_a_parked_reader() {
    let mut node1 = KVStore::new(1);
    let key = Key::new("y", 1);
    assert_eq!(node1.wait_and_get(&key, 4), Wait::Parked);
    assert_eq!(
        node1.handle(2, value_body("y", 1, &[0x01])),
        vec![Action::Deliver { ticket: 4, value: vec![0x01] }]
    );
    // The slot is filled: a later value for it is dropped.
    assert_eq!(node1.handle(3, value_body("y", 1, &[0x02])), vec![]);
    assert_eq!(node1.get(&key), Ok(vec![0x01]));
}

#[test]
fn remote_get_of_a_present_key_is_answered_at_once() {
    let mut node1 = KVStore::new(1);
    node1.put(&Key::new("main", 1), vec![1, 2]).unwrap();
    assert_eq!(
        node1.handle(3, get_body("main", 1)),
        vec![Action::Send { target: 3, body: value_body("main", 1, &[1, 2]) }]
    );
    assert_eq!(node1.waiting_len(), 0);
}

#[test]
fn frames_that_are_not_for_this_store_are_dropped() {
    let mut node1 = KVStore::new(1);
    assert_eq!(node1.handle(2, get_body("k", 3)), vec![]);
    assert_eq!(node1.handle(2, value_body("k", 3, &[1])), vec![]);
    assert_eq!(node1.handle(2, Body::Kill), vec![]);
    assert_eq!(node1.handle(2, Body::Blob { bytes: vec![1] }), vec![]);
    assert_eq!(node1.waiting_len(), 0);
    assert_eq!(node1.cached(&Key::new("k", 3)), None);
}

#[test]
fn readers_of_one_remote_key_share_one_request() {
    let mut node2 = KVStore::new(2);
    let key = Key::new("x", 1);
    assert_eq!(
        node2.wait_and_get(&key, 1),
        Wait::Requested { target: 1, body: get_body("x", 1) }
    );
    assert_eq!(node2.wait_and_get(&key, 2), Wait::Parked);
    assert_eq!(
        node2.handle(1, value_body("x", 1, &[3])),
        vec![
            Action::Deliver { ticket: 1, value: vec![3] },
            Action::Deliver { ticket: 2, value: vec![3] },
        ]
    );
}

#[test]
fn send_blob_wraps_the_bytes() {
    let kv = KVStore::new(1);
    assert_eq!(
        kv.send_blob(2, vec![0xaa, 0xbb]),
        Action::Send { target: 2, body: Body::Blob { bytes: vec![0xaa, 0xbb] } }
    );
}

fn sum_bytes(total: u64) -> Vec<u8> {
    total.to_le_bytes().to_vec()
}

#[test]
fn three_node_sum_check() {
    let mut node1 = KVStore::new(1);
    let mut node2 = KVStore::new(2);
    let mut node3 = KVStore::new(3);
    let main = Key::new("main", 1);
    let ck = Key::new("ck", 1);
    let verif = Key::new("verif", 1);

    let column: Vec<u8> = (0..100_000u64).flat_map(|x| x.to_le_bytes()).collect();
    let total: u64 = (0..100_000u64).sum();
    assert_eq!(total, 4_999_950_000);
    assert_eq!(node1.put(&main, column.clone()), Ok(vec![]));
    assert_eq!(node1.put(&ck, sum_bytes(total)), Ok(vec![]));

    // Node 2 fetches the column, folds it and puts the result on node 1.
    assert_eq!(
        node2.wait_and_get(&main, 1),
        Wait::Requested { target: 1, body: get_body("main", 1) }
    );
    let answer = node1.handle(2, get_body("main", 1));
    assert_eq!(answer.len(), 1);
    let body = match &answer[0] {
        Action::Send { target: 2, body } => body.duplicate(),
        other => panic!("unexpected action {:?}", other),
    };
    let woken = node2.handle(1, body);
    let fetched = match &woken[..] {
        [Action::Deliver { ticket: 1, value }] => value.clone(),
        other => panic!("unexpected actions {:?}", other),
    };
    let folded: u64 =
        fetched.chunks(8).map(|c| u64::from_le_bytes([c[0], c[1], c[2], c[3], c[4], c[5], c[6], c[7]])).sum();
    let sent = node2.put(&verif, sum_bytes(folded)).unwrap();
    assert_eq!(sent, vec![Action::Send { target: 1, body: value_body("verif", 1, &sum_bytes(total)) }]);
    assert_eq!(node1.handle(2, value_body("verif", 1, &sum_bytes(folded))), vec![]);

    // Node 3 reads both sums from node 1.
    let mut seen: Vec<Vec<u8>> = Vec::new();
    for (ticket, key) in [(1u64, &ck), (2u64, &verif)] {
        let asked = node3.wait_and_get(key, ticket);
        let body = match asked {
            Wait::Requested { target: 1, body } => body,
            other => panic!("unexpected outcome {:?}", other),
        };
        let answer = node1.handle(3, body);
        let body = match &answer[..] {
            [Action::Send { target: 3, body }] => body.duplicate(),
            other => panic!("unexpected actions {:?}", other),
        };
        match &node3.handle(1, body)[..] {
            [Action::Deliver { ticket: t, value }] => {
                assert_eq!(*t, ticket);
                seen.push(value.clone());
            }
            other => panic!("unexpected actions {:?}", other),
        }
    }
    assert_eq!(seen[0], seen[1]);
    assert_eq!(seen[0], sum_bytes(4_999_950_000));
}
