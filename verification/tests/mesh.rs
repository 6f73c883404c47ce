use liquid_ml::error::LiquidError;
use liquid_ml::network::client::{Client, Inbound};
use liquid_ml::network::codec::MessageCodec;
use liquid_ml::network::message::{Body, Message};
use liquid_ml::network::server::{broadcast_outcome, Server};

fn intro(address: &str, network: &str) -> Message {
    Message::new(
        0,
        0,
        0,
        Body::Introduction { address: address.to_string(), network_name: network.to_string() },
    )
}

fn over_the_wire(m: Message) -> Message {
    let codec = MessageCodec::new();
    let frame = codec.encode(&m).unwrap();
    codec.decode(&frame).unwrap().unwrap().0
}

#[test]
fn new_server_is_empty() {
    let server = Server::new("127.0.0.1:9000");
    assert_eq!(server.address(), "127.0.0.1:9000");
    assert_eq!(server.msg_id(), 0);
    assert_eq!(server.registered(), 0);
    assert_eq!(server.members(&"main".to_string()), vec![]);
}

#[test]
fn ids_are_assigned_from_one_up() {
    let mut server = Server::new("127.0.0.1:9000");
    let (id1, reply1) = server.accept_new_connections(&intro("a:1", "main")).unwrap();
    let (id2, reply2) = server.accept_new_connections(&intro("a:2", "main")).unwrap();
    let (id3, reply3) = server.accept_new_connections(&intro("a:3", "main")).unwrap();
    assert_eq!((id1, id2, id3), (1, 2, 3));
    assert_eq!(reply1, Message::new(0, 0, 1, Body::Directory { dir: vec![] }));
    assert_eq!(reply2, Message::new(1, 0, 2, Body::Directory { dir: vec![(1, "a:1".to_string())] }));
    assert_eq!(
        reply3,
        Message::new(
            2,
            0,
            3,
            Body::Directory { dir: vec![(1, "a:1".to_string()), (2, "a:2".to_string())] }
        )
    );
    assert_eq!(server.msg_id(), 3);
    assert_eq!(server.registered(), 3);
}

#[test]
fn networks_have_id_spaces_of_their_own() {
    let mut server = Server::new("127.0.0.1:9000");
    assert_eq!(server.accept_new_connections(&intro("a:1", "red")).unwrap().0, 1);
    assert_eq!(server.accept_new_connections(&intro("b:1", "blue")).unwrap().0, 1);
    assert_eq!(server.accept_new_connections(&intro("a:2", "red")).unwrap().0, 2);
    let (id, reply) = server.accept_new_connections(&intro("b:2", "blue")).unwrap();
    assert_eq!(id, 2);
    assert_eq!(reply.body, Body::Directory { dir: vec![(1, "b:1".to_string())] });
    assert_eq!(
        server.members(&"red".to_string()),
        vec![(1, "a:1".to_string()), (2, "a:2".to_string())]
    );
}

#[test]
fn first_message_must_be_an_introduction() {
    let mut server = Server::new("127.0.0.1:9000");
    let get = Message::new(0, 1, 0, Body::Get { key_name: "k".to_string(), home: 1 });
    assert_eq!(server.accept_new_connections(&get), Err(LiquidError::UnexpectedMessage));
    assert_eq!(server.accept_new_connections(&Message::new(0, 1, 0, Body::Kill)), Err(LiquidError::UnexpectedMessage));
    assert_eq!(server.registered(), 0);
    assert_eq!(server.msg_id(), 0);
    assert_eq!(server.accept_new_connections(&intro("a:1", "main")).unwrap().0, 1);
}

#[test]
fn server_send_msg_stamps_and_counts() {
    let mut server = Server::new("127.0.0.1:9000");
    server.accept_new_connections(&intro("a:1", "main")).unwrap();
    let name = "main".to_string();
    assert_eq!(server.send_msg(1, &name, Body::Kill), Ok(Message::new(1, 0, 1, Body::Kill)));
    assert_eq!(server.msg_id(), 2);
    assert_eq!(server.send_msg(2, &name, Body::Kill), Err(LiquidError::UnknownId));
    assert_eq!(server.send_msg(0, &name, Body::Kill), Err(LiquidError::UnknownId));
    assert_eq!(server.send_msg(1, &"none".to_string(), Body::Kill), Err(LiquidError::UnknownId));
    assert_eq!(server.msg_id(), 2);
}

#[test]
fn broadcast_reaches_every_member_of_the_network() {
    let mut server = Server::new("127.0.0.1:9000");
    server.accept_new_connections(&intro("a:1", "red")).unwrap();
    server.accept_new_connections(&intro("b:1", "blue")).unwrap();
    server.accept_new_connections(&intro("a:2", "red")).unwrap();
    let out = server.broadcast(&Body::Kill, &"red".to_string());
    assert_eq!(out, vec![Message::new(3, 0, 1, Body::Kill), Message::new(4, 0, 2, Body::Kill)]);
    assert_eq!(server.msg_id(), 5);
    assert_eq!(server.broadcast(&Body::Kill, &"green".to_string()), vec![]);
    assert_eq!(server.msg_id(), 5);
    for m in out {
        assert_eq!(Client::recv_msg(over_the_wire(m), true), Ok(Inbound::Terminate));
    }
}

#[test]
fn broadcast_reports_the_first_failure_after_all_attempts() {
    assert_eq!(broadcast_outcome(&vec![]), Ok(()));
    assert_eq!(broadcast_outcome(&vec![Ok(()), Ok(())]), Ok(()));
    assert_eq!(
        broadcast_outcome(&vec![Ok(()), Err(LiquidError::IoFailure), Err(LiquidError::UnknownId)]),
        Err(LiquidError::IoFailure)
    );
}

#[test]
fn client_learns_its_id_from_the_reply() {
    let reply = Message::new(4, 0, 3, Body::Directory { dir: vec![(1, "a:1".to_string())] });
    let (client, peers) = Client::new("a:3", "main", 3, reply).unwrap();
    assert_eq!(client.id(), 3);
    assert_eq!(client.msg_id(), 5);
    assert_eq!(client.address(), "a:3");
    assert_eq!(client.num_peers(), 0);
    assert_eq!(peers, vec![(1, "a:1".to_string())]);
    assert!(!client.is_ready());
}

#[test]
fn client_refuses_a_reply_that_is_no_directory() {
    let reply = Message::new(4, 0, 3, Body::Kill);
    assert_eq!(Client::new("a:3", "main", 3, reply).err(), Some(LiquidError::UnexpectedMessage));
    let reply = Message::new(u64::MAX, 0, 3, Body::Directory { dir: vec![] });
    assert_eq!(Client::new("a:3", "main", 3, reply).err(), Some(LiquidError::ProtocolViolation));
}

#[test]
fn connect_enters_the_peer_and_gives_the_hello() {
    let reply = Message::new(1, 0, 2, Body::Directory { dir: vec![(1, "a:1".to_string())] });
    let (mut client, peers) = Client::new("a:2", "main", 2, reply).unwrap();
    let hello = client.connect(peers[0].clone()).unwrap();
    assert_eq!(
        hello,
        Message::new(
            2,
            2,
            1,
            Body::Introduction { address: "a:2".to_string(), network_name: "main".to_string() }
        )
    );
    assert!(client.is_linked(1));
    assert!(!client.is_linked(2));
    assert_eq!(client.msg_id(), 3);
    assert!(client.is_ready());
    assert_eq!(client.connect((1, "a:1".to_string())), Err(LiquidError::ReconnectionError));
    assert_eq!(client.num_peers(), 1);
    assert_eq!(client.msg_id(), 3);
}

#[test]
fn second_hello_of_a_node_is_refused() {
    let reply = Message::new(0, 0, 1, Body::Directory { dir: vec![] });
    let (mut client, _) = Client::new("a:1", "main", 2, reply).unwrap();
    let hello = Message::new(
        2,
        2,
        1,
        Body::Introduction { address: "a:2".to_string(), network_name: "main".to_string() },
    );
    assert_eq!(client.accept_new_connections(&hello), Ok(2));
    assert_eq!(client.accept_new_connections(&hello), Err(LiquidError::ReconnectionError));
    assert_eq!(client.num_peers(), 1);
    assert!(client.is_ready());
}

#[test]
fn protocol_violation_fails_fast() {
    let reply = Message::new(0, 0, 1, Body::Directory { dir: vec![] });
    let (mut client, _) = Client::new("a:1", "main", 3, reply).unwrap();
    let hello = Message::new(
        2,
        2,
        1,
        Body::Introduction { address: "a:2".to_string(), network_name: "main".to_string() },
    );
    client.accept_new_connections(&hello).unwrap();
    let get = over_the_wire(Message::new(0, 3, 1, Body::Get { key_name: "k".to_string(), home: 1 }));
    assert_eq!(client.accept_new_connections(&get), Err(LiquidError::ProtocolViolation));
    assert_eq!(client.num_peers(), 1);
    assert!(client.is_linked(2));
    assert!(!client.is_linked(3));
    assert_eq!(
        client.send_msg(2, Body::Blob { bytes: vec![1] }),
        Ok(Message::new(1, 1, 2, Body::Blob { bytes: vec![1] }))
    );
}

#[test]
fn client_send_msg_needs_a_known_target() {
    let reply = Message::new(0, 0, 1, Body::Directory { dir: vec![] });
    let (mut client, _) = Client::new("a:1", "main", 2, reply).unwrap();
    assert_eq!(client.send_msg(2, Body::Kill), Err(LiquidError::UnknownId));
    assert_eq!(client.msg_id(), 1);
}

#[test]
fn inbound_messages_are_routed_by_kind() {
    let get = Body::Get { key_name: "k".to_string(), home: 1 };
    let value = Body::Value { key_name: "k".to_string(), home: 1, bytes: vec![1] };
    for link in [false, true] {
        assert_eq!(
            Client::recv_msg(Message::new(0, 2, 1, get.duplicate()), link),
            Ok(Inbound::Store { sender: 2, body: get.duplicate() })
        );
        assert_eq!(
            Client::recv_msg(Message::new(0, 2, 1, value.duplicate()), link),
            Ok(Inbound::Store { sender: 2, body: value.duplicate() })
        );
        assert_eq!(
            Client::recv_msg(Message::new(0, 2, 1, Body::Blob { bytes: vec![7] }), link),
            Ok(Inbound::Blob(vec![7]))
        );
        assert_eq!(
            Client::recv_msg(Message::new(0, 2, 1, Body::Directory { dir: vec![] }), link),
            Err(LiquidError::ProtocolViolation)
        );
        assert_eq!(
            Client::recv_msg(
                Message::new(
                    0,
                    2,
                    1,
                    Body::Introduction { address: "a".to_string(), network_name: "n".to_string() }
                ),
                link
            ),
            Err(LiquidError::ProtocolViolation)
        );
    }
    assert_eq!(Client::recv_msg(Message::new(0, 0, 1, Body::Kill), true), Ok(Inbound::Terminate));
    assert_eq!(
        Client::recv_msg(Message::new(0, 2, 1, Body::Kill), false),
        Err(LiquidError::ProtocolViolation)
    );
}

#[test]
fn full_mesh_bootstrap() {
    let n: usize = 4;
    let mut server = Server::new("127.0.0.1:9000");
    let mut clients: Vec<Client> = Vec::new();
    for k in 1..=n {
        let address = format!("127.0.0.1:{}", 9000 + k);
        let (id, reply) = server.accept_new_connections(&over_the_wire(intro(&address, "main"))).unwrap();
        assert_eq!(id, k as u64);
        let (mut client, peers) = Client::new(&address, "main", n, over_the_wire(reply)).unwrap();
        assert_eq!(client.id(), k as u64);
        assert_eq!(peers.len(), k - 1);
        for peer in peers {
            let target = peer.0 as usize;
            let hello = client.connect(peer).unwrap();
            assert_eq!(clients[target - 1].accept_new_connections(&over_the_wire(hello)), Ok(k as u64));
        }
        clients.push(client);
    }
    for (i, client) in clients.iter().enumerate() {
        assert!(client.is_ready());
        assert_eq!(client.num_peers(), n - 1);
        for j in 1..=n {
            assert_eq!(client.is_linked(j as u64), j != i + 1);
        }
    }
}
