use wireguard_conf::{add_peer, delete_peer, update_peer, Interface, Peer, PeerError, WgConfig};

fn peer(key: &str, name: &str) -> Peer {
    Peer {
        public_key: key.to_string(),
        allowed_ips: "10.0.0.2/32".to_string(),
        persistent_keepalive: None,
        endpoint: None,
        name: Some(name.to_string()),
    }
}

fn config(peers: Vec<Peer>) -> WgConfig {
    WgConfig {
        name: "wg0".to_string(),
        path: "/etc/wireguard/wg0.conf".to_string(),
        interface: Interface {
            private_key: "k".to_string(),
            address: "10.0.0.1/24".to_string(),
            listen_port: 51820,
            dns: None,
            post_up: None,
            post_down: None,
        },
        peers,
    }
}

#[test]
fn update_replaces_the_first_match_only() {
    let mut c = config(vec![peer("1", "A"), peer("2", "B"), peer("1", "A2")]);
    let r = update_peer(&mut c, "1", peer("9", "X"));
    assert_eq!(r, Ok(()));
    assert_eq!(c.peers, vec![peer("9", "X"), peer("2", "B"), peer("1", "A2")]);
}

#[test]
fn update_keeps_the_position() {
    let mut c = config(vec![peer("1", "A"), peer("2", "B"), peer("3", "C")]);
    assert_eq!(update_peer(&mut c, "2", peer("2", "B2")), Ok(()));
    assert_eq!(c.peers, vec![peer("1", "A"), peer("2", "B2"), peer("3", "C")]);
    assert_eq!(update_peer(&mut c, "3", peer("4", "D")), Ok(()));
    assert_eq!(c.peers, vec![peer("1", "A"), peer("2", "B2"), peer("4", "D")]);
}

#[test]
fn update_of_an_unknown_key_fails_and_changes_nothing() {
    let before = config(vec![peer("1", "A"), peer("2", "B")]);
    let mut c = before.clone();
    assert_eq!(update_peer(&mut c, "3", peer("3", "X")), Err(PeerError::PeerNotFound));
    assert_eq!(c, before);
    let mut empty = config(vec![]);
    assert_eq!(update_peer(&mut empty, "1", peer("1", "X")), Err(PeerError::PeerNotFound));
    assert!(empty.peers.is_empty());
}

#[test]
fn delete_removes_every_match() {
    let mut c = config(vec![peer("1", "A"), peer("2", "B"), peer("1", "A2")]);
    delete_peer(&mut c, "1");
    assert_eq!(c.peers, vec![peer("2", "B")]);
}

#[test]
fn delete_keeps_the_order_of_the_others() {
    let mut c = config(vec![
        peer("1", "A"),
        peer("2", "B"),
        peer("2", "B2"),
        peer("3", "C"),
        peer("2", "B3"),
        peer("4", "D"),
    ]);
    delete_peer(&mut c, "2");
    assert_eq!(c.peers, vec![peer("1", "A"), peer("3", "C"), peer("4", "D")]);
    assert_eq!(c.name, "wg0");
    assert_eq!(c.interface.private_key, "k");
}

#[test]
fn delete_of_an_unknown_key_changes_nothing() {
    let before = config(vec![peer("1", "A"), peer("2", "B")]);
    let mut c = before.clone();
    delete_peer(&mut c, "3");
    assert_eq!(c, before);
}

#[test]
fn delete_can_empty_the_list() {
    let mut c = config(vec![peer("1", "A"), peer("1", "B")]);
    delete_peer(&mut c, "1");
    assert!(c.peers.is_empty());
}

#[test]
fn add_appends_even_a_duplicate_key() {
    let mut c = config(vec![peer("1", "A")]);
    add_peer(&mut c, peer("2", "B"));
    add_peer(&mut c, peer("1", "A again"));
    assert_eq!(c.peers, vec![peer("1", "A"), peer("2", "B"), peer("1", "A again")]);
}

#[test]
fn peer_error_has_a_message() {
    assert_eq!(PeerError::PeerNotFound.message(), "Peer not found");
}
