use wireguard_conf::{parse_config_content, Interface, Peer};

#[test]
fn default_interface_listens_on_the_default_port() {
    let i = Interface::default();
    assert_eq!(i.private_key, "");
    assert_eq!(i.address, "");
    assert_eq!(i.listen_port, 51820);
    assert_eq!(i.dns, None);
    assert_eq!(i.post_up, None);
    assert_eq!(i.post_down, None);
}

#[test]
fn default_peer_is_empty() {
    let p = Peer::default();
    assert_eq!(p.public_key, "");
    assert_eq!(p.allowed_ips, "");
    assert_eq!(p.persistent_keepalive, None);
    assert_eq!(p.endpoint, None);
    assert_eq!(p.name, None);
}

#[test]
fn section_without_known_keys_gives_the_defaults() {
    let c = parse_config_content("a", "p", "[Interface]\nX = y\n[Peer]\nX = y\n").unwrap();
    assert_eq!(c.interface, Interface::default());
    assert_eq!(c.peers, vec![Peer::default()]);
}
