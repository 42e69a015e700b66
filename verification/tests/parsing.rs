use wireguard_conf::{parse_config_content, ParseError, WgError};

const SAMPLE: &str = "\
[Interface]
PrivateKey = cHJpdmF0ZQ==
Address = 10.0.0.1/24
ListenPort = 51821
DNS = 1.1.1.1
PostUp = iptables -A FORWARD -i %i -j ACCEPT
PostDown = iptables -D FORWARD -i %i -j ACCEPT

# laptop
[Peer]
PublicKey = bGFwdG9w
AllowedIPs = 10.0.0.2/32
PersistentKeepalive = 25
Endpoint = 192.0.2.1:51820

[Peer]
PublicKey = cGhvbmU=
AllowedIPs = 10.0.0.3/32, 10.0.1.0/24
";

#[test]
fn parses_every_known_field() {
    let c = parse_config_content("wg0", "/etc/wireguard/wg0.conf", SAMPLE).unwrap();
    assert_eq!(c.name, "wg0");
    assert_eq!(c.path, "/etc/wireguard/wg0.conf");
    assert_eq!(c.interface.private_key, "cHJpdmF0ZQ==");
    assert_eq!(c.interface.address, "10.0.0.1/24");
    assert_eq!(c.interface.listen_port, 51821);
    assert_eq!(c.interface.dns.as_deref(), Some("1.1.1.1"));
    assert_eq!(c.interface.post_up.as_deref(), Some("iptables -A FORWARD -i %i -j ACCEPT"));
    assert_eq!(c.interface.post_down.as_deref(), Some("iptables -D FORWARD -i %i -j ACCEPT"));
    assert_eq!(c.peers.len(), 2);
    assert_eq!(c.peers[0].name.as_deref(), Some("laptop"));
    assert_eq!(c.peers[0].public_key, "bGFwdG9w");
    assert_eq!(c.peers[0].allowed_ips, "10.0.0.2/32");
    assert_eq!(c.peers[0].persistent_keepalive, Some(25));
    assert_eq!(c.peers[0].endpoint.as_deref(), Some("192.0.2.1:51820"));
    assert_eq!(c.peers[1].name, None);
    assert_eq!(c.peers[1].public_key, "cGhvbmU=");
    assert_eq!(c.peers[1].allowed_ips, "10.0.0.3/32, 10.0.1.0/24");
    assert_eq!(c.peers[1].persistent_keepalive, None);
    assert_eq!(c.peers[1].endpoint, None);
}

#[test]
fn value_is_split_at_the_first_equals_sign() {
    let c = parse_config_content("a", "p", "[Interface]\nPrivateKey=abc=def==\n").unwrap();
    assert_eq!(c.interface.private_key, "abc=def==");
}

#[test]
fn interface_defaults_apply_to_absent_keys() {
    let c = parse_config_content("a", "p", "[Interface]\nAddress = 10.0.0.1/24\n").unwrap();
    assert_eq!(c.interface.private_key, "");
    assert_eq!(c.interface.address, "10.0.0.1/24");
    assert_eq!(c.interface.listen_port, 51820);
    assert_eq!(c.interface.dns, None);
    assert_eq!(c.interface.post_up, None);
    assert_eq!(c.interface.post_down, None);
    assert!(c.peers.is_empty());
}

#[test]
fn carriage_returns_and_indentation_are_trimmed() {
    let text = "  [Interface]\r\n\tPrivateKey =  key  \r\n  Address=10.0.0.1/24\r\n\r\n  # far away \r\n[Peer]\r\nPublicKey = pk\r";
    let c = parse_config_content("a", "p", text).unwrap();
    assert_eq!(c.interface.private_key, "key");
    assert_eq!(c.interface.address, "10.0.0.1/24");
    assert_eq!(c.peers.len(), 1);
    assert_eq!(c.peers[0].name.as_deref(), Some("far away"));
    assert_eq!(c.peers[0].public_key, "pk");
}

#[test]
fn comment_before_peer_becomes_its_name() {
    let text = "[Interface]\nPrivateKey = k\n# alice\n[Peer]\nPublicKey = a\n# bob\n[Peer]\nPublicKey = b\n";
    let c = parse_config_content("a", "p", text).unwrap();
    assert_eq!(c.peers.len(), 2);
    assert_eq!(c.peers[0].name.as_deref(), Some("alice"));
    assert_eq!(c.peers[1].name.as_deref(), Some("bob"));
}

#[test]
fn last_of_several_comments_wins() {
    let text = "[Interface]\nPrivateKey = k\n# first\n# second\n[Peer]\nPublicKey = a\n";
    let c = parse_config_content("a", "p", text).unwrap();
    assert_eq!(c.peers[0].name.as_deref(), Some("second"));
}

#[test]
fn comment_is_used_only_once() {
    let text = "[Interface]\nPrivateKey = k\n# alice\n[Peer]\nPublicKey = a\n[Peer]\nPublicKey = b\n";
    let c = parse_config_content("a", "p", text).unwrap();
    assert_eq!(c.peers[0].name.as_deref(), Some("alice"));
    assert_eq!(c.peers[1].name, None);
}

#[test]
fn comment_before_interface_names_nothing() {
    let text = "# my tunnel\n[Interface]\nPrivateKey = k\n[Peer]\nPublicKey = a\n";
    let c = parse_config_content("a", "p", text).unwrap();
    assert_eq!(c.peers.len(), 1);
    assert_eq!(c.peers[0].name, None);
}

#[test]
fn comment_before_unknown_section_names_nothing() {
    let text = "[Interface]\nPrivateKey = k\n# stray\n[Routes]\nVia = x\n[Peer]\nPublicKey = a\n";
    let c = parse_config_content("a", "p", text).unwrap();
    assert_eq!(c.peers.len(), 1);
    assert_eq!(c.peers[0].name, None);
    assert_eq!(c.peers[0].public_key, "a");
}

#[test]
fn comment_inside_a_section_waits_for_the_next_peer() {
    let text = "[Interface]\n# carol\nPrivateKey = k\n\n[Peer]\nPublicKey = a\n";
    let c = parse_config_content("a", "p", text).unwrap();
    assert_eq!(c.peers[0].name.as_deref(), Some("carol"));
}

#[test]
fn comment_text_drops_the_mark_and_one_space() {
    let text = "[Interface]\nPrivateKey = k\n#tight\n[Peer]\n#  wide\n[Peer]\n##double\n[Peer]\n#\n[Peer]\n";
    let c = parse_config_content("a", "p", text).unwrap();
    assert_eq!(c.peers.len(), 4);
    assert_eq!(c.peers[0].name.as_deref(), Some("tight"));
    assert_eq!(c.peers[1].name.as_deref(), Some(" wide"));
    assert_eq!(c.peers[2].name.as_deref(), Some("#double"));
    assert_eq!(c.peers[3].name.as_deref(), Some(""));
}

#[test]
fn unreadable_listen_port_is_the_default() {
    let c = parse_config_content("a", "p", "[Interface]\nListenPort = notanumber\n").unwrap();
    assert_eq!(c.interface.listen_port, 51820);
    let c = parse_config_content("a", "p", "[Interface]\nListenPort = 1000\nListenPort = 70000\n")
        .unwrap();
    assert_eq!(c.interface.listen_port, 51820);
    let c = parse_config_content("a", "p", "[Interface]\nListenPort = -1\n").unwrap();
    assert_eq!(c.interface.listen_port, 51820);
    let c = parse_config_content("a", "p", "[Interface]\nListenPort =\n").unwrap();
    assert_eq!(c.interface.listen_port, 51820);
}

#[test]
fn readable_listen_port_is_kept() {
    let c = parse_config_content("a", "p", "[Interface]\nListenPort = 0\n").unwrap();
    assert_eq!(c.interface.listen_port, 0);
    let c = parse_config_content("a", "p", "[Interface]\nListenPort = 65535\n").unwrap();
    assert_eq!(c.interface.listen_port, 65535);
    let c = parse_config_content("a", "p", "[Interface]\nListenPort = +00443\n").unwrap();
    assert_eq!(c.interface.listen_port, 443);
}

#[test]
fn unreadable_keepalive_is_absent() {
    let text = "[Interface]\nPrivateKey = k\n[Peer]\nPersistentKeepalive = notanumber\n";
    let c = parse_config_content("a", "p", text).unwrap();
    assert_eq!(c.peers[0].persistent_keepalive, None);
    let text = "[Interface]\nPrivateKey = k\n[Peer]\nPersistentKeepalive = 25\nPersistentKeepalive = 65536\n";
    let c = parse_config_content("a", "p", text).unwrap();
    assert_eq!(c.peers[0].persistent_keepalive, None);
}

#[test]
fn peers_without_interface_are_refused() {
    let text = "# a\n[Peer]\nPublicKey = a\nAllowedIPs = 10.0.0.2/32\n\n[Peer]\nPublicKey = b\n";
    let r = parse_config_content("a", "p", text);
    assert_eq!(r, Err(WgError::Parse(ParseError::MissingInterfaceSection)));
}

#[test]
fn empty_text_is_refused() {
    assert_eq!(
        parse_config_content("a", "p", ""),
        Err(WgError::Parse(ParseError::MissingInterfaceSection))
    );
    assert_eq!(
        parse_config_content("a", "p", "\n\n  \n"),
        Err(WgError::Parse(ParseError::MissingInterfaceSection))
    );
}

#[test]
fn interface_header_without_keys_is_refused() {
    assert_eq!(
        parse_config_content("a", "p", "[Interface]\n"),
        Err(WgError::Parse(ParseError::MissingInterfaceSection))
    );
}

#[test]
fn unknown_keys_are_ignored() {
    let with = "[Interface]\nPrivateKey = k\nFoo = bar\nAddress = 10.0.0.1/24\n[Peer]\nFoo = bar\nPublicKey = a\nMTU = 1420\n";
    let without = "[Interface]\nPrivateKey = k\nAddress = 10.0.0.1/24\n[Peer]\nPublicKey = a\n";
    let a = parse_config_content("a", "p", with).unwrap();
    let b = parse_config_content("a", "p", without).unwrap();
    assert_eq!(a, b);
    assert_eq!(a.interface.private_key, "k");
    assert_eq!(a.peers[0].public_key, "a");
}

#[test]
fn unknown_key_alone_still_makes_the_interface() {
    let c = parse_config_content("a", "p", "[Interface]\nFoo = bar\n").unwrap();
    assert_eq!(c.interface.private_key, "");
    assert_eq!(c.interface.listen_port, 51820);
}

#[test]
fn keys_are_case_sensitive() {
    let c = parse_config_content("a", "p", "[Interface]\nprivatekey = k\nADDRESS = x\n").unwrap();
    assert_eq!(c.interface.private_key, "");
    assert_eq!(c.interface.address, "");
}

#[test]
fn lines_before_any_section_are_ignored() {
    let c = parse_config_content("a", "p", "PrivateKey = early\n[Interface]\nAddress = x\n")
        .unwrap();
    assert_eq!(c.interface.private_key, "");
    assert_eq!(c.interface.address, "x");
}

#[test]
fn lines_without_equals_sign_are_ignored() {
    let c = parse_config_content("a", "p", "[Interface]\nPrivateKey\nAddress = x\njunk here\n")
        .unwrap();
    assert_eq!(c.interface.private_key, "");
    assert_eq!(c.interface.address, "x");
}

#[test]
fn second_interface_section_overwrites_in_place() {
    let text = "[Interface]\nPrivateKey = one\nAddress = a\n[Peer]\nPublicKey = p\n[Interface]\nPrivateKey = two\nDNS = 9.9.9.9\n";
    let c = parse_config_content("a", "p", text).unwrap();
    assert_eq!(c.interface.private_key, "two");
    assert_eq!(c.interface.address, "a");
    assert_eq!(c.interface.dns.as_deref(), Some("9.9.9.9"));
    assert_eq!(c.peers.len(), 1);
    assert_eq!(c.peers[0].public_key, "p");
}

#[test]
fn keys_under_other_sections_are_ignored() {
    let text = "[Interface]\nPrivateKey = k\n[Other]\nPrivateKey = no\nPublicKey = no\n";
    let c = parse_config_content("a", "p", text).unwrap();
    assert_eq!(c.interface.private_key, "k");
    assert!(c.peers.is_empty());
}

#[test]
fn section_names_are_exact() {
    let text = "[interface]\nPrivateKey = k\n[ Peer ]\nPublicKey = a\n";
    assert_eq!(
        parse_config_content("a", "p", text),
        Err(WgError::Parse(ParseError::MissingInterfaceSection))
    );
}

#[test]
fn repeated_brackets_are_stripped_from_section_names() {
    let text = "[[Interface]]\nPrivateKey = k\n[[Peer]\nPublicKey = a\n";
    let c = parse_config_content("a", "p", text).unwrap();
    assert_eq!(c.interface.private_key, "k");
    assert_eq!(c.peers.len(), 1);
    assert_eq!(c.peers[0].public_key, "a");
}

#[test]
fn duplicate_public_keys_are_kept() {
    let text = "[Interface]\nPrivateKey = k\n[Peer]\nPublicKey = same\n[Peer]\nPublicKey = same\n";
    let c = parse_config_content("a", "p", text).unwrap();
    assert_eq!(c.peers.len(), 2);
    assert_eq!(c.peers[0].public_key, "same");
    assert_eq!(c.peers[1].public_key, "same");
}

#[test]
fn wide_white_space_is_trimmed() {
    let text = "\u{3000}[Interface]\u{a0}\nPrivateKey\u{2003}=\u{2009}k\u{85}\n";
    let c = parse_config_content("a", "p", text).unwrap();
    assert_eq!(c.interface.private_key, "k");
}
