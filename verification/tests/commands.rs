use wireguard_conf::{
    command_output, generate_keypair, generated_private_key, get_peer_status, get_public_key,
    parse_config, ParseError, PeerStatus, WgError,
};

fn status(key: &str, endpoint: Option<&str>, handshake: Option<&str>, rx: &str, tx: Option<&str>) -> PeerStatus {
    PeerStatus {
        public_key: key.to_string(),
        endpoint: endpoint.map(|s| s.to_string()),
        latest_handshake: handshake.map(|s| s.to_string()),
        transfer_rx: Some(rx.to_string()),
        transfer_tx: tx.map(|s| s.to_string()),
    }
}

#[test]
fn status_dump_is_read_line_by_line() {
    let dump = "priv\tpub\t51820\toff\npeer1\t(none)\t192.0.2.1:51820\t10.0.0.2/32\t1700000000\t1024\t2048\t25\npeer2\t(none)\t\t10.0.0.3/32\t0\t0\t0\toff\n";
    let r = get_peer_status(true, dump, "").unwrap();
    assert_eq!(
        r,
        vec![
            status("peer1", Some("192.0.2.1:51820"), Some("1700000000"), "1024", Some("2048")),
            status("peer2", None, None, "0", Some("0")),
        ]
    );
}

#[test]
fn status_first_line_is_passed_over_whatever_it_holds() {
    let dump = "a\tb\tc\td\te\tf\tg\nk\tp\te\ta\t5\t6\t7";
    let r = get_peer_status(true, dump, "").unwrap();
    assert_eq!(r, vec![status("k", Some("e"), Some("5"), "6", Some("7"))]);
}

#[test]
fn status_lines_of_fewer_than_six_fields_are_passed_over() {
    let dump = "iface\nshort\tline\n\nk\tp\te\ta\t5\nk\tp\te\ta\t5\t6\n";
    let r = get_peer_status(true, dump, "").unwrap();
    assert_eq!(r, vec![status("k", Some("e"), Some("5"), "6", None)]);
}

#[test]
fn status_line_endings_may_carry_a_carriage_return() {
    let dump = "iface\r\nk\tp\te\ta\t5\t6\t7\r\nk2\tp\te\ta\t0\t6\t7\r";
    let r = get_peer_status(true, dump, "").unwrap();
    assert_eq!(
        r,
        vec![
            status("k", Some("e"), Some("5"), "6", Some("7")),
            status("k2", Some("e"), None, "6", Some("7\r")),
        ]
    );
}

#[test]
fn status_of_empty_output_is_empty() {
    assert_eq!(get_peer_status(true, "", "ignored"), Ok(vec![]));
    assert_eq!(get_peer_status(true, "only the interface", ""), Ok(vec![]));
}

#[test]
fn status_of_a_failed_command_is_its_report() {
    let r = get_peer_status(false, "k\tp\te\ta\t5\t6\t7\n", "Unable to access interface: No such device\n");
    assert_eq!(
        r,
        Err(WgError::CommandFailed("Unable to access interface: No such device\n".to_string()))
    );
}

#[test]
fn status_agrees_with_the_standard_line_and_field_splitting() {
    let dumps = [
        "",
        "\n",
        "\n\n",
        "a\n\tb\t\t\t\t\t\n",
        "x\n\t\t\t\t\t\n\t\t\t\t0\t\t\n",
        "x\r\n1\t2\t3\t4\t5\t6\r\n\r\n1\t2\t3\t4\t5\t6\t7\t8\t9\r\r\n",
        "x\n1\t2\t3\t4\t00\t6",
        "x\n1\t2\t3\t4\t0\t6\n\n\n",
        "x\n1\t2\t3\t4\t5\t6\r",
        "x\n1\t2\t3\t4\t5\t6\r\r\n",
        "x\n1\t2\t3\t4\t5\t6\t\r\n\r",
        "\r\n\t\t\t\t\t\r\n",
        "x\n1\t2\t3\t4\t5\t6\rmore\n",
    ];
    for dump in dumps {
        let mut expected = Vec::new();
        for (i, line) in dump.lines().enumerate() {
            if i == 0 {
                continue;
            }
            let parts: Vec<&str> = line.split('\t').collect();
            if parts.len() >= 6 {
                expected.push(PeerStatus {
                    public_key: parts[0].to_string(),
                    endpoint: if parts[2].is_empty() { None } else { Some(parts[2].to_string()) },
                    latest_handshake: if parts[4] == "0" { None } else { Some(parts[4].to_string()) },
                    transfer_rx: Some(parts[5].to_string()),
                    transfer_tx: if parts.len() > 6 { Some(parts[6].to_string()) } else { None },
                });
            }
        }
        assert_eq!(get_peer_status(true, dump, ""), Ok(expected));
    }
}

#[test]
fn command_output_is_the_output_of_a_success() {
    assert_eq!(
        command_output(true, "[#] ip link add wg0\n".to_string(), "warning".to_string()),
        Ok("[#] ip link add wg0\n".to_string())
    );
}

#[test]
fn command_output_is_the_report_of_a_failure() {
    assert_eq!(
        command_output(false, "partial".to_string(), "wg-quick: `wg0' already exists\n".to_string()),
        Err(WgError::CommandFailed("wg-quick: `wg0' already exists\n".to_string()))
    );
}

#[test]
fn generated_private_key_is_trimmed() {
    assert_eq!(generated_private_key(true, "  a2V5\n"), Ok("a2V5".to_string()));
    assert_eq!(generated_private_key(true, ""), Ok(String::new()));
    assert_eq!(
        generated_private_key(false, "a2V5\n"),
        Err(WgError::CommandFailed("Failed to generate private key".to_string()))
    );
}

#[test]
fn keypair_joins_the_private_key_and_the_trimmed_public_key() {
    assert_eq!(
        generate_keypair("cHJpdg==".to_string(), true, "cHVi\r\n"),
        Ok(("cHJpdg==".to_string(), "cHVi".to_string()))
    );
    assert_eq!(
        generate_keypair("cHJpdg==".to_string(), false, "cHVi\n"),
        Err(WgError::CommandFailed("Failed to generate public key".to_string()))
    );
}

#[test]
fn public_key_is_trimmed() {
    assert_eq!(get_public_key(true, "cHVi\n"), Ok("cHVi".to_string()));
    assert_eq!(get_public_key(true, " \t\n"), Ok(String::new()));
    assert_eq!(
        get_public_key(false, "cHVi\n"),
        Err(WgError::CommandFailed("Failed to derive public key".to_string()))
    );
}

#[test]
fn missing_file_is_not_found() {
    assert_eq!(
        parse_config("office", "/etc/wireguard/office.conf", None),
        Err(WgError::NotFound("office".to_string()))
    );
}

#[test]
fn present_file_is_parsed() {
    let c = parse_config("office", "/etc/wireguard/office.conf", Some("[Interface]\nAddress = a\n"))
        .unwrap();
    assert_eq!(c.name, "office");
    assert_eq!(c.path, "/etc/wireguard/office.conf");
    assert_eq!(c.interface.address, "a");
    assert_eq!(
        parse_config("office", "p", Some("[Peer]\nPublicKey = a\n")),
        Err(WgError::Parse(ParseError::MissingInterfaceSection))
    );
}

#[test]
fn every_error_has_its_message() {
    assert_eq!(WgError::Io("permission denied".to_string()).message(), "IO error: permission denied");
    assert_eq!(
        WgError::Parse(ParseError::MissingInterfaceSection).message(),
        "Parse error: No [Interface] section found"
    );
    assert_eq!(
        WgError::CommandFailed("boom".to_string()).message(),
        "Command execution failed: boom"
    );
    assert_eq!(WgError::NotFound("wg9".to_string()).message(), "Config not found: wg9");
    assert_eq!(ParseError::MissingInterfaceSection.message(), "No [Interface] section found");
}
