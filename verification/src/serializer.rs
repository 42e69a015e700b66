//! Writing a configuration as text.
//!
//! The text is a list of lines, each ended by a line feed: the interface's
//! section first, then one section for each peer in order, each after a blank
//! line and under the comment that holds the peer's name.

use vstd::prelude::*;
use crate::model::{text_of, ConfigView, Interface, InterfaceView, Peer, PeerView, WgConfig};
use crate::number::{decimal, push_decimal};

verus! {

/// The line `key = value`.
pub open spec fn entry(key: Seq<char>, value: Seq<char>) -> Seq<char> {
    key + " = "@ + value
}

/// The line `key = value` where there is a value, and no line where there is none.
pub open spec fn optional_entry(key: Seq<char>, value: Option<Seq<char>>) -> Seq<Seq<char>> {
    match value {
        Some(value) => seq![entry(key, value)],
        None => Seq::empty(),
    }
}

/// The decimal notation of an optional number.
pub open spec fn number_text(n: Option<u16>) -> Option<Seq<char>> {
    match n {
        Some(n) => Some(decimal(n as nat)),
        None => None,
    }
}

/// The comment line that holds a peer's name, where it has one.
pub open spec fn name_lines(name: Option<Seq<char>>) -> Seq<Seq<char>> {
    match name {
        Some(name) => seq!["# "@ + name],
        None => Seq::empty(),
    }
}

/// The lines of the interface's section.
pub open spec fn interface_lines(i: InterfaceView) -> Seq<Seq<char>> {
    seq![
        "[Interface]"@,
        entry("PrivateKey"@, i.private_key),
        entry("Address"@, i.address),
        entry("ListenPort"@, decimal(i.listen_port as nat)),
    ] + optional_entry("DNS"@, i.dns) + optional_entry("PostUp"@, i.post_up) + optional_entry(
        "PostDown"@,
        i.post_down,
    )
}

/// The lines of one peer's section, from the blank line that sets it apart.
pub open spec fn peer_lines(p: PeerView) -> Seq<Seq<char>> {
    seq![Seq::<char>::empty()] + name_lines(p.name) + seq![
        "[Peer]"@,
        entry("PublicKey"@, p.public_key),
        entry("AllowedIPs"@, p.allowed_ips),
    ] + optional_entry("PersistentKeepalive"@, number_text(p.persistent_keepalive))
        + optional_entry("Endpoint"@, p.endpoint)
}

/// The lines of the sections of `peers`, in order.
pub open spec fn peers_lines(peers: Seq<PeerView>) -> Seq<Seq<char>>
    decreases peers.len(),
{
    if peers.len() == 0 {
        Seq::empty()
    } else {
        peers_lines(peers.drop_last()) + peer_lines(peers.last())
    }
}

/// The lines of a configuration.
pub open spec fn config_lines(c: ConfigView) -> Seq<Seq<char>> {
    interface_lines(c.interface) + peers_lines(c.peers)
}

/// The text made of `lines`, each followed by a line feed.
pub open spec fn join_lines(lines: Seq<Seq<char>>) -> Seq<char>
    decreases lines.len(),
{
    if lines.len() == 0 {
        Seq::empty()
    } else {
        join_lines(lines.drop_last()) + lines.last() + seq!['\n']
    }
}

/// The text of a configuration.
pub open spec fn serialize_spec(c: ConfigView) -> Seq<char> {
    join_lines(config_lines(c))
}

/// The text of one line is the line and a line feed.
pub proof fn lemma_join_one(line: Seq<char>)
    ensures
        join_lines(seq![line]) == line + seq!['\n'],
{
    assert(seq![line].drop_last() =~= Seq::<Seq<char>>::empty());
    assert(join_lines(seq![line].drop_last()) =~= Seq::<char>::empty());
    assert(join_lines(seq![line]) =~= line + seq!['\n']);
}

/// The text of two lists of lines, one after the other, is the two texts, one
/// after the other.
pub proof fn lemma_join_concat(a: Seq<Seq<char>>, b: Seq<Seq<char>>)
    ensures
        join_lines(a + b) == join_lines(a) + join_lines(b),
    decreases b.len(),
{
    if b.len() == 0 {
        assert(a + b =~= a);
        assert(join_lines(a) + join_lines(b) =~= join_lines(a));
    } else {
        lemma_join_concat(a, b.drop_last());
        assert((a + b).drop_last() =~= a + b.drop_last());
        assert((a + b).last() == b.last());
        assert(join_lines(a + b) =~= join_lines(a) + join_lines(b));
    }
}

/// Appends `line` and a line feed.
fn push_line(out: &mut String, line: &str)
    ensures
        final(out)@ == old(out)@ + join_lines(seq![line@]),
{
    out.append(line);
    out.push('\n');
    proof {
        lemma_join_one(line@);
        assert(final(out)@ =~= old(out)@ + (line@ + seq!['\n']));
    }
}

/// Appends the line `key = value`.
fn push_entry(out: &mut String, key: &str, value: &str)
    ensures
        final(out)@ == old(out)@ + join_lines(seq![entry(key@, value@)]),
{
    out.append(key);
    out.append(" = ");
    out.append(value);
    out.push('\n');
    proof {
        lemma_join_one(entry(key@, value@));
        assert(final(out)@ =~= old(out)@ + (entry(key@, value@) + seq!['\n']));
    }
}

/// Appends the line `key = n`, with `n` in decimal notation.
fn push_number_entry(out: &mut String, key: &str, n: u16)
    ensures
        final(out)@ == old(out)@ + join_lines(seq![entry(key@, decimal(n as nat))]),
{
    out.append(key);
    out.append(" = ");
    push_decimal(out, n);
    out.push('\n');
    proof {
        lemma_join_one(entry(key@, decimal(n as nat)));
        assert(final(out)@ =~= old(out)@ + (entry(key@, decimal(n as nat)) + seq!['\n']));
    }
}

/// Appends the line `key = value` where there is a value.
fn push_optional_entry(out: &mut String, key: &str, value: &Option<String>)
    ensures
        final(out)@ == old(out)@ + join_lines(optional_entry(key@, text_of(*value))),
{
    match value {
        Some(value) => {
            push_entry(out, key, value.as_str());
        },
        None => {
            assert(final(out)@ =~= old(out)@ + join_lines(Seq::empty()));
        },
    }
}

/// Appends the interface's section.
fn push_interface(out: &mut String, i: &Interface)
    ensures
        final(out)@ == old(out)@ + join_lines(interface_lines(i@)),
{
    let ghost l0 = seq!["[Interface]"@];
    let ghost l1 = seq![entry("PrivateKey"@, i@.private_key)];
    let ghost l2 = seq![entry("Address"@, i@.address)];
    let ghost l3 = seq![entry("ListenPort"@, decimal(i@.listen_port as nat))];
    let ghost l4 = optional_entry("DNS"@, i@.dns);
    let ghost l5 = optional_entry("PostUp"@, i@.post_up);
    let ghost l6 = optional_entry("PostDown"@, i@.post_down);
    push_line(out, "[Interface]");
    push_entry(out, "PrivateKey", i.private_key.as_str());
    push_entry(out, "Address", i.address.as_str());
    push_number_entry(out, "ListenPort", i.listen_port);
    push_optional_entry(out, "DNS", &i.dns);
    push_optional_entry(out, "PostUp", &i.post_up);
    push_optional_entry(out, "PostDown", &i.post_down);
    proof {
        lemma_join_concat(l0, l1);
        lemma_join_concat(l0 + l1, l2);
        lemma_join_concat(l0 + l1 + l2, l3);
        lemma_join_concat(l0 + l1 + l2 + l3, l4);
        lemma_join_concat(l0 + l1 + l2 + l3 + l4, l5);
        lemma_join_concat(l0 + l1 + l2 + l3 + l4 + l5, l6);
        assert(interface_lines(i@) =~= l0 + l1 + l2 + l3 + l4 + l5 + l6);
        assert(final(out)@ =~= old(out)@ + join_lines(interface_lines(i@)));
    }
}

/// Appends one peer's section.
fn push_peer(out: &mut String, p: &Peer)
    ensures
        final(out)@ == old(out)@ + join_lines(peer_lines(p@)),
{
    let ghost l0 = seq![Seq::<char>::empty()];
    let ghost l1 = name_lines(p@.name);
    let ghost l2 = seq!["[Peer]"@];
    let ghost l3 = seq![entry("PublicKey"@, p@.public_key)];
    let ghost l4 = seq![entry("AllowedIPs"@, p@.allowed_ips)];
    let ghost l5 = optional_entry("PersistentKeepalive"@, number_text(p@.persistent_keepalive));
    let ghost l6 = optional_entry("Endpoint"@, p@.endpoint);
    out.push('\n');
    proof {
        lemma_join_one(Seq::<char>::empty());
        assert(out@ =~= old(out)@ + join_lines(l0));
    }
    let ghost mid = out@;
    match &p.name {
        Some(name) => {
            out.append("# ");
            out.append(name.as_str());
            out.push('\n');
            proof {
                lemma_join_one("# "@ + name@);
                assert(out@ =~= mid + join_lines(l1));
            }
        },
        None => {
            assert(out@ =~= mid + join_lines(l1));
        },
    }
    push_line(out, "[Peer]");
    push_entry(out, "PublicKey", p.public_key.as_str());
    push_entry(out, "AllowedIPs", p.allowed_ips.as_str());
    let ghost before = out@;
    match p.persistent_keepalive {
        Some(seconds) => {
            push_number_entry(out, "PersistentKeepalive", seconds);
        },
        None => {
            assert(out@ =~= before + join_lines(l5));
        },
    }
    push_optional_entry(out, "Endpoint", &p.endpoint);
    proof {
        lemma_join_concat(l0, l1);
        lemma_join_concat(l0 + l1, l2);
        lemma_join_concat(l0 + l1 + l2, l3);
        lemma_join_concat(l0 + l1 + l2 + l3, l4);
        lemma_join_concat(l0 + l1 + l2 + l3 + l4, l5);
        lemma_join_concat(l0 + l1 + l2 + l3 + l4 + l5, l6);
        assert(peer_lines(p@) =~= l0 + l1 + l2 + l3 + l4 + l5 + l6);
        assert(final(out)@ =~= old(out)@ + join_lines(peer_lines(p@)));
    }
}

/// Writes `config` as configuration text.
///
/// The interface's private key, address and port are always written, its other
/// keys where they have a value; each peer follows in order.
pub fn serialize_config(config: &WgConfig) -> (text: String)
    ensures
        text@ == serialize_spec(config@),
{
    let mut out = String::new();
    push_interface(&mut out, &config.interface);
    let ghost head = interface_lines(config@.interface);
    let ghost peers = config@.peers;
    assert(peers.take(0) =~= Seq::empty());
    assert(out@ =~= join_lines(head + peers_lines(peers.take(0)))) by {
        assert(head + peers_lines(peers.take(0)) =~= head);
    }
    let mut k: usize = 0;
    while k < config.peers.len()
        invariant
            k <= config.peers.len(),
            head == interface_lines(config@.interface),
            peers == config@.peers,
            out@ == join_lines(head + peers_lines(peers.take(k as int))),
        decreases config.peers.len() - k,
    {
        let ghost done = peers_lines(peers.take(k as int));
        push_peer(&mut out, &config.peers[k]);
        proof {
            let next = peers.take(k + 1);
            assert(next.drop_last() =~= peers.take(k as int));
            assert(next.last() == config.peers[k as int]@);
            assert(peers_lines(next) == done + peer_lines(next.last()));
            lemma_join_concat(head + done, peer_lines(next.last()));
            assert(head + peers_lines(next) =~= (head + done) + peer_lines(next.last()));
        }
        k += 1;
    }
    assert(peers.take(k as int) =~= peers);
    out
}

} // verus!
