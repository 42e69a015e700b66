//! Writing a configuration and reading the text again gives the configuration
//! back.
//!
//! This holds of every configuration in canonical form, and whatever the
//! reader returns is in canonical form.

use vstd::prelude::*;
use crate::model::{default_interface, new_peer, ConfigView, InterfaceView, PeerView, WgErrorView};
use crate::number::{decimal, is_digit, lemma_decimal, lemma_parse_decimal, parse_u16};
use crate::parser::{
    assign, assign_line, close_peer, comment_text, initial_state, is_comment, is_header,
    parse_spec, port_of, run, section_of, set_interface_key, set_peer_key, split_lines, step,
    ParseState, Section,
};
use crate::serializer::{
    config_lines, entry, interface_lines, join_lines, lemma_join_concat, lemma_join_one,
    name_lines, number_text, optional_entry, peer_lines, peers_lines, serialize_spec,
};
use crate::text::{
    find, is_space, is_trimmed, leading, lemma_find, lemma_find_is, lemma_strip, lemma_strip_is,
    trim, CharClass,
};

verus! {

/// `s` holds no line feed.
pub open spec fn single_line(s: Seq<char>) -> bool {
    forall|i: int| 0 <= i < s.len() ==> #[trigger] s[i] != '\n'
}

/// `v` can stand as the value of a key: it holds no line feed and no white
/// space at its ends.
pub open spec fn is_value(v: Seq<char>) -> bool {
    single_line(v) && is_trimmed(v)
}

/// `n` can stand as the name of a peer: it holds no line feed and does not end
/// in white space.
pub open spec fn is_name(n: Seq<char>) -> bool {
    single_line(n) && (n.len() > 0 ==> !is_space(n.last()))
}

/// `v`, where there is one, can stand as the value of a key.
pub open spec fn is_optional_value(v: Option<Seq<char>>) -> bool {
    match v {
        Some(v) => is_value(v),
        None => true,
    }
}

/// Every text of the interface can stand as the value of a key.
pub open spec fn canonical_interface(i: InterfaceView) -> bool {
    &&& is_value(i.private_key)
    &&& is_value(i.address)
    &&& is_optional_value(i.dns)
    &&& is_optional_value(i.post_up)
    &&& is_optional_value(i.post_down)
}

/// Every text of the peer can stand as the value of a key, and its name as a
/// name.
pub open spec fn canonical_peer(p: PeerView) -> bool {
    &&& is_value(p.public_key)
    &&& is_value(p.allowed_ips)
    &&& is_optional_value(p.endpoint)
    &&& match p.name {
        Some(n) => is_name(n),
        None => true,
    }
}

/// The configuration is made of texts that its file can hold unchanged.
pub open spec fn canonical(c: ConfigView) -> bool {
    &&& canonical_interface(c.interface)
    &&& forall|k: int| 0 <= k < c.peers.len() ==> canonical_peer(#[trigger] c.peers[k])
}

/// `k` can stand as a key: it is not empty, opens neither a comment nor a
/// header, has no white space at its ends and holds no `=` and no line feed.
pub open spec fn is_key(k: Seq<char>) -> bool {
    &&& k.len() > 0
    &&& k[0] != '#'
    &&& k[0] != '['
    &&& !is_space(k[0])
    &&& !is_space(k.last())
    &&& forall|i: int| 0 <= i < k.len() ==> #[trigger] k[i] != '=' && k[i] != '\n'
}

/// The keys that the format knows can all stand as keys.
pub proof fn lemma_known_keys()
    ensures
        is_key("PrivateKey"@),
        is_key("Address"@),
        is_key("ListenPort"@),
        is_key("DNS"@),
        is_key("PostUp"@),
        is_key("PostDown"@),
        is_key("PublicKey"@),
        is_key("AllowedIPs"@),
        is_key("PersistentKeepalive"@),
        is_key("Endpoint"@),
{
    reveal_strlit("PrivateKey");
    reveal_strlit("Address");
    reveal_strlit("ListenPort");
    reveal_strlit("DNS");
    reveal_strlit("PostUp");
    reveal_strlit("PostDown");
    reveal_strlit("PublicKey");
    reveal_strlit("AllowedIPs");
    reveal_strlit("PersistentKeepalive");
    reveal_strlit("Endpoint");
    assert("PublicKey"@.len() == 9 && "AllowedIPs"@.len() == 10);
    assert("PersistentKeepalive"@.len() == 19 && "Endpoint"@.len() == 8);
}

/// The line `key = value` is read as the key `key` with the value `value`.
pub proof fn lemma_step_entry(st: ParseState, key: Seq<char>, value: Seq<char>)
    requires
        is_key(key),
        is_value(value),
    ensures
        step(st, entry(key, value)) == assign(st, key, value),
{
    reveal_strlit(" = ");
    let e = entry(key, value);
    let n = key.len() as int;
    assert(e.len() == n + 3 + value.len());
    assert(e[0] == key[0]);
    assert(e[n] == ' ' && e[n + 1] == '=' && e[n + 2] == ' ');
    let line = trim(e);
    if value.len() > 0 {
        assert(e.last() == value.last());
        lemma_strip_is(e, CharClass::Space, 0, e.len() as int);
        assert(line =~= e);
    } else {
        lemma_strip_is(e, CharClass::Space, 0, e.len() - 1);
    }
    assert(line.len() >= n + 2);
    assert(line[0] == key[0]);
    assert forall|j: int| 0 <= j < n + 1 implies #[trigger] line[j] != '=' by {
        if j < n {
            assert(line[j] == key[j]);
        }
    }
    assert(line[n + 1] == '=');
    lemma_find_is(line, '=', n + 1);
    let left = line.take(n + 1);
    assert(left[0] == key[0]);
    assert(left[n - 1] == key[n - 1]);
    lemma_strip_is(left, CharClass::Space, 0, n);
    assert(left.subrange(0, n) =~= key);
    let right = line.skip(n + 2);
    if value.len() > 0 {
        assert(right[0] == ' ');
        assert(right[1] == value[0]);
        assert(right[right.len() - 1] == value.last());
        lemma_strip_is(right, CharClass::Space, 1, right.len() as int);
        assert(right.subrange(1, right.len() as int) =~= value);
    } else {
        lemma_strip_is(right, CharClass::Space, 0, 0);
        assert(right.subrange(0, 0) =~= value);
    }
    assert(assign_line(st, line) == assign(st, key, value));
}

/// A blank line changes nothing.
pub proof fn lemma_step_blank(st: ParseState)
    ensures
        step(st, Seq::empty()) == st,
{
    lemma_strip_is(Seq::<char>::empty(), CharClass::Space, 0, 0);
}

/// The comment line written for the name `name` leaves `name` pending.
pub proof fn lemma_step_name(st: ParseState, name: Seq<char>)
    requires
        is_name(name),
    ensures
        step(st, "# "@ + name) == (ParseState { pending_comment: Some(name), ..st }),
{
    reveal_strlit("# ");
    let raw = "# "@ + name;
    assert(raw[0] == '#' && raw[1] == ' ');
    if name.len() > 0 {
        assert(raw.last() == name.last());
        lemma_strip_is(raw, CharClass::Space, 0, raw.len() as int);
        assert(trim(raw) =~= raw);
        assert(comment_text(raw) =~= name);
    } else {
        lemma_strip_is(raw, CharClass::Space, 0, 1);
        assert(comment_text(trim(raw)) =~= name);
    }
}

/// The header `[Peer]` opens the section of a peer, `[Interface]` that of the
/// interface.
pub proof fn lemma_headers()
    ensures
        trim("[Peer]"@) == "[Peer]"@,
        is_header("[Peer]"@),
        !is_comment("[Peer]"@),
        section_of("[Peer]"@) == Section::Peer,
        trim("[Interface]"@) == "[Interface]"@,
        is_header("[Interface]"@),
        !is_comment("[Interface]"@),
        section_of("[Interface]"@) == Section::Interface,
{
    reveal_strlit("[Peer]");
    reveal_strlit("Peer");
    reveal_strlit("[Interface]");
    reveal_strlit("Interface");
    let p = "[Peer]"@;
    lemma_strip_is(p, CharClass::Space, 0, 6);
    assert(p.subrange(0, 6) =~= p);
    lemma_strip_is(p, CharClass::Bracket, 1, 5);
    assert(p.subrange(1, 5) =~= "Peer"@);
    let i = "[Interface]"@;
    lemma_strip_is(i, CharClass::Space, 0, 11);
    assert(i.subrange(0, 11) =~= i);
    lemma_strip_is(i, CharClass::Bracket, 1, 10);
    assert(i.subrange(1, 10) =~= "Interface"@);
    assert("Interface"@ != "Peer"@);
}

/// What each known key of an interface sets.
pub proof fn lemma_set_interface_keys(i: InterfaceView, v: Seq<char>)
    ensures
        set_interface_key(i, "PrivateKey"@, v) == (InterfaceView { private_key: v, ..i }),
        set_interface_key(i, "Address"@, v) == (InterfaceView { address: v, ..i }),
        set_interface_key(i, "ListenPort"@, v) == (InterfaceView { listen_port: port_of(v), ..i }),
        set_interface_key(i, "DNS"@, v) == (InterfaceView { dns: Some(v), ..i }),
        set_interface_key(i, "PostUp"@, v) == (InterfaceView { post_up: Some(v), ..i }),
        set_interface_key(i, "PostDown"@, v) == (InterfaceView { post_down: Some(v), ..i }),
{
    reveal_strlit("PrivateKey");
    reveal_strlit("Address");
    reveal_strlit("ListenPort");
    reveal_strlit("DNS");
    reveal_strlit("PostUp");
    reveal_strlit("PostDown");
    assert("PrivateKey"@.len() == 10 && "Address"@.len() == 7 && "ListenPort"@.len() == 10);
    assert("DNS"@.len() == 3 && "PostUp"@.len() == 6 && "PostDown"@.len() == 8);
    assert("ListenPort"@[0] != "PrivateKey"@[0]);
}

/// What each known key of a peer sets.
pub proof fn lemma_set_peer_keys(p: PeerView, v: Seq<char>)
    ensures
        set_peer_key(p, "PublicKey"@, v) == (PeerView { public_key: v, ..p }),
        set_peer_key(p, "AllowedIPs"@, v) == (PeerView { allowed_ips: v, ..p }),
        set_peer_key(p, "PersistentKeepalive"@, v) == (PeerView {
            persistent_keepalive: parse_u16(v),
            ..p
        }),
        set_peer_key(p, "Endpoint"@, v) == (PeerView { endpoint: Some(v), ..p }),
{
    reveal_strlit("PublicKey");
    reveal_strlit("AllowedIPs");
    reveal_strlit("PersistentKeepalive");
    reveal_strlit("Endpoint");
    assert("PublicKey"@.len() == 9 && "AllowedIPs"@.len() == 10);
    assert("PersistentKeepalive"@.len() == 19 && "Endpoint"@.len() == 8);
}

/// The decimal notation of a number can stand as the value of a key.
pub proof fn lemma_decimal_is_value(n: u16)
    ensures
        is_value(decimal(n as nat)),
{
    lemma_decimal(n as nat);
    let d = decimal(n as nat);
    assert forall|i: int| 0 <= i < d.len() implies #[trigger] d[i] != '\n' && !is_space(d[i]) by {
        assert(is_digit(d[i]));
    }
    assert(!is_space(d[0]));
    assert(!is_space(d[d.len() - 1]));
}

/// Reading one list of lines after another is reading the two as one list.
pub proof fn lemma_run_concat(st: ParseState, a: Seq<Seq<char>>, b: Seq<Seq<char>>)
    ensures
        run(st, a + b) == run(run(st, a), b),
    decreases a.len(),
{
    if a.len() == 0 {
        assert(a + b =~= b);
    } else {
        assert((a + b)[0] == a[0]);
        assert((a + b).drop_first() =~= a.drop_first() + b);
        lemma_run_concat(step(st, a[0]), a.drop_first(), b);
    }
}

/// Reading a list of one line is one step.
pub proof fn lemma_run_one(st: ParseState, line: Seq<char>)
    ensures
        run(st, seq![line]) == step(st, line),
{
    assert(seq![line].drop_first() =~= Seq::<Seq<char>>::empty());
    assert(run(step(st, line), seq![line].drop_first()) == step(st, line));
}

/// The state after the lines of an optional key.
pub open spec fn assign_optional(st: ParseState, key: Seq<char>, value: Option<Seq<char>>)
    -> ParseState {
    match value {
        Some(v) => assign(st, key, v),
        None => st,
    }
}

/// The lines written for an optional key are read as that key, or not at all.
pub proof fn lemma_run_optional(st: ParseState, key: Seq<char>, value: Option<Seq<char>>)
    requires
        is_key(key),
        is_optional_value(value),
    ensures
        run(st, optional_entry(key, value)) == assign_optional(st, key, value),
{
    match value {
        Some(v) => {
            lemma_run_one(st, entry(key, v));
            lemma_step_entry(st, key, v);
        },
        None => {},
    }
}

/// The reader's state after the text of an interface and of the peers `peers`:
/// the last peer's section is still open.
pub open spec fn state_after(i: InterfaceView, peers: Seq<PeerView>) -> ParseState {
    if peers.len() == 0 {
        ParseState {
            interface: Some(i),
            peers: Seq::empty(),
            section: Section::Interface,
            open_peer: None,
            pending_comment: None,
        }
    } else {
        ParseState {
            interface: Some(i),
            peers: peers.drop_last(),
            section: Section::Peer,
            open_peer: Some(peers.last()),
            pending_comment: None,
        }
    }
}

/// Reading the lines written for an interface gives that interface.
pub proof fn lemma_run_interface(i: InterfaceView)
    requires
        canonical_interface(i),
    ensures
        run(initial_state(), interface_lines(i)) == state_after(i, Seq::empty()),
{
    lemma_known_keys();
    lemma_headers();
    lemma_decimal_is_value(i.listen_port);
    lemma_parse_decimal(i.listen_port);
    let port = decimal(i.listen_port as nat);
    let s0 = initial_state();
    let s1 = step(s0, "[Interface]"@);
    assert(s1 == ParseState { section: Section::Interface, ..s0 });
    let s2 = step(s1, entry("PrivateKey"@, i.private_key));
    lemma_step_entry(s1, "PrivateKey"@, i.private_key);
    let s3 = step(s2, entry("Address"@, i.address));
    lemma_step_entry(s2, "Address"@, i.address);
    let s4 = step(s3, entry("ListenPort"@, port));
    lemma_step_entry(s3, "ListenPort"@, port);
    let s5 = assign_optional(s4, "DNS"@, i.dns);
    let s6 = assign_optional(s5, "PostUp"@, i.post_up);
    let s7 = assign_optional(s6, "PostDown"@, i.post_down);
    let i1 = default_interface();
    lemma_set_interface_keys(i1, i.private_key);
    let i2 = InterfaceView { private_key: i.private_key, ..i1 };
    assert(s2 == ParseState { interface: Some(i2), ..s1 });
    lemma_set_interface_keys(i2, i.address);
    let i3 = InterfaceView { address: i.address, ..i2 };
    assert(s3 == ParseState { interface: Some(i3), ..s1 });
    lemma_set_interface_keys(i3, port);
    let i4 = InterfaceView { listen_port: i.listen_port, ..i3 };
    assert(s4 == ParseState { interface: Some(i4), ..s1 });
    let i5 = InterfaceView { dns: i.dns, ..i4 };
    assert(s5 == ParseState { interface: Some(i5), ..s1 }) by {
        if i.dns is Some {
            lemma_set_interface_keys(i4, i.dns->0);
        }
    }
    let i6 = InterfaceView { post_up: i.post_up, ..i5 };
    assert(s6 == ParseState { interface: Some(i6), ..s1 }) by {
        if i.post_up is Some {
            lemma_set_interface_keys(i5, i.post_up->0);
        }
    }
    assert(s7 == ParseState { interface: Some(i), ..s1 }) by {
        if i.post_down is Some {
            lemma_set_interface_keys(i6, i.post_down->0);
        }
    }
    let l0 = seq!["[Interface]"@];
    let l1 = seq![entry("PrivateKey"@, i.private_key)];
    let l2 = seq![entry("Address"@, i.address)];
    let l3 = seq![entry("ListenPort"@, port)];
    let l4 = optional_entry("DNS"@, i.dns);
    let l5 = optional_entry("PostUp"@, i.post_up);
    let l6 = optional_entry("PostDown"@, i.post_down);
    assert(interface_lines(i) =~= l0 + l1 + l2 + l3 + l4 + l5 + l6);
    lemma_run_concat(s0, l0 + l1 + l2 + l3 + l4 + l5, l6);
    lemma_run_concat(s0, l0 + l1 + l2 + l3 + l4, l5);
    lemma_run_concat(s0, l0 + l1 + l2 + l3, l4);
    lemma_run_concat(s0, l0 + l1 + l2, l3);
    lemma_run_concat(s0, l0 + l1, l2);
    lemma_run_concat(s0, l0, l1);
    lemma_run_one(s0, l0[0]);
    lemma_run_one(s1, l1[0]);
    lemma_run_one(s2, l2[0]);
    lemma_run_one(s3, l3[0]);
    lemma_run_optional(s4, "DNS"@, i.dns);
    lemma_run_optional(s5, "PostUp"@, i.post_up);
    lemma_run_optional(s6, "PostDown"@, i.post_down);
}

/// The reader's state after the section of the peer `p`, read from `st`.
pub open spec fn state_with_peer(st: ParseState, p: PeerView) -> ParseState {
    ParseState {
        interface: st.interface,
        peers: close_peer(st).peers,
        section: Section::Peer,
        open_peer: Some(p),
        pending_comment: None,
    }
}

/// Reading the lines written for a peer closes the peer before it and leaves
/// that peer open.
pub proof fn lemma_run_peer(st: ParseState, p: PeerView)
    requires
        canonical_peer(p),
        st.pending_comment is None,
    ensures
        run(st, peer_lines(p)) == state_with_peer(st, p),
{
    lemma_known_keys();
    lemma_headers();
    let keepalive = number_text(p.persistent_keepalive);
    if p.persistent_keepalive is Some {
        lemma_decimal_is_value(p.persistent_keepalive->0);
        lemma_parse_decimal(p.persistent_keepalive->0);
    }
    let l0 = seq![Seq::<char>::empty()];
    let l1 = name_lines(p.name);
    let l2 = seq!["[Peer]"@];
    let l3 = seq![entry("PublicKey"@, p.public_key)];
    let l4 = seq![entry("AllowedIPs"@, p.allowed_ips)];
    let l5 = optional_entry("PersistentKeepalive"@, keepalive);
    let l6 = optional_entry("Endpoint"@, p.endpoint);
    let s1 = step(st, l0[0]);
    lemma_step_blank(st);
    let s2 = run(s1, l1);
    assert(s2 == ParseState { pending_comment: p.name, ..st }) by {
        if p.name is Some {
            lemma_run_one(s1, l1[0]);
            lemma_step_name(s1, p.name->0);
        }
    }
    let s3 = step(s2, "[Peer]"@);
    let p3 = new_peer(p.name);
    let base = state_with_peer(st, p3);
    assert(s3 == base);
    let s4 = step(s3, l3[0]);
    lemma_step_entry(s3, "PublicKey"@, p.public_key);
    lemma_set_peer_keys(p3, p.public_key);
    let p4 = PeerView { public_key: p.public_key, ..p3 };
    assert(s4 == state_with_peer(st, p4));
    let s5 = step(s4, l4[0]);
    lemma_step_entry(s4, "AllowedIPs"@, p.allowed_ips);
    lemma_set_peer_keys(p4, p.allowed_ips);
    let p5 = PeerView { allowed_ips: p.allowed_ips, ..p4 };
    assert(s5 == state_with_peer(st, p5));
    let s6 = assign_optional(s5, "PersistentKeepalive"@, keepalive);
    let p6 = PeerView { persistent_keepalive: p.persistent_keepalive, ..p5 };
    assert(s6 == state_with_peer(st, p6)) by {
        if keepalive is Some {
            lemma_set_peer_keys(p5, keepalive->0);
        }
    }
    let s7 = assign_optional(s6, "Endpoint"@, p.endpoint);
    assert(s7 == state_with_peer(st, p)) by {
        if p.endpoint is Some {
            lemma_set_peer_keys(p6, p.endpoint->0);
        }
    }
    assert(peer_lines(p) =~= l0 + l1 + l2 + l3 + l4 + l5 + l6);
    lemma_run_concat(st, l0 + l1 + l2 + l3 + l4 + l5, l6);
    lemma_run_concat(st, l0 + l1 + l2 + l3 + l4, l5);
    lemma_run_concat(st, l0 + l1 + l2 + l3, l4);
    lemma_run_concat(st, l0 + l1 + l2, l3);
    lemma_run_concat(st, l0 + l1, l2);
    lemma_run_concat(st, l0, l1);
    lemma_run_one(st, l0[0]);
    lemma_run_one(s2, l2[0]);
    lemma_run_one(s3, l3[0]);
    lemma_run_one(s4, l4[0]);
    lemma_run_optional(s5, "PersistentKeepalive"@, keepalive);
    lemma_run_optional(s6, "Endpoint"@, p.endpoint);
}

/// Reading the lines written for an interface and its peers leaves the reader
/// with them all, the last peer still open.
pub proof fn lemma_run_config(i: InterfaceView, peers: Seq<PeerView>)
    requires
        canonical_interface(i),
        forall|k: int| 0 <= k < peers.len() ==> canonical_peer(#[trigger] peers[k]),
    ensures
        run(initial_state(), interface_lines(i) + peers_lines(peers)) == state_after(i, peers),
    decreases peers.len(),
{
    if peers.len() == 0 {
        lemma_run_interface(i);
        assert(interface_lines(i) + peers_lines(peers) =~= interface_lines(i));
    } else {
        let before = peers.drop_last();
        let p = peers.last();
        assert forall|k: int| 0 <= k < before.len() implies canonical_peer(
            #[trigger] before[k],
        ) by {
            assert(before[k] == peers[k]);
        }
        lemma_run_config(i, before);
        let head = interface_lines(i) + peers_lines(before);
        assert(interface_lines(i) + peers_lines(peers) =~= head + peer_lines(p));
        lemma_run_concat(initial_state(), head, peer_lines(p));
        lemma_run_peer(state_after(i, before), p);
        if before.len() > 0 {
            assert(before.drop_last().push(before.last()) =~= before);
        }
        assert(close_peer(state_after(i, before)).peers =~= before);
    }
}

/// Every line in `lines` is free of line feeds.
pub open spec fn single_lines(lines: Seq<Seq<char>>) -> bool {
    forall|k: int| 0 <= k < lines.len() ==> single_line(#[trigger] lines[k])
}

/// Splitting the text made of lines that hold no line feed gives the lines
/// back, and an empty piece after the last line feed.
pub proof fn lemma_split_join(lines: Seq<Seq<char>>)
    requires
        single_lines(lines),
    ensures
        split_lines(join_lines(lines)) == lines.push(Seq::empty()),
    decreases lines.len(),
{
    if lines.len() == 0 {
        assert(join_lines(lines) =~= Seq::<char>::empty());
        assert(split_lines(Seq::<char>::empty()) =~= lines.push(Seq::empty()));
    } else {
        let first = lines[0];
        let rest = lines.drop_first();
        assert(lines =~= seq![first] + rest);
        lemma_join_concat(seq![first], rest);
        lemma_join_one(first);
        let text = join_lines(lines);
        let tail = join_lines(rest);
        assert(text == first + seq!['\n'] + tail);
        assert(single_line(first));
        assert forall|j: int| 0 <= j < first.len() implies #[trigger] text[j] != '\n' by {
            assert(text[j] == first[j]);
        }
        assert(text[first.len() as int] == '\n');
        lemma_find_is(text, '\n', first.len() as int);
        assert(text.take(first.len() as int) =~= first);
        assert(text.skip(first.len() as int + 1) =~= tail);
        assert forall|k: int| 0 <= k < rest.len() implies single_line(#[trigger] rest[k]) by {
            assert(rest[k] == lines[k + 1]);
        }
        lemma_split_join(rest);
        assert(seq![first] + rest.push(Seq::empty()) =~= lines.push(Seq::empty()));
    }
}

/// A line `key = value` holds no line feed.
pub proof fn lemma_entry_single(key: Seq<char>, value: Seq<char>)
    requires
        is_key(key),
        is_value(value),
    ensures
        single_line(entry(key, value)),
{
    reveal_strlit(" = ");
    let e = entry(key, value);
    let n = key.len() as int;
    assert forall|j: int| 0 <= j < e.len() implies #[trigger] e[j] != '\n' by {
        if j < n {
            assert(e[j] == key[j]);
        } else if j >= n + 3 {
            assert(e[j] == value[j - n - 3]);
        }
    }
}

/// The lines written for an optional key hold no line feed.
pub proof fn lemma_optional_single(key: Seq<char>, value: Option<Seq<char>>)
    requires
        is_key(key),
        is_optional_value(value),
    ensures
        single_lines(optional_entry(key, value)),
{
    if value is Some {
        lemma_entry_single(key, value->0);
    }
}

/// The lines written for a configuration in canonical form hold no line feed.
pub proof fn lemma_config_lines_single(i: InterfaceView, peers: Seq<PeerView>)
    requires
        canonical_interface(i),
        forall|k: int| 0 <= k < peers.len() ==> canonical_peer(#[trigger] peers[k]),
    ensures
        single_lines(interface_lines(i) + peers_lines(peers)),
    decreases peers.len(),
{
    lemma_known_keys();
    if peers.len() == 0 {
        reveal_strlit("[Interface]");
        lemma_decimal_is_value(i.listen_port);
        lemma_entry_single("PrivateKey"@, i.private_key);
        lemma_entry_single("Address"@, i.address);
        lemma_entry_single("ListenPort"@, decimal(i.listen_port as nat));
        lemma_optional_single("DNS"@, i.dns);
        lemma_optional_single("PostUp"@, i.post_up);
        lemma_optional_single("PostDown"@, i.post_down);
        assert(interface_lines(i) + peers_lines(peers) =~= interface_lines(i));
    } else {
        let before = peers.drop_last();
        let p = peers.last();
        assert forall|k: int| 0 <= k < before.len() implies canonical_peer(
            #[trigger] before[k],
        ) by {
            assert(before[k] == peers[k]);
        }
        lemma_config_lines_single(i, before);
        reveal_strlit("[Peer]");
        reveal_strlit("# ");
        let keepalive = number_text(p.persistent_keepalive);
        if p.persistent_keepalive is Some {
            lemma_decimal_is_value(p.persistent_keepalive->0);
        }
        lemma_entry_single("PublicKey"@, p.public_key);
        lemma_entry_single("AllowedIPs"@, p.allowed_ips);
        lemma_optional_single("PersistentKeepalive"@, keepalive);
        lemma_optional_single("Endpoint"@, p.endpoint);
        if p.name is Some {
            let n = p.name->0;
            let line = "# "@ + n;
            assert forall|j: int| 0 <= j < line.len() implies #[trigger] line[j] != '\n' by {
                if j >= 2 {
                    assert(line[j] == n[j - 2]);
                }
            }
        }
        assert(single_lines(peer_lines(p)));
        let head = interface_lines(i) + peers_lines(before);
        assert(interface_lines(i) + peers_lines(peers) =~= head + peer_lines(p));
    }
}

/// Writing a configuration in canonical form and reading the text gives the
/// configuration back.
pub proof fn lemma_roundtrip_canonical(c: ConfigView)
    requires
        canonical(c),
    ensures
        parse_spec(c.name, c.path, serialize_spec(c)) == Ok::<ConfigView, WgErrorView>(c),
{
    let lines = config_lines(c);
    lemma_config_lines_single(c.interface, c.peers);
    lemma_split_join(lines);
    lemma_run_config(c.interface, c.peers);
    let st = state_after(c.interface, c.peers);
    lemma_run_concat(initial_state(), lines, seq![Seq::<char>::empty()]);
    assert(lines.push(Seq::empty()) =~= lines + seq![Seq::<char>::empty()]);
    lemma_run_one(st, Seq::empty());
    lemma_step_blank(st);
    if c.peers.len() > 0 {
        assert(c.peers.drop_last().push(c.peers.last()) =~= c.peers);
    }
    assert(close_peer(st).peers =~= c.peers);
}

/// Every text that the reader holds can be written to a file unchanged.
pub open spec fn canonical_state(st: ParseState) -> bool {
    &&& match st.interface {
        Some(i) => canonical_interface(i),
        None => true,
    }
    &&& forall|k: int| 0 <= k < st.peers.len() ==> canonical_peer(#[trigger] st.peers[k])
    &&& match st.open_peer {
        Some(p) => canonical_peer(p),
        None => true,
    }
    &&& match st.pending_comment {
        Some(n) => is_name(n),
        None => true,
    }
}

/// What `trim` returns of a text without line feed can stand as a value.
pub proof fn lemma_trim_is_value(s: Seq<char>)
    requires
        single_line(s),
    ensures
        is_value(trim(s)),
{
    lemma_strip(s, CharClass::Space);
    let t = trim(s);
    let a = leading(s, CharClass::Space) as int;
    assert forall|j: int| 0 <= j < t.len() implies #[trigger] t[j] != '\n' by {
        assert(t[j] == s[a + j]);
    }
}

/// One line keeps the reader's texts in canonical form.
pub proof fn lemma_step_canonical(st: ParseState, raw: Seq<char>)
    requires
        canonical_state(st),
        single_line(raw),
    ensures
        canonical_state(step(st, raw)),
{
    lemma_trim_is_value(raw);
    let line = trim(raw);
    if line.len() == 0 {
    } else if is_comment(line) {
        let text = comment_text(line);
        let from: int = if line.len() > 1 && line[1] == ' ' {
            2
        } else {
            1
        };
        assert forall|j: int| 0 <= j < text.len() implies #[trigger] text[j] != '\n' by {
            assert(text[j] == line[from + j]);
        }
        if text.len() > 0 {
            assert(text.last() == line.last());
        }
    } else if is_header(line) {
        let closed = close_peer(st);
        assert forall|k: int| 0 <= k < closed.peers.len() implies canonical_peer(
            #[trigger] closed.peers[k],
        ) by {
            if k < st.peers.len() {
                assert(closed.peers[k] == st.peers[k]);
            }
        }
        assert(is_value(Seq::<char>::empty()));
    } else {
        let at = find(line, '=') as int;
        if at < line.len() {
            let left = line.take(at);
            let right = line.skip(at + 1);
            assert forall|j: int| 0 <= j < right.len() implies #[trigger] right[j] != '\n' by {
                assert(right[j] == line[at + 1 + j]);
            }
            lemma_trim_is_value(right);
            assert(is_value(Seq::<char>::empty()));
        }
    }
}

/// The lines of a text hold no line feed.
pub proof fn lemma_split_single(text: Seq<char>)
    ensures
        single_lines(split_lines(text)),
    decreases text.len(),
{
    lemma_find(text, '\n');
    let n = find(text, '\n') as int;
    if n >= text.len() {
        assert(single_line(text));
    } else {
        let first = text.take(n);
        let rest = split_lines(text.skip(n + 1));
        lemma_split_single(text.skip(n + 1));
        assert forall|j: int| 0 <= j < first.len() implies #[trigger] first[j] != '\n' by {
            assert(first[j] == text[j]);
        }
        let lines = split_lines(text);
        assert forall|k: int| 0 <= k < lines.len() implies single_line(#[trigger] lines[k]) by {
            if k > 0 {
                assert(lines[k] == rest[k - 1]);
            }
        }
    }
}

/// Lines without line feed keep the reader's texts in canonical form.
pub proof fn lemma_run_canonical(st: ParseState, lines: Seq<Seq<char>>)
    requires
        canonical_state(st),
        single_lines(lines),
    ensures
        canonical_state(run(st, lines)),
    decreases lines.len(),
{
    if lines.len() > 0 {
        lemma_step_canonical(st, lines[0]);
        let rest = lines.drop_first();
        assert forall|k: int| 0 <= k < rest.len() implies single_line(#[trigger] rest[k]) by {
            assert(rest[k] == lines[k + 1]);
        }
        lemma_run_canonical(step(st, lines[0]), rest);
    }
}

/// Whatever configuration the reader returns is in canonical form.
pub proof fn lemma_parse_canonical(name: Seq<char>, path: Seq<char>, content: Seq<char>)
    ensures
        match parse_spec(name, path, content) {
            Ok(c) => canonical(c),
            Err(_) => true,
        },
{
    lemma_split_single(content);
    lemma_run_canonical(initial_state(), split_lines(content));
    let st = run(initial_state(), split_lines(content));
    let closed = close_peer(st);
    assert forall|k: int| 0 <= k < closed.peers.len() implies canonical_peer(
        #[trigger] closed.peers[k],
    ) by {
        if k < st.peers.len() {
            assert(closed.peers[k] == st.peers[k]);
        }
    }
}

/// Reading a text, writing what was read and reading that again gives the
/// same configuration: name, path, interface and every peer, in order.
pub proof fn lemma_roundtrip(name: Seq<char>, path: Seq<char>, content: Seq<char>)
    ensures
        match parse_spec(name, path, content) {
            Ok(c) => parse_spec(name, path, serialize_spec(c)) == Ok::<
                ConfigView,
                WgErrorView,
            >(c),
            Err(_) => true,
        },
{
    lemma_parse_canonical(name, path, content);
    match parse_spec(name, path, content) {
        Ok(c) => {
            lemma_roundtrip_canonical(c);
        },
        Err(_) => {},
    }
}

/// The written text is stable: writing what was read from a written text
/// gives that text again.
pub proof fn lemma_serialize_stable(name: Seq<char>, path: Seq<char>, content: Seq<char>)
    ensures
        match parse_spec(name, path, content) {
            Ok(c) => match parse_spec(name, path, serialize_spec(c)) {
                Ok(again) => serialize_spec(again) == serialize_spec(c),
                Err(_) => false,
            },
            Err(_) => true,
        },
{
    lemma_roundtrip(name, path, content);
}

} // verus!
