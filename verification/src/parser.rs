//! Reading a configuration text.
//!
//! The text is read line by line, in one pass, by a small state machine: the
//! section that the line stands in, the peer whose section is open, and the
//! last comment that no section has taken yet. `step` says what one line does
//! to that state, `parse_spec` what a whole text denotes.

use vstd::prelude::*;
use crate::model::{
    default_interface, new_peer, peer_views, text_of, ConfigView, Interface, InterfaceView,
    ParseError, Peer, PeerView, WgConfig, WgError, WgErrorView, DEFAULT_LISTEN_PORT,
};
use crate::number::{parse_number, parse_u16};
use crate::text::{
    find, find_char, range_is, split, strip, strip_range, to_chars, to_string, trim, CharClass,
};

verus! {

/// The kind of section that a line stands in.
#[derive(Debug, Clone, Copy, PartialEq, Eq)]
pub enum Section {
    /// Before the first section header.
    Outside,
    /// Under `[Interface]`.
    Interface,
    /// Under `[Peer]`.
    Peer,
    /// Under a header of any other name.
    Other,
}

/// What the reader knows after some lines.
pub struct ParseState {
    /// The interface, once a key of its section was seen.
    pub interface: Option<InterfaceView>,
    /// The peers whose sections are closed, in file order.
    pub peers: Seq<PeerView>,
    /// The section of the next line.
    pub section: Section,
    /// The peer whose section is open.
    pub open_peer: Option<PeerView>,
    /// The last comment that no section header has taken.
    pub pending_comment: Option<Seq<char>>,
}

/// The state before the first line.
pub open spec fn initial_state() -> ParseState {
    ParseState {
        interface: None,
        peers: Seq::empty(),
        section: Section::Outside,
        open_peer: None,
        pending_comment: None,
    }
}

/// Whether the trimmed line is a comment.
pub open spec fn is_comment(line: Seq<char>) -> bool {
    line.len() > 0 && line[0] == '#'
}

/// The text of a comment line: what follows the `#` and, where there is one,
/// the single space after it.
pub open spec fn comment_text(line: Seq<char>) -> Seq<char> {
    if line.len() > 1 && line[1] == ' ' {
        line.skip(2)
    } else {
        line.skip(1)
    }
}

/// Whether the trimmed line is a section header.
pub open spec fn is_header(line: Seq<char>) -> bool {
    line.len() > 0 && line[0] == '[' && line.last() == ']'
}

/// The section that the header `line` opens.
pub open spec fn section_of(line: Seq<char>) -> Section {
    let name = strip(line, CharClass::Bracket);
    if name == "Peer"@ {
        Section::Peer
    } else if name == "Interface"@ {
        Section::Interface
    } else {
        Section::Other
    }
}

/// The state with the open peer, if any, moved to the end of the closed ones.
pub open spec fn close_peer(st: ParseState) -> ParseState {
    match st.open_peer {
        Some(p) => ParseState { peers: st.peers.push(p), open_peer: None, ..st },
        None => st,
    }
}

/// The state after the section header `line`: the open peer is closed, the
/// pending comment is used up, and a `[Peer]` header opens a peer under it.
pub open spec fn enter_section(st: ParseState, line: Seq<char>) -> ParseState {
    let closed = close_peer(st);
    match section_of(line) {
        Section::Peer => ParseState {
            section: Section::Peer,
            open_peer: Some(new_peer(st.pending_comment)),
            pending_comment: None,
            ..closed
        },
        other => ParseState { section: other, pending_comment: None, ..closed },
    }
}

/// The port that the text `value` sets: its number, or the default.
pub open spec fn port_of(value: Seq<char>) -> u16 {
    match parse_u16(value) {
        Some(port) => port,
        None => DEFAULT_LISTEN_PORT,
    }
}

/// The interface `i` after `key = value`. An unknown key changes nothing.
pub open spec fn set_interface_key(i: InterfaceView, key: Seq<char>, value: Seq<char>)
    -> InterfaceView {
    if key == "PrivateKey"@ {
        InterfaceView { private_key: value, ..i }
    } else if key == "Address"@ {
        InterfaceView { address: value, ..i }
    } else if key == "ListenPort"@ {
        InterfaceView { listen_port: port_of(value), ..i }
    } else if key == "DNS"@ {
        InterfaceView { dns: Some(value), ..i }
    } else if key == "PostUp"@ {
        InterfaceView { post_up: Some(value), ..i }
    } else if key == "PostDown"@ {
        InterfaceView { post_down: Some(value), ..i }
    } else {
        i
    }
}

/// The peer `p` after `key = value`. An unknown key changes nothing.
pub open spec fn set_peer_key(p: PeerView, key: Seq<char>, value: Seq<char>) -> PeerView {
    if key == "PublicKey"@ {
        PeerView { public_key: value, ..p }
    } else if key == "AllowedIPs"@ {
        PeerView { allowed_ips: value, ..p }
    } else if key == "PersistentKeepalive"@ {
        PeerView { persistent_keepalive: parse_u16(value), ..p }
    } else if key == "Endpoint"@ {
        PeerView { endpoint: Some(value), ..p }
    } else {
        p
    }
}

/// The interface of `st`, or the default one where no key was seen yet.
pub open spec fn interface_or_default(st: ParseState) -> InterfaceView {
    match st.interface {
        Some(i) => i,
        None => default_interface(),
    }
}

/// The state after `key = value`. Under `[Interface]` the line makes sure that
/// the interface exists and sets the key in it; under `[Peer]` it sets the key
/// in the open peer; anywhere else it does nothing.
pub open spec fn assign(st: ParseState, key: Seq<char>, value: Seq<char>) -> ParseState {
    match st.section {
        Section::Interface => ParseState {
            interface: Some(set_interface_key(interface_or_default(st), key, value)),
            ..st
        },
        Section::Peer => match st.open_peer {
            Some(p) => ParseState { open_peer: Some(set_peer_key(p, key, value)), ..st },
            None => st,
        },
        _ => st,
    }
}

/// The state after a trimmed line that is neither blank, nor a comment, nor a
/// header: split at the first `=`, or ignored where it holds none.
pub open spec fn assign_line(st: ParseState, line: Seq<char>) -> ParseState {
    let at = find(line, '=') as int;
    if at < line.len() {
        assign(st, trim(line.take(at)), trim(line.skip(at + 1)))
    } else {
        st
    }
}

/// The state after one more line of the text.
pub open spec fn step(st: ParseState, raw: Seq<char>) -> ParseState {
    let line = trim(raw);
    if line.len() == 0 {
        st
    } else if is_comment(line) {
        ParseState { pending_comment: Some(comment_text(line)), ..st }
    } else if is_header(line) {
        enter_section(st, line)
    } else {
        assign_line(st, line)
    }
}

/// The lines of `text`: the pieces between its line feeds. A carriage return
/// before a line feed is left to the line, whose white space `step` trims.
pub open spec fn split_lines(text: Seq<char>) -> Seq<Seq<char>> {
    split(text, '\n')
}

/// The state after the lines `lines`, read in order from the state `st`.
pub open spec fn run(st: ParseState, lines: Seq<Seq<char>>) -> ParseState
    decreases lines.len(),
{
    if lines.len() == 0 {
        st
    } else {
        run(step(st, lines[0]), lines.drop_first())
    }
}

/// What the reader returns at the end of the text: the open peer is closed, and
/// a text that gave no interface is refused.
pub open spec fn finish(st: ParseState, name: Seq<char>, path: Seq<char>) -> Result<
    ConfigView,
    WgErrorView,
> {
    match st.interface {
        Some(interface) => Ok(
            ConfigView { name, path, interface, peers: close_peer(st).peers },
        ),
        None => Err(WgErrorView::Parse(ParseError::MissingInterfaceSection)),
    }
}

/// What the text `content` denotes, as the configuration `name` stored at `path`.
pub open spec fn parse_spec(name: Seq<char>, path: Seq<char>, content: Seq<char>) -> Result<
    ConfigView,
    WgErrorView,
> {
    finish(run(initial_state(), split_lines(content)), name, path)
}

/// The view of what reading a configuration returned.
pub open spec fn outcome_view(r: Result<WgConfig, WgError>) -> Result<ConfigView, WgErrorView> {
    match r {
        Ok(config) => Ok(config@),
        Err(e) => Err(e@),
    }
}

/// The reader's state in executable form.
struct Reader {
    interface: Option<Interface>,
    peers: Vec<Peer>,
    section: Section,
    current_peer: Option<Peer>,
    last_comment: Option<String>,
}

/// The view of an optional interface.
pub open spec fn interface_of(i: Option<Interface>) -> Option<InterfaceView> {
    match i {
        Some(i) => Some(i@),
        None => None,
    }
}

/// The view of an optional peer.
pub open spec fn peer_of(p: Option<Peer>) -> Option<PeerView> {
    match p {
        Some(p) => Some(p@),
        None => None,
    }
}

impl View for Reader {
    type V = ParseState;

    closed spec fn view(&self) -> ParseState {
        ParseState {
            interface: interface_of(self.interface),
            peers: peer_views(self.peers@),
            section: self.section,
            open_peer: peer_of(self.current_peer),
            pending_comment: text_of(self.last_comment),
        }
    }
}

/// Sets in `interface` the key spelled by `chars[ka..kb]` to the value
/// `chars[va..vb]`.
fn set_interface_field(
    interface: &mut Interface,
    chars: &Vec<char>,
    ka: usize,
    kb: usize,
    va: usize,
    vb: usize,
)
    requires
        ka <= kb <= chars.len(),
        va <= vb <= chars.len(),
    ensures
        final(interface)@ == set_interface_key(
            old(interface)@,
            chars@.subrange(ka as int, kb as int),
            chars@.subrange(va as int, vb as int),
        ),
{
    if range_is(chars, ka, kb, "PrivateKey") {
        interface.private_key = to_string(chars, va, vb);
    } else if range_is(chars, ka, kb, "Address") {
        interface.address = to_string(chars, va, vb);
    } else if range_is(chars, ka, kb, "ListenPort") {
        interface.listen_port = match parse_number(chars, va, vb) {
            Some(port) => port,
            None => DEFAULT_LISTEN_PORT,
        };
    } else if range_is(chars, ka, kb, "DNS") {
        interface.dns = Some(to_string(chars, va, vb));
    } else if range_is(chars, ka, kb, "PostUp") {
        interface.post_up = Some(to_string(chars, va, vb));
    } else if range_is(chars, ka, kb, "PostDown") {
        interface.post_down = Some(to_string(chars, va, vb));
    }
}

/// Sets in `peer` the key spelled by `chars[ka..kb]` to the value
/// `chars[va..vb]`.
fn set_peer_field(
    peer: &mut Peer,
    chars: &Vec<char>,
    ka: usize,
    kb: usize,
    va: usize,
    vb: usize,
)
    requires
        ka <= kb <= chars.len(),
        va <= vb <= chars.len(),
    ensures
        final(peer)@ == set_peer_key(
            old(peer)@,
            chars@.subrange(ka as int, kb as int),
            chars@.subrange(va as int, vb as int),
        ),
{
    if range_is(chars, ka, kb, "PublicKey") {
        peer.public_key = to_string(chars, va, vb);
    } else if range_is(chars, ka, kb, "AllowedIPs") {
        peer.allowed_ips = to_string(chars, va, vb);
    } else if range_is(chars, ka, kb, "PersistentKeepalive") {
        peer.persistent_keepalive = parse_number(chars, va, vb);
    } else if range_is(chars, ka, kb, "Endpoint") {
        peer.endpoint = Some(to_string(chars, va, vb));
    }
}

impl Reader {
    fn new() -> (r: Reader)
        ensures
            r@ == initial_state(),
    {
        let r = Reader {
            interface: None,
            peers: Vec::new(),
            section: Section::Outside,
            current_peer: None,
            last_comment: None,
        };
        assert(peer_views(r.peers@) =~= Seq::empty());
        r
    }

    /// Moves the open peer, if any, to the closed ones.
    fn close(&mut self)
        ensures
            final(self)@ == close_peer(old(self)@),
    {
        match self.current_peer.take() {
            Some(peer) => {
                self.peers.push(peer);
                assert(peer_views(self.peers@) =~= peer_views(old(self).peers@).push(peer@));
            },
            None => {},
        }
    }

    /// Reads the section header `chars[a..b]`.
    fn header(&mut self, chars: &Vec<char>, a: usize, b: usize)
        requires
            a <= b <= chars.len(),
        ensures
            final(self)@ == enter_section(old(self)@, chars@.subrange(a as int, b as int)),
    {
        let comment = self.last_comment.take();
        self.close();
        let (c, d) = strip_range(chars, a, b, CharClass::Bracket);
        if range_is(chars, c, d, "Peer") {
            self.section = Section::Peer;
            self.current_peer = Some(
                Peer {
                    public_key: String::new(),
                    allowed_ips: String::new(),
                    persistent_keepalive: None,
                    endpoint: None,
                    name: comment,
                },
            );
        } else if range_is(chars, c, d, "Interface") {
            self.section = Section::Interface;
        } else {
            self.section = Section::Other;
        }
    }

    /// Reads the line `chars[a..b]`, which is trimmed and is neither blank,
    /// nor a comment, nor a header.
    fn key_value(&mut self, chars: &Vec<char>, a: usize, b: usize)
        requires
            a <= b <= chars.len(),
        ensures
            final(self)@ == assign_line(old(self)@, chars@.subrange(a as int, b as int)),
    {
        let ghost line = chars@.subrange(a as int, b as int);
        let at = find_char(chars, a, b, '=');
        if at >= b {
            return ;
        }
        let (ka, kb) = strip_range(chars, a, at, CharClass::Space);
        let (va, vb) = strip_range(chars, at + 1, b, CharClass::Space);
        assert(chars@.subrange(a as int, at as int) =~= line.take(at - a));
        assert(chars@.subrange(at + 1, b as int) =~= line.skip(at - a + 1));
        match self.section {
            Section::Interface => {
                let mut interface = match self.interface.take() {
                    Some(interface) => interface,
                    None => Interface::default(),
                };
                set_interface_field(&mut interface, chars, ka, kb, va, vb);
                self.interface = Some(interface);
            },
            Section::Peer => {
                match self.current_peer.take() {
                    Some(peer) => {
                        let mut peer = peer;
                        set_peer_field(&mut peer, chars, ka, kb, va, vb);
                        self.current_peer = Some(peer);
                    },
                    None => {},
                }
            },
            _ => {},
        }
    }

    /// Reads the line `chars[lo..hi]`.
    fn feed(&mut self, chars: &Vec<char>, lo: usize, hi: usize)
        requires
            lo <= hi <= chars.len(),
        ensures
            final(self)@ == step(old(self)@, chars@.subrange(lo as int, hi as int)),
    {
        let (a, b) = strip_range(chars, lo, hi, CharClass::Space);
        let ghost line = chars@.subrange(a as int, b as int);
        if a == b {
            return ;
        }
        assert(line[0] == chars@[a as int]);
        assert(line.last() == chars@[b - 1]);
        if chars[a] == '#' {
            let from: usize = if a + 1 < b && chars[a + 1] == ' ' {
                a + 2
            } else {
                a + 1
            };
            assert(line.len() > 1 ==> line[1] == chars@[a + 1]);
            assert(chars@.subrange(from as int, b as int) =~= comment_text(line));
            self.last_comment = Some(to_string(chars, from, b));
        } else if chars[a] == '[' && chars[b - 1] == ']' {
            self.header(chars, a, b);
        } else {
            self.key_value(chars, a, b);
        }
    }

    /// Ends the reading.
    fn finish(self, name: &str, path: &str) -> (r: Result<WgConfig, WgError>)
        ensures
            outcome_view(r) == finish(self@, name@, path@),
    {
        let mut reader = self;
        reader.close();
        match reader.interface {
            Some(interface) => Ok(
                WgConfig {
                    name: name.to_owned(),
                    path: path.to_owned(),
                    interface,
                    peers: reader.peers,
                },
            ),
            None => Err(WgError::Parse(ParseError::MissingInterfaceSection)),
        }
    }
}

/// Reads the configuration text `content`, as the configuration `name` stored
/// at `path`.
///
/// Lines that the format does not know, unknown keys and numbers that cannot be
/// read are passed over; the one text that is refused is a text that names no
/// key under `[Interface]`.
pub fn parse_config_content(name: &str, path: &str, content: &str) -> (r: Result<
    WgConfig,
    WgError,
>)
    ensures
        outcome_view(r) == parse_spec(name@, path@, content@),
{
    let chars = to_chars(content);
    let n = chars.len();
    let mut reader = Reader::new();
    let mut pos: usize = 0;
    let mut done = false;
    assert(chars@.skip(0) =~= chars@);
    while !done
        invariant
            n == chars.len(),
            chars@ == content@,
            pos <= n,
            !done ==> run(initial_state(), split_lines(chars@)) == run(
                reader@,
                split_lines(chars@.skip(pos as int)),
            ),
            done ==> run(initial_state(), split_lines(chars@)) == reader@,
        decreases n - pos + (if done { 0int } else { 1int }),
    {
        let ghost rest = chars@.skip(pos as int);
        let ghost before = reader@;
        let end = find_char(&chars, pos, n, '\n');
        assert(chars@.subrange(pos as int, n as int) =~= rest);
        assert(chars@.subrange(pos as int, end as int) =~= rest.take(end - pos));
        reader.feed(&chars, pos, end);
        proof {
            let lines = split_lines(rest);
            assert(lines[0] == rest.take(end - pos));
            if end < n {
                assert(rest.skip(end - pos + 1) =~= chars@.skip(end + 1));
                assert(lines.drop_first() =~= split_lines(chars@.skip(end + 1)));
            } else {
                assert(rest.take(end - pos) =~= rest);
                assert(lines.drop_first() =~= Seq::<Seq<char>>::empty());
                assert(run(reader@, lines.drop_first()) == reader@);
            }
            assert(run(before, lines) == run(reader@, lines.drop_first()));
        }
        if end < n {
            pos = end + 1;
        } else {
            done = true;
        }
    }
    reader.finish(name, path)
}

/// What loading the configuration `name` from `path` gives, where `content`
/// is the text of the file, or nothing where no such file exists.
pub open spec fn load_spec(name: Seq<char>, path: Seq<char>, content: Option<Seq<char>>)
    -> Result<ConfigView, WgErrorView> {
    match content {
        Some(content) => parse_spec(name, path, content),
        None => Err(WgErrorView::NotFound(name)),
    }
}

/// Loads the configuration `name` from what was found at `path`: the text of
/// the file, or nothing where no such file exists.
pub fn parse_config(name: &str, path: &str, content: Option<&str>) -> (r: Result<
    WgConfig,
    WgError,
>)
    ensures
        outcome_view(r) == load_spec(
            name@,
            path@,
            match content {
                Some(content) => Some(content@),
                None => None,
            },
        ),
{
    match content {
        Some(content) => parse_config_content(name, path, content),
        None => Err(WgError::NotFound(name.to_owned())),
    }
}

} // verus!
