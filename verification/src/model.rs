//! The data model of a tunnel configuration, with the mathematical view of
//! each type that the contracts of this crate speak of.

use vstd::prelude::*;

verus! {

/// The port that an interface listens on when its file names none.
pub const DEFAULT_LISTEN_PORT: u16 = 51820;

/// The local end of a tunnel.
#[derive(Debug, Clone, PartialEq, Eq)]
pub struct Interface {
    pub private_key: String,
    pub address: String,
    pub listen_port: u16,
    pub dns: Option<String>,
    pub post_up: Option<String>,
    pub post_down: Option<String>,
}

/// One remote end of a tunnel.
#[derive(Debug, Clone, PartialEq, Eq)]
pub struct Peer {
    pub public_key: String,
    pub allowed_ips: String,
    pub persistent_keepalive: Option<u16>,
    pub endpoint: Option<String>,
    /// Taken from the comment above the peer's section.
    pub name: Option<String>,
}

/// A named configuration: one interface and its peers, in file order.
#[derive(Debug, Clone, PartialEq, Eq)]
pub struct WgConfig {
    pub name: String,
    pub path: String,
    pub interface: Interface,
    pub peers: Vec<Peer>,
}

/// What the running tunnel reports of one peer.
#[derive(Debug, Clone, PartialEq, Eq)]
pub struct PeerStatus {
    pub public_key: String,
    pub endpoint: Option<String>,
    pub latest_handshake: Option<String>,
    pub transfer_rx: Option<String>,
    pub transfer_tx: Option<String>,
}

/// Why a configuration text could not be read.
#[derive(Debug, Clone, Copy, PartialEq, Eq)]
pub enum ParseError {
    /// The text holds no key of an `[Interface]` section.
    MissingInterfaceSection,
}

/// Why an operation on a configuration failed.
#[derive(Debug, Clone, PartialEq, Eq)]
pub enum WgError {
    /// Reading or writing a file failed; the text is the cause.
    Io(String),
    /// The configuration text was refused.
    Parse(ParseError),
    /// A command ended in failure; the text is what it reported.
    CommandFailed(String),
    /// No configuration of this name exists.
    NotFound(String),
}

/// Why a change to the peers of a configuration failed.
#[derive(Debug, Clone, Copy, PartialEq, Eq)]
pub enum PeerError {
    /// No peer has the public key that was asked for.
    PeerNotFound,
}

/// The view of an optional text.
pub open spec fn text_of(s: Option<String>) -> Option<Seq<char>> {
    match s {
        Some(s) => Some(s@),
        None => None,
    }
}

/// The view of an [`Interface`].
pub struct InterfaceView {
    pub private_key: Seq<char>,
    pub address: Seq<char>,
    pub listen_port: u16,
    pub dns: Option<Seq<char>>,
    pub post_up: Option<Seq<char>>,
    pub post_down: Option<Seq<char>>,
}

/// The view of a [`Peer`].
pub struct PeerView {
    pub public_key: Seq<char>,
    pub allowed_ips: Seq<char>,
    pub persistent_keepalive: Option<u16>,
    pub endpoint: Option<Seq<char>>,
    pub name: Option<Seq<char>>,
}

/// The view of a [`WgConfig`].
pub struct ConfigView {
    pub name: Seq<char>,
    pub path: Seq<char>,
    pub interface: InterfaceView,
    pub peers: Seq<PeerView>,
}

/// The view of a [`PeerStatus`].
pub struct PeerStatusView {
    pub public_key: Seq<char>,
    pub endpoint: Option<Seq<char>>,
    pub latest_handshake: Option<Seq<char>>,
    pub transfer_rx: Option<Seq<char>>,
    pub transfer_tx: Option<Seq<char>>,
}

/// The view of a [`WgError`].
pub enum WgErrorView {
    Io(Seq<char>),
    Parse(ParseError),
    CommandFailed(Seq<char>),
    NotFound(Seq<char>),
}

impl View for Interface {
    type V = InterfaceView;

    open spec fn view(&self) -> InterfaceView {
        InterfaceView {
            private_key: self.private_key@,
            address: self.address@,
            listen_port: self.listen_port,
            dns: text_of(self.dns),
            post_up: text_of(self.post_up),
            post_down: text_of(self.post_down),
        }
    }
}

impl View for Peer {
    type V = PeerView;

    open spec fn view(&self) -> PeerView {
        PeerView {
            public_key: self.public_key@,
            allowed_ips: self.allowed_ips@,
            persistent_keepalive: self.persistent_keepalive,
            endpoint: text_of(self.endpoint),
            name: text_of(self.name),
        }
    }
}

/// The views of a sequence of peers.
pub open spec fn peer_views(peers: Seq<Peer>) -> Seq<PeerView> {
    Seq::new(peers.len(), |i: int| peers[i]@)
}

impl View for WgConfig {
    type V = ConfigView;

    open spec fn view(&self) -> ConfigView {
        ConfigView {
            name: self.name@,
            path: self.path@,
            interface: self.interface@,
            peers: peer_views(self.peers@),
        }
    }
}

impl View for PeerStatus {
    type V = PeerStatusView;

    open spec fn view(&self) -> PeerStatusView {
        PeerStatusView {
            public_key: self.public_key@,
            endpoint: text_of(self.endpoint),
            latest_handshake: text_of(self.latest_handshake),
            transfer_rx: text_of(self.transfer_rx),
            transfer_tx: text_of(self.transfer_tx),
        }
    }
}

impl View for WgError {
    type V = WgErrorView;

    open spec fn view(&self) -> WgErrorView {
        match self {
            WgError::Io(cause) => WgErrorView::Io(cause@),
            WgError::Parse(e) => WgErrorView::Parse(*e),
            WgError::CommandFailed(report) => WgErrorView::CommandFailed(report@),
            WgError::NotFound(name) => WgErrorView::NotFound(name@),
        }
    }
}

/// An interface as it is before its section names any key.
pub open spec fn default_interface() -> InterfaceView {
    InterfaceView {
        private_key: Seq::empty(),
        address: Seq::empty(),
        listen_port: DEFAULT_LISTEN_PORT,
        dns: None,
        post_up: None,
        post_down: None,
    }
}

/// A peer as it is when its section opens under the comment `name`.
pub open spec fn new_peer(name: Option<Seq<char>>) -> PeerView {
    PeerView {
        public_key: Seq::empty(),
        allowed_ips: Seq::empty(),
        persistent_keepalive: None,
        endpoint: None,
        name,
    }
}

impl Default for Interface {
    fn default() -> (i: Interface)
        ensures
            i@ == default_interface(),
    {
        Interface {
            private_key: String::new(),
            address: String::new(),
            listen_port: DEFAULT_LISTEN_PORT,
            dns: None,
            post_up: None,
            post_down: None,
        }
    }
}

impl Default for Peer {
    fn default() -> (p: Peer)
        ensures
            p@ == new_peer(None),
    {
        Peer {
            public_key: String::new(),
            allowed_ips: String::new(),
            persistent_keepalive: None,
            endpoint: None,
            name: None,
        }
    }
}

impl ParseError {
    /// The text of the message.
    pub open spec fn message_text(self) -> Seq<char> {
        "No [Interface] section found"@
    }

    /// The message that describes the error.
    pub fn message(&self) -> (m: String)
        ensures
            m@ == self.message_text(),
    {
        "No [Interface] section found".to_owned()
    }
}

impl WgErrorView {
    /// The text of the message.
    pub open spec fn message_text(self) -> Seq<char> {
        match self {
            WgErrorView::Io(cause) => "IO error: "@ + cause,
            WgErrorView::Parse(e) => "Parse error: "@ + e.message_text(),
            WgErrorView::CommandFailed(report) => "Command execution failed: "@ + report,
            WgErrorView::NotFound(name) => "Config not found: "@ + name,
        }
    }
}

impl WgError {
    /// The message that describes the error.
    pub fn message(&self) -> (m: String)
        ensures
            m@ == self@.message_text(),
    {
        match self {
            WgError::Io(cause) => "IO error: ".to_owned().concat(cause.as_str()),
            WgError::Parse(e) => "Parse error: ".to_owned().concat(e.message().as_str()),
            WgError::CommandFailed(report) => "Command execution failed: ".to_owned().concat(
                report.as_str(),
            ),
            WgError::NotFound(name) => "Config not found: ".to_owned().concat(name.as_str()),
        }
    }
}

impl PeerError {
    /// The text of the message.
    pub open spec fn message_text(self) -> Seq<char> {
        "Peer not found"@
    }

    /// The message that describes the error.
    pub fn message(&self) -> (m: String)
        ensures
            m@ == self.message_text(),
    {
        "Peer not found".to_owned()
    }
}

} // verus!
