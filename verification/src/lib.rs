//! Reading, editing and writing WireGuard tunnel configuration files.
//!
//! A configuration file is an INI-like text: one `[Interface]` section and any
//! number of `[Peer]` sections, each peer named by the comment above it. The
//! reader is lenient, the writer is deterministic, and what the writer wrote
//! the reader reads back unchanged.
//!
//! - [`model`]: the interface, the peers, the configuration, the errors.
//! - [`parser`]: from text to configuration, one line at a time.
//! - [`serializer`]: from configuration to text.
//! - [`roundtrip`]: the proof that reading undoes writing.
//! - [`tolerance`]: what the reader passes over, and what it refuses.
//! - [`peers`]: adding, replacing and removing peers.
//! - [`status`]: what the `wg` tools reported, read from their output.
//! - [`directory`]: where configurations live and how they are named.
//! - [`text`], [`number`]: characters, white space, lines, decimal numbers.
//!
//! Nothing here touches a file or runs a command: callers hand in what they
//! read and carry out what they get back.

pub mod directory;
pub mod model;
pub mod number;
pub mod parser;
pub mod peers;
pub mod roundtrip;
pub mod serializer;
pub mod status;
pub mod text;
pub mod tolerance;

pub use directory::{config_file_name, get_wireguard_dir, list_configs};
pub use model::{Interface, ParseError, Peer, PeerError, PeerStatus, WgConfig, WgError};
pub use parser::{parse_config, parse_config_content};
pub use peers::{add_peer, delete_peer, update_peer};
pub use serializer::serialize_config;
pub use status::{
    command_output, generate_keypair, generated_private_key, get_peer_status, get_public_key,
};
