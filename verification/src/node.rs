//! Settings of the P2P node and the addresses it derives from them.

use vstd::prelude::*;

use crate::json::{decimal, push_decimal};
use crate::text::{join_path, path_join};

verus! {

broadcast use vstd::string::group_string_axioms;

/// EC2 relay server (bootstrap + circuit relay)
pub const RELAY_BOOTSTRAP: &'static str = "/ip4/44.192.53.77/tcp/4001/p2p/12D3KooWJkrcsL6Dt8fDTKiRLJFU8V143Wd9mR1PMSQw2NjgCZrJ";

/// All the settings for a Chimera P2P node.
pub struct NodeConfig {
    /// Where to store everything (~/.chimera/ by default)
    pub data_dir: String,
    /// Bootstrap nodes to connect to on startup.
    /// These are addresses of known peers (like our relay server).
    /// Format: "/ip4/1.2.3.4/tcp/4001/p2p/12D3KooW..."
    pub bootstrap_nodes: Vec<String>,
    /// TCP port to listen on (0 = let the OS pick a random available port)
    pub tcp_port: u16,
}

/// The data directory for a user whose home folder is `home` (the current
/// directory when there is none): `<home>/.chimera`.
pub open spec fn default_data_dir(home: Option<Seq<char>>) -> Seq<char> {
    match home {
        Some(h) => path_join(h, ".chimera"@),
        None => path_join("."@, ".chimera"@),
    }
}

/// The data directory that serves content: the one named by the environment
/// when it names one, otherwise `<home>/.chimera`.
pub fn data_dir_from(env_dir: Option<&str>, home: Option<&str>) -> (dir: String)
    ensures
        env_dir matches Some(d) ==> dir@ == d@,
        env_dir is None ==> dir@ == default_data_dir(
            match home {
                Some(h) => Some(h@),
                None => None,
            },
        ),
{
    match env_dir {
        Some(d) => d.to_string(),
        None => match home {
            Some(h) => join_path(h, ".chimera"),
            None => join_path(".", ".chimera"),
        },
    }
}

impl NodeConfig {
    /// Create a config with sensible defaults.
    /// Data goes in `<home>/.chimera/`, no bootstrap nodes, random port.
    pub fn default_config(home: Option<&str>) -> (config: NodeConfig)
        ensures
            config.data_dir@ == default_data_dir(
                match home {
                    Some(h) => Some(h@),
                    None => None,
                },
            ),
            config.bootstrap_nodes@.len() == 0,
            config.tcp_port == 0,
    {
        let data_dir = match home {
            Some(h) => join_path(h, ".chimera"),
            None => join_path(".", ".chimera"),
        };
        NodeConfig {
            data_dir,
            bootstrap_nodes: Vec::new(),
            tcp_port: 0,  // random port
        }
    }

    /// The config the node starts with: the defaults, with the relay server
    /// as its one bootstrap node.
    pub fn with_relay(home: Option<&str>) -> (config: NodeConfig)
        ensures
            config.data_dir@ == default_data_dir(
                match home {
                    Some(h) => Some(h@),
                    None => None,
                },
            ),
            config.bootstrap_nodes@.len() == 1,
            config.bootstrap_nodes@[0]@ == RELAY_BOOTSTRAP@,
            config.tcp_port == 0,
    {
        let mut config = NodeConfig::default_config(home);
        config.bootstrap_nodes.push(RELAY_BOOTSTRAP.to_string());
        config
    }

    /// Path to the keypair file (the node's persistent identity)
    pub fn keypair_path(&self) -> (path: String)
        ensures
            path@ == path_join(path_join(self.data_dir@, "identity"@), "keypair.bin"@),
    {
        let dir = join_path(self.data_dir.as_str(), "identity");
        join_path(dir.as_str(), "keypair.bin")
    }

    /// Path to the chunks directory
    pub fn chunks_dir(&self) -> (path: String)
        ensures
            path@ == path_join(self.data_dir@, "chunks"@),
    {
        join_path(self.data_dir.as_str(), "chunks")
    }

    /// Path to the SQLite database
    pub fn database_path(&self) -> (path: String)
        ensures
            path@ == path_join(self.data_dir@, "chimera.db"@),
    {
        join_path(self.data_dir.as_str(), "chimera.db")
    }
}

/// The secret seed kept in a keypair file: the first 32 bytes of an old
/// 64-byte file (seed followed by public key), otherwise the file as it is.
pub fn keypair_seed(bytes: Vec<u8>) -> (seed: Vec<u8>)
    ensures
        bytes@.len() == 64 ==> seed@ == bytes@.take(32),
        bytes@.len() != 64 ==> seed@ == bytes@,
{
    // Handle both old 64-byte files and new 32-byte files
    if bytes.len() == 64 {
        vstd::slice::slice_to_vec(vstd::slice::slice_subrange(bytes.as_slice(), 0, 32))
    } else {
        bytes
    }
}

/// The address to listen on: TCP on all interfaces at `port`.
pub open spec fn listen_address_spec(port: u16) -> Seq<char> {
    "/ip4/0.0.0.0/tcp/"@ + decimal(port as nat)
}

/// Listen on TCP (all interfaces, configured port).
pub fn listen_address(port: u16) -> (addr: String)
    ensures
        addr@ == listen_address_spec(port),
{
    let mut addr = "/ip4/0.0.0.0/tcp/".to_string();
    push_decimal(&mut addr, port as u64);
    addr
}

/// The address at which peers reach us through the relay at `relay`.
pub fn relay_listen_address(relay: &str) -> (addr: String)
    ensures
        addr@ == relay@ + "/p2p-circuit"@,
{
    let mut addr = relay.to_string();
    addr.append("/p2p-circuit");
    addr
}

/// The address of `peer` through the relay at `relay`:
/// `<relay_addr>/p2p-circuit/p2p/<target_peer_id>`.
pub fn relay_circuit_address(relay: &str, peer: &str) -> (addr: String)
    ensures
        addr@ == relay@ + "/p2p-circuit/p2p/"@ + peer@,
{
    let mut addr = relay.to_string();
    addr.append("/p2p-circuit/p2p/");
    addr.append(peer);
    addr
}

} // verus!
