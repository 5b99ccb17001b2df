//! A networked identity directory.
//!
//! The library holds the verified core of a system that resolves
//! operating-system identity records (passwd and group entries) from a
//! centrally administered table over the network: the directory's identity
//! store and its validation pass, the projection of stored records into the
//! externally visible passwd/group shape, the query operations a directory
//! service answers, the address syntax a client accepts, the client-side
//! connection lifecycle manager with its idle eviction and reconnect policy,
//! and the per-connection isolation decisions of the server's accept loop.
//!
//! Network transport, TLS, and the host plugin interface live outside the
//! library and drive it through plain values.

pub mod client;
pub mod config;
pub mod group;
pub mod passwd;
pub mod rpc;
pub mod server;
pub mod socketname;
pub mod types;

pub use socketname::SocketName;
pub use types::Shell;
