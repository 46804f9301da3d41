//! A minimal QUIC echo/benchmark harness, split into its verified core:
//! the length-prefixed framing protocol that delimits messages on a
//! bidirectional byte stream, the server-side dispatch and responder
//! decisions, the client's exchange plan, and throughput accounting.
//! The transport itself (endpoints, connections, streams) is an external
//! collaborator; everything here works on plain byte sequences and plain
//! state values, so each decision the harness makes is verified.

pub mod frame;
pub mod server;
pub mod driver;
pub mod stats;
