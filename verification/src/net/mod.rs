//! The transport-facing surface of the protocol: versioned wire envelopes,
//! the decisions a node makes on what arrives and on its own beat, its
//! command line, and the rows and lines its skins render. The libp2p event
//! loop that carries them lives outside the library.

pub mod wire;
pub mod node;
pub mod gossip;
pub mod negotiation;
pub mod command;
pub mod present;
pub mod duties;
pub mod panel;
pub mod desk;
