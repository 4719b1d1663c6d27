//! Peer-to-peer git fetch and push over iroh: the wire protocol, the `iroh://`
//! URLs, the repository identity, and the decisions of the serving side and of
//! the git remote helper.

pub mod bridge;
pub mod cli;
pub mod helper;
pub mod hex;
pub mod proto;
pub mod serve;
pub mod session;
pub mod text;
pub mod ticket;
