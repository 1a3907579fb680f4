//! State synchronisation for a local notification relay: a browser
//! extension pushes snapshots of unread direct messages, group chats and
//! guilds over a socket; each connection's decisions, the decoding of its
//! messages and the shared last-write-wins snapshot are verified here.

pub mod connection;
pub mod model;
pub mod store;
pub mod wire;
