//! The core of a game server for the Beta 1.7.3 protocol: the packet codec, the login and
//! playing connection logic, the chunked world and its cache, and the decisions of the
//! tick systems (what each player sees and receives, and in which order).
pub mod byte_man;
pub mod entity;
pub mod event;
pub mod packet;
pub mod session;
pub mod system;
pub mod to_client;
pub mod util;
pub mod world;
