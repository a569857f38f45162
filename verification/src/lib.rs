//! Client-side MQTT: the wire codec for control packets and the session
//! bookkeeping that sequences them over a connection.
pub mod client;
pub mod parser;
