//! A protocol server core for development tools: length-prefixed message
//! framing, request dispatch to command and notification handlers, the
//! decisions of the message loop, and a debug-session state machine.
pub mod connection;
pub mod dispatch;
pub mod framing;
pub mod session;
