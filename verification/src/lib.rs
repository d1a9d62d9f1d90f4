//! A POP3 (Post Office Protocol, version 3) server core.
//!
//! The crate covers the protocol engine of a POP3 server, free of any I/O:
//! the wire codec that turns client lines into requests and responses into
//! outgoing text, the per-connection session state machine, the mailbox
//! metadata store with transactional delete marks, and the bookkeeping for
//! connection admission and graceful shutdown. A caller owns the sockets and
//! feeds lines in; every decision the server makes is taken here, under
//! contract.

pub mod config;
pub mod mailbox;
pub mod proto;
pub mod server;
pub mod session;
pub mod text;

use vstd::prelude::*;

verus! {

/// Longest accepted command line, in characters, counting the trailing CRLF.
pub const MAX_LINE: usize = 512;

} // verus!
