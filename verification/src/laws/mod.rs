//! What calls of the library's operations promise, said of what goes in and
//! what comes out: every law here speaks of any call that keeps the
//! operation's contract.
pub mod frames;
pub mod loopback;
pub mod naming;
pub mod node;
pub mod receiving;
pub mod sending;
pub mod setup;
