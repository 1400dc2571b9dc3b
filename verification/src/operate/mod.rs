//! Operating a market from the command line: what to send, what to remember, and what to
//! measure. Everything here decides; sending, signing and printing are the caller's.

pub mod bench;
pub mod launch;
pub mod laws;
pub mod record;
pub mod trade;
