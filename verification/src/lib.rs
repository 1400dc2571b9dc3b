//! A central limit order book: the book, the matching engine, and the client's side of a
//! deployed market.
//!
//! - [`quantities`] and [`order`]: integer units, lot geometry, and order ids whose order is
//!   price-time priority.
//! - [`tree`]: the fixed-capacity red-black tree everything ordered is kept in.
//! - [`book`]: the two sides and the sequence counter.
//! - [`engine`]: seats, fees, matching and settlement. What each operation makes of a market
//!   is said in [`engine::market::model`]; that none of them, on behalf of a claimed seat,
//!   creates, destroys or strands value is proved in the modules beside it.
//! - [`bytes`] and [`text`]: values as account bytes, numbers as text.
//! - [`client`]: building instructions, and decoding instructions, accounts and events.
//! - [`operate`]: what a command-line operator decides.
//!
//! Proof functions named `law_` state what holds across operations. The functions marked
//! `external_body`, all in [`client::address`] and [`client::system`], call Solana's own
//! crates; their contracts are believed rather than proved.

pub mod book;
pub mod bytes;
pub mod client;
pub mod engine;
pub mod layout_laws;
pub mod message_laws;
pub mod operate;
pub mod order;
pub mod quantities;
pub mod text;
pub mod tree;
