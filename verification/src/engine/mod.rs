//! Crankless matching engine and atomic settlement for on-chain order books.

pub mod error;
pub mod fees;
pub mod fill;
pub mod market;
pub mod packet;
pub mod trader;

pub use error::EngineError;
pub use fees::{FeeSchedule, BPS_DENOMINATOR};
pub use fill::{Fill, FillObserver, MatchStop, OrderOutcome};
pub use market::{ConservationError, Market, MarketHeader};
pub use packet::{OrderPacket, PostOnlyRejection, SelfTradeBehavior};
pub use trader::{SeatIndex, TraderKey, TraderState, TraderTable, NO_SEAT};
