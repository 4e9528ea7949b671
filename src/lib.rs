//! Deterministic, event-driven backtesting core: replays time-ordered market
//! bars, feeds each strategy its market context and account state, and
//! executes the resulting commands against a per-strategy ledger.
//!
//! Prices, quantities and balances are fixed-point integers: a price is a
//! count of quote minor units per base lot, a quantity is a count of base
//! lots, a balance is a count of quote minor units, and the commission rate
//! is a count of `1 / COMMISSION_SCALE` parts of each fill's notional.
//! Commissions are rounded down to a whole minor unit.
use vstd::prelude::*;

pub mod activate;
pub mod agent;
pub mod calculate;
pub mod candle;
pub mod command;
pub mod errors;
pub mod ids;
pub mod laws;
pub mod ledger;
pub mod order;
pub mod result;
pub mod sums;

pub use activate::{Activate, Notice};
pub use agent::CalculateAgent;
pub use calculate::Calculate;
pub use candle::Candle;
pub use command::CalculateCommand;
pub use errors::CalculateAgentError;
pub use ids::{get_applicant_id, get_interval_key, hash_md5};
pub use ledger::{Holding, LedgerView, COMMISSION_SCALE, NOTIONAL_LIMIT, ORDER_ID_LIMIT};
pub use order::{Order, OrderId, OrderSide, OrderStatus, OrderType, Symbol, TimeStamp};
pub use result::{CalculateResult, CalculateStats};
