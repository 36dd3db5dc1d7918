//! StellarSwap: a constant-product (`x * y = k`) automated market maker for a
//! pair of tokens.
//!
//! [`ConstantProductPool`] holds the entry points. They work on an
//! [`host::Env`], the pool's view of the ledger that hosts it, and say in their
//! contracts when they are refused, what they return, and what they leave on
//! the ledger and ask of the host.
//!
//! The laws of the pool, which span more than one call, are proved in
//! [`curve_laws`] (prices), [`pool_laws`] (the state from call to call),
//! [`call_laws`] (what holds of every call) and [`trace_laws`] (what calls ask
//! of the host, and in which order). When calls go through and on which terms
//! is proved in [`terms_laws`], what they leave in [`effect_laws`], and how the
//! ledger is read and written in [`ledger_laws`]. [`entry_laws`] and
//! [`helper_laws`] say the same of the functions themselves.

pub mod address;
pub mod call_laws;
pub mod curve_laws;
pub mod effect_laws;
pub mod entry_laws;
pub mod errors;
pub mod events;
pub mod helper_laws;
pub mod host;
pub mod ledger_laws;
pub mod lp_token;
pub mod math;
pub mod pool;
pub mod pool_laws;
pub mod pricing;
pub mod shares;
pub mod storage;
pub mod terms_laws;
pub mod trace_laws;

pub use errors::PoolError;
pub use pool::ConstantProductPool;
