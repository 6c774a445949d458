//! `kontract`: an algebra of financial contracts in the style of Peyton Jones,
//! Eber and Seward, with the static analysis, the cash-flow reduction and the
//! bookkeeping of its Monte-Carlo engine.
//!
//! Modules:
//!   - `ast`: the contract language (observables, conditions, combinators);
//!   - `products`: named products written in that language;
//!   - `compiler`: the plan (underlyings, dates, monitoring grid) of a contract;
//!   - `dates`: the merging of acquisition dates closer than `1e-12`;
//!   - `pricer`: the reduction of a contract into cash flows along a path;
//!   - `observable`: market paths;
//!   - `simulator`, `mlmc`: seeds, Halton digits and level costs of the
//!     simulations;
//!   - `market_data`: the record structure of option-quote files;
//!   - `order`: the orders used to sort names and dates;
//!   - `error`: the error type.
//!
//! Real numbers (constants, dates, prices) are carried as the bit patterns of
//! binary64 values; the numerical work on them happens outside this crate's
//! verified part.
use vstd::prelude::*;

pub mod ast;
pub mod compiler;
pub mod dates;
pub mod error;
pub mod market_data;
pub mod mlmc;
pub mod observable;
pub mod order;
pub mod pricer;
pub mod products;
pub mod simulator;

pub use ast::{Condition, Contract, Currency, Observable};
pub use compiler::{compile, Plan};
pub use error::KontractError;
pub use observable::Path;
