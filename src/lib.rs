//! Derivation of the daily AQA reference rate from published SOFR averages,
//! and the signed validator vote that carries it.
//!
//! Rates are scaled integers (`1% == 1_000_000`). The pipeline: each source's
//! published or computed 30-day average (`sources`, `compound`), cross-source
//! validation and the median (`median`), the basis adjustment and AQA scalar
//! (`numeric`), then the vote's action bytes, EIP-712 digest and signature (`vote`).

pub mod compound;
pub mod date;
pub mod decimal;
pub mod error;
pub mod median;
pub mod numeric;
pub mod run;
pub mod sources;
pub mod text;
pub mod vote;

pub use date::{parse_ymd, window, Date, DEFAULT_LOOKBACK_WINDOW};
pub use error::SofrError;
pub use median::compute_validated_median;
pub use numeric::{adjust_basis, aqa_ref_rate, aqa_scale, fmt_scaled_rate, percent_to_floored_u64};
pub use compound::compute_compounded_average;
pub use sources::{Fred, NYFed, OFR};
pub use vote::{get_signed_vote, ValidatorL1StreamAction};
