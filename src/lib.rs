//! PROMETHEE I/II outranking for multi-criteria decision making.
//!
//! Every real quantity (matrix value, threshold, weight, preference degree,
//! flow, score) is a decimal fixed-point number: an `i64` counting
//! billionths, so that [`types::ONE`] stands for `1.0`.
pub mod cmp;
pub mod decimal;
pub mod error;
pub mod interop;
pub mod math;
pub mod multicriterion_flow;
pub mod outranking;
pub mod pref_functions;
pub mod promethee;
pub mod types;
pub mod unicriterion_flow;
pub mod utils;

pub use error::MCDMRSError;
pub use decimal::parse_fixed;
pub use interop::{df_from_csv, df_to_criteria, prom_from_tables, DataFrame};
pub use math::{diff, min_max_norm, mult_axis_0, normalize_vec, sum_axis_0, transpose};
pub use multicriterion_flow::{multicriterion_flow, MCFlowResult};
pub use outranking::{comparable, has_link_ab, outranking_adjacency_matrix, outranks};
pub use pref_functions::{get_pref_function, level, usual, ushape, vshape, vshape2, PrefFunction};
pub use promethee::{prom_i, prom_ii, re_weight, Criteria, Prom, PromResultI, PromResultII};
pub use types::ONE;
pub use unicriterion_flow::unicriterion_flow;
pub use utils::generate_prom;

