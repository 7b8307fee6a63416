//! Predictive-text core: a bigram frequency store and a keyboard-adjacency
//! fuzzy prediction engine.
pub mod chars;
pub mod engine;
pub mod laws;
pub mod layout;
pub mod pattern;
pub mod ranking;
pub mod store;
pub mod text;

pub use engine::{PredictRequest, ProcessTextRequest};
pub use layout::{check_keys, validate_layout, LayoutError, LayoutModel, ROW_COUNT, ROW_LENGTH};
pub use pattern::{get_regex, WordPattern};
pub use ranking::{Prediction, Ranking};
pub use store::{BigramModel, BigramRepo, StoreError, DEFAULT_LIMIT};
pub use text::{fold, normalize};
