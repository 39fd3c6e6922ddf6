//! A small highscore store: records of (name, score, game version) kept in an
//! SQLite table, read back whole, filtered by version, or ranked by score.

mod query;
mod record;
mod store;

pub use query::{
    first_n, keep_version, lemma_filter_exact, lemma_round_trip, lemma_top_n_ordered,
    order_by_score, run_query, Query,
};
pub use record::{records_from_rows, row_from_record, Highscore, StoreError, StoredRow};
pub use store::{answer_query, AppState, TOP_COUNT};
