//! A two-level text diff engine: a longest-common-subsequence diff over
//! hashed line sequences, with optional character-level detail inside
//! modified ranges, under a cooperative time budget.

pub mod backtrack;
pub mod chardiff;
mod clock;
pub mod diff;
pub mod hashing;
pub mod merge;
pub mod normalize;
pub mod table;
pub mod types;
pub mod ui;

pub use backtrack::backtrack_changes;
pub use chardiff::compute_char_diff;
pub use chardiff::compute_character_changes;
pub use chardiff::get_line_range;
pub use diff::compute_diff;
pub use hashing::hash_lines;
pub use merge::merge_adjacent_changes;
pub use merge::should_merge;
pub use normalize::preprocess_lines;
pub use table::compute_lcs_matrix;
pub use types::ChangeType;
pub use types::CharChange;
pub use types::DiffOptions;
pub use types::LineChange;
pub use ui::format_range;
pub use ui::format_unified_diff;
