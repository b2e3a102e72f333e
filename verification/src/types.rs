use vstd::prelude::*;

verus! {

/// Configuration for one diff invocation.
#[derive(Clone, Debug)]
pub struct DiffOptions {
    pub ignore_whitespace: bool,
    pub ignore_case: bool,
    pub max_computation_time_ms: u64,
    pub compute_char_changes: bool,
}

/// The kind of a reported line-level change.
#[derive(Clone, Copy, Debug, PartialEq, Eq, Structural)]
pub enum ChangeType {
    Added,
    Deleted,
    Modified,
}

/// One contiguous line-level change. Both ranges are 0-based and
/// end-exclusive; for `Added` the original range is empty, for `Deleted`
/// the modified range is empty.
#[derive(Clone, Debug)]
pub struct LineChange {
    pub original_start: usize,
    pub original_end: usize,
    pub modified_start: usize,
    pub modified_end: usize,
    pub change_type: ChangeType,
    pub char_changes: Option<Vec<CharChange>>,
}

/// One character-level change inside the text spanned by a `Modified`
/// line change: a deleted run and an inserted run at the same point,
/// either of which may be empty (but not both).
#[derive(Clone, Copy, Debug, PartialEq, Eq, Structural)]
pub struct CharChange {
    pub original_start: usize,
    pub original_length: usize,
    pub modified_start: usize,
    pub modified_length: usize,
}

/// Both index ranges of a change are well formed and lie inside line
/// sequences of length `orig_len` and `mod_len`.
pub open spec fn change_in_bounds(c: LineChange, orig_len: int, mod_len: int) -> bool {
    &&& c.original_start <= c.original_end <= orig_len
    &&& c.modified_start <= c.modified_end <= mod_len
}

} // verus!
