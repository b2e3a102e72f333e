use crate::merge::{merge_adjacent_changes, merge_all, ops_chained};
use crate::table::matrix_view;
use crate::types::{change_in_bounds, ChangeType, LineChange};
use vstd::prelude::*;

verus! {

/// The atomic deletion recovered at cell `(i, j)`: original line `i - 1`
/// is removed; the modified range is empty at position `j`.
pub open spec fn deleted_at(i: int, j: int) -> LineChange {
    LineChange {
        original_start: (i - 1) as usize,
        original_end: i as usize,
        modified_start: j as usize,
        modified_end: j as usize,
        change_type: ChangeType::Deleted,
        char_changes: None,
    }
}

/// The atomic insertion recovered at cell `(i, j)`: modified line `j - 1`
/// is added; the original range is empty at position `i`.
pub open spec fn added_at(i: int, j: int) -> LineChange {
    LineChange {
        original_start: i as usize,
        original_end: i as usize,
        modified_start: (j - 1) as usize,
        modified_end: j as usize,
        change_type: ChangeType::Added,
        char_changes: None,
    }
}

/// The chronological sequence of atomic operations that backtracking
/// from cell `(i, j)` recovers: matching units are consumed silently, a
/// deletion is preferred whenever dropping a unit from the original side
/// leaves the table value unchanged (the fixed tie-break), otherwise an
/// insertion is taken.
pub open spec fn raw_ops(
    dp: Seq<Seq<usize>>,
    a: Seq<u64>,
    b: Seq<u64>,
    i: int,
    j: int,
) -> Seq<LineChange>
    decreases i + j,
{
    if i < 0 || j < 0 {
        Seq::empty()
    } else if i == 0 && j == 0 {
        Seq::empty()
    } else if i > 0 && j > 0 && a[i - 1] == b[j - 1] {
        raw_ops(dp, a, b, i - 1, j - 1)
    } else if i > 0 && (j == 0 || dp[i][j] == dp[i - 1][j]) {
        raw_ops(dp, a, b, i - 1, j).push(deleted_at(i, j))
    } else {
        raw_ops(dp, a, b, i, j - 1).push(added_at(i, j))
    }
}

/// The operations recovered from `(i, j)` form a chronological chain
/// inside the first `i` original and `j` modified lines.
pub proof fn lemma_raw_ops_chained(dp: Seq<Seq<usize>>, a: Seq<u64>, b: Seq<u64>, i: int, j: int)
    requires
        0 <= i <= usize::MAX,
        0 <= j <= usize::MAX,
    ensures
        ops_chained(raw_ops(dp, a, b, i, j), i, j),
    decreases i + j,
{
    if i == 0 && j == 0 {
    } else if i > 0 && j > 0 && a[i - 1] == b[j - 1] {
        lemma_raw_ops_chained(dp, a, b, i - 1, j - 1);
        let prior = raw_ops(dp, a, b, i - 1, j - 1);
        assert forall|t: int| 0 <= t < prior.len() implies change_in_bounds(
            #[trigger] prior[t],
            i,
            j,
        ) by {
            assert(change_in_bounds(prior[t], i - 1, j - 1));
        }
    } else if i > 0 && (j == 0 || dp[i][j] == dp[i - 1][j]) {
        lemma_raw_ops_chained(dp, a, b, i - 1, j);
        let prior = raw_ops(dp, a, b, i - 1, j);
        let s = prior.push(deleted_at(i, j));
        assert forall|t: int| 0 <= t < s.len() implies change_in_bounds(
            #[trigger] s[t],
            i,
            j,
        ) by {
            if t < prior.len() {
                assert(s[t] == prior[t]);
                assert(change_in_bounds(prior[t], i - 1, j));
            } else {
                assert(s[t] == deleted_at(i, j));
            }
        }
        assert forall|t1: int, t2: int|
            #![trigger s[t1], s[t2]]
            0 <= t1 < t2 < s.len() implies s[t1].original_end <= s[t2].original_start
            && s[t1].modified_end <= s[t2].modified_start by {
            if t2 < prior.len() {
                assert(s[t1] == prior[t1] && s[t2] == prior[t2]);
            } else {
                assert(s[t1] == prior[t1] && s[t2] == deleted_at(i, j));
                assert(change_in_bounds(prior[t1], i - 1, j));
            }
        }
    } else {
        lemma_raw_ops_chained(dp, a, b, i, j - 1);
        let prior = raw_ops(dp, a, b, i, j - 1);
        let s = prior.push(added_at(i, j));
        assert forall|t: int| 0 <= t < s.len() implies change_in_bounds(
            #[trigger] s[t],
            i,
            j,
        ) by {
            if t < prior.len() {
                assert(s[t] == prior[t]);
                assert(change_in_bounds(prior[t], i, j - 1));
            } else {
                assert(s[t] == added_at(i, j));
            }
        }
        assert forall|t1: int, t2: int|
            #![trigger s[t1], s[t2]]
            0 <= t1 < t2 < s.len() implies s[t1].original_end <= s[t2].original_start
            && s[t1].modified_end <= s[t2].modified_start by {
            if t2 < prior.len() {
                assert(s[t1] == prior[t1] && s[t2] == prior[t2]);
            } else {
                assert(s[t1] == prior[t1] && s[t2] == added_at(i, j));
                assert(change_in_bounds(prior[t1], i, j - 1));
            }
        }
    }
}

/// Walk the completed (possibly truncated) table backward from its far
/// corner, recover the atomic operations in chronological order, and
/// hand them to the merger.
pub fn backtrack_changes(
    lcs_matrix: &Vec<Vec<usize>>,
    original_hashes: &Vec<u64>,
    modified_hashes: &Vec<u64>,
) -> (r: Vec<LineChange>)
    requires
        lcs_matrix@.len() == original_hashes@.len() + 1,
        forall|t: int|
            0 <= t < lcs_matrix@.len() ==> (#[trigger] lcs_matrix@[t])@.len()
                == modified_hashes@.len() + 1,
    ensures
        r@ == merge_all(
            raw_ops(
                matrix_view(lcs_matrix@),
                original_hashes@,
                modified_hashes@,
                original_hashes@.len() as int,
                modified_hashes@.len() as int,
            ),
        ),
{
    let ghost dpv = matrix_view(lcs_matrix@);
    let ghost aa = original_hashes@;
    let ghost bb = modified_hashes@;
    let ghost full = raw_ops(dpv, aa, bb, aa.len() as int, bb.len() as int);
    let mut rev: Vec<LineChange> = Vec::new();
    let mut i: usize = original_hashes.len();
    let mut j: usize = modified_hashes.len();
    proof {
        assert(full =~= raw_ops(dpv, aa, bb, i as int, j as int) + rev@.reverse());
    }
    while i > 0 || j > 0
        invariant
            original_hashes@ == aa,
            modified_hashes@ == bb,
            matrix_view(lcs_matrix@) == dpv,
            lcs_matrix@.len() == aa.len() + 1,
            forall|t: int|
                0 <= t < lcs_matrix@.len() ==> (#[trigger] lcs_matrix@[t])@.len() == bb.len() + 1,
            i <= aa.len(),
            j <= bb.len(),
            full == raw_ops(dpv, aa, bb, i as int, j as int) + rev@.reverse(),
        decreases i + j,
    {
        let ghost rev0 = rev@;
        if i > 0 && j > 0 && original_hashes[i - 1] == modified_hashes[j - 1] {
            i = i - 1;
            j = j - 1;
        } else if i > 0 && (j == 0 || lcs_matrix[i][j] == lcs_matrix[i - 1][j]) {
            let ghost ii = i as int;
            let ghost jj = j as int;
            rev.push(
                LineChange {
                    original_start: i - 1,
                    original_end: i,
                    modified_start: j,
                    modified_end: j,
                    change_type: ChangeType::Deleted,
                    char_changes: None,
                },
            );
            i = i - 1;
            proof {
                assert(rev@.last() == deleted_at(ii, jj));
                assert(raw_ops(dpv, aa, bb, ii, jj) == raw_ops(dpv, aa, bb, ii - 1, jj).push(
                    deleted_at(ii, jj),
                ));
                assert(raw_ops(dpv, aa, bb, ii - 1, jj) + rev@.reverse() =~= raw_ops(
                    dpv,
                    aa,
                    bb,
                    ii,
                    jj,
                ) + rev0.reverse());
            }
        } else {
            let ghost ii = i as int;
            let ghost jj = j as int;
            rev.push(
                LineChange {
                    original_start: i,
                    original_end: i,
                    modified_start: j - 1,
                    modified_end: j,
                    change_type: ChangeType::Added,
                    char_changes: None,
                },
            );
            j = j - 1;
            proof {
                assert(rev@.last() == added_at(ii, jj));
                assert(raw_ops(dpv, aa, bb, ii, jj) == raw_ops(dpv, aa, bb, ii, jj - 1).push(
                    added_at(ii, jj),
                ));
                assert(raw_ops(dpv, aa, bb, ii, jj - 1) + rev@.reverse() =~= raw_ops(
                    dpv,
                    aa,
                    bb,
                    ii,
                    jj,
                ) + rev0.reverse());
            }
        }
    }
    proof {
        assert(full =~= rev@.reverse());
    }
    let mut chron: Vec<LineChange> = Vec::new();
    while rev.len() > 0
        invariant
            full == chron@ + rev@.reverse(),
        decreases rev@.len(),
    {
        let ghost rev0 = rev@;
        let ghost chron0 = chron@;
        let x = rev.pop().unwrap();
        chron.push(x);
        proof {
            assert(rev0.reverse() =~= seq![rev0.last()] + rev@.reverse());
            assert(chron@ + rev@.reverse() =~= chron0 + rev0.reverse());
        }
    }
    proof {
        assert(chron@ =~= full);
    }
    merge_adjacent_changes(chron)
}

} // verus!
