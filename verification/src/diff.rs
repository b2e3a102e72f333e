use crate::backtrack::{added_at, backtrack_changes, deleted_at, lemma_raw_ops_chained, raw_ops};
use crate::chardiff::{char_augmented, compute_character_changes};
use crate::clock::instant_now;
use crate::hashing::{hash_all, line_hash_of, hash_lines};
use crate::merge::{
    lemma_merge_preserves_bounds, merge_all, merge_from, merged_pair, should_merge_spec,
};
use crate::normalize::{normalize_all, normalize_line, preprocess_lines};
use crate::table::{compute_lcs_matrix, lcs_val, matrix_view, table_of};
use crate::types::{change_in_bounds, ChangeType, DiffOptions, LineChange};
use vstd::prelude::*;

verus! {

/// The character sequences of a sequence of lines.
pub open spec fn lines_view(lines: Seq<String>) -> Seq<Seq<char>> {
    lines.map_values(|l: String| l@)
}

/// The merged line-level diff of the two inputs when the table was cut
/// off after row `k`: normalize, hash, build the cutoff-`k` table, walk
/// it back, merge.
pub open spec fn diff_lines(
    orig: Seq<Seq<char>>,
    modi: Seq<Seq<char>>,
    options: DiffOptions,
    k: int,
) -> Seq<LineChange> {
    let a = hash_all(normalize_all(orig, options));
    let b = hash_all(normalize_all(modi, options));
    merge_all(raw_ops(table_of(a, b, k), a, b, a.len() as int, b.len() as int))
}

/// What `compute_diff` returns for cutoff `k`: the merged line diff,
/// with character detail attached to modified changes when the options
/// ask for it.
pub open spec fn diff_result_ok(
    r: Seq<LineChange>,
    orig: Seq<Seq<char>>,
    modi: Seq<Seq<char>>,
    options: DiffOptions,
    k: int,
) -> bool {
    let base = diff_lines(orig, modi, options, k);
    if options.compute_char_changes {
        r.len() == base.len() && forall|t: int|
            0 <= t < base.len() ==> char_augmented(#[trigger] r[t], base[t], orig, modi)
    } else {
        r == base
    }
}

/// Diff two line sequences: preprocess them into comparison keys, hash
/// the keys, build the LCS table under the configured time budget, walk
/// it back into merged line changes, and, if asked, attach character
/// detail. The cutoff `k` is existential because it depends on the
/// clock; with an untouched budget it is the full number of lines.
pub fn compute_diff(
    original_lines: &Vec<String>,
    modified_lines: &Vec<String>,
    options: DiffOptions,
) -> (r: Vec<LineChange>)
    requires
        original_lines@.len() < usize::MAX,
        modified_lines@.len() < usize::MAX,
    ensures
        exists|k: int|
            0 <= k <= original_lines@.len() && diff_result_ok(
                r@,
                lines_view(original_lines@),
                lines_view(modified_lines@),
                options,
                k,
            ),
{
    let ghost vo = lines_view(original_lines@);
    let ghost vm = lines_view(modified_lines@);
    let start_time = instant_now();
    let processed_original = preprocess_lines(original_lines, &options);
    let processed_modified = preprocess_lines(modified_lines, &options);
    let original_hashes = hash_lines(&processed_original);
    let modified_hashes = hash_lines(&processed_modified);
    let ghost ha = hash_all(normalize_all(vo, options));
    let ghost hb = hash_all(normalize_all(vm, options));
    proof {
        assert(processed_original@.map_values(|l: String| l@) =~= normalize_all(vo, options));
        assert(processed_modified@.map_values(|l: String| l@) =~= normalize_all(vm, options));
        assert(original_hashes@ == ha);
        assert(modified_hashes@ == hb);
    }
    let m = original_hashes.len();
    let n = modified_hashes.len();
    let lcs_matrix = compute_lcs_matrix(
        &original_hashes,
        &modified_hashes,
        &start_time,
        options.max_computation_time_ms,
    );
    let ghost k = choose|k: int|
        0 <= k <= ha.len() && matrix_view(lcs_matrix@) == table_of(ha, hb, k);
    proof {
        assert(matrix_view(lcs_matrix@).len() == lcs_matrix@.len());
        assert(lcs_matrix@.len() == m + 1);
        assert forall|t: int| 0 <= t < lcs_matrix@.len() implies (#[trigger] lcs_matrix@[t])@.len()
            == n + 1 by {
            assert(matrix_view(lcs_matrix@)[t] == lcs_matrix@[t]@);
            assert(table_of(ha, hb, k)[t].len() == n + 1);
        }
    }
    let changes = backtrack_changes(&lcs_matrix, &original_hashes, &modified_hashes);
    let ghost base = diff_lines(vo, vm, options, k);
    proof {
        assert(changes@ == base);
    }
    if options.compute_char_changes {
        proof {
            lemma_raw_ops_chained(table_of(ha, hb, k), ha, hb, m as int, n as int);
            lemma_merge_preserves_bounds(
                raw_ops(table_of(ha, hb, k), ha, hb, m as int, n as int),
                m as int,
                n as int,
            );
            assert forall|t: int|
                0 <= t < changes@.len() && (#[trigger] changes@[t]).change_type
                    == ChangeType::Modified implies change_in_bounds(
                changes@[t],
                original_lines@.len() as int,
                modified_lines@.len() as int,
            ) by {
                assert(change_in_bounds(base[t], m as int, n as int));
            }
        }
        let r = compute_character_changes(changes, original_lines, modified_lines);
        proof {
            assert(diff_result_ok(r@, vo, vm, options, k));
        }
        r
    } else {
        proof {
            assert(diff_result_ok(changes@, vo, vm, options, k));
        }
        changes
    }
}

proof fn lemma_raw_ops_diag(dp: Seq<Seq<usize>>, a: Seq<u64>, b: Seq<u64>, i: int)
    requires
        a == b,
        0 <= i,
    ensures
        raw_ops(dp, a, b, i, i) == Seq::<LineChange>::empty(),
    decreases i,
{
    if i > 0 {
        assert(a[i - 1] == b[i - 1]);
        lemma_raw_ops_diag(dp, a, b, i - 1);
    }
}

/// One Added change covering modified lines `0..n` at original
/// position 0.
pub open spec fn added_block(n: int) -> LineChange {
    LineChange {
        original_start: 0,
        original_end: 0,
        modified_start: 0,
        modified_end: n as usize,
        change_type: ChangeType::Added,
        char_changes: None,
    }
}

/// One Deleted change covering original lines `0..m` at modified
/// position `n`.
pub open spec fn deleted_block(m: int, n: int) -> LineChange {
    LineChange {
        original_start: 0,
        original_end: m as usize,
        modified_start: n as usize,
        modified_end: n as usize,
        change_type: ChangeType::Deleted,
        char_changes: None,
    }
}

/// The maximal merged diff of wholly unrelated inputs: everything
/// added, everything deleted.
pub open spec fn all_changed(m: int, n: int) -> Seq<LineChange> {
    if m == 0 && n == 0 {
        Seq::empty()
    } else if m == 0 {
        seq![added_block(n)]
    } else if n == 0 {
        seq![deleted_block(m, n)]
    } else {
        seq![added_block(n), deleted_block(m, n)]
    }
}

spec fn add_tail(q: int, n: int) -> Seq<LineChange> {
    Seq::new((n - q) as nat, |t: int| added_at(0, q + t + 1))
}

spec fn del_tail(p: int, m: int, n: int) -> Seq<LineChange> {
    Seq::new((m - p) as nat, |t: int| deleted_at(p + t + 1, n))
}

proof fn lemma_zero_walk(dp: Seq<Seq<usize>>, a: Seq<u64>, b: Seq<u64>, i: int, j: int)
    requires
        dp == table_of(a, b, 0),
        0 <= i <= a.len() <= usize::MAX,
        0 <= j <= b.len() <= usize::MAX,
        forall|x: int, y: int| 0 <= x < a.len() && 0 <= y < b.len() ==> a[x] != b[y],
    ensures
        raw_ops(dp, a, b, i, j) == add_tail(0, j) + del_tail(0, i, j),
    decreases i + j,
{
    if i == 0 && j == 0 {
        assert(raw_ops(dp, a, b, i, j) =~= add_tail(0, j) + del_tail(0, i, j));
    } else if i == 0 {
        lemma_zero_walk(dp, a, b, 0, j - 1);
        assert(raw_ops(dp, a, b, 0, j) == raw_ops(dp, a, b, 0, j - 1).push(added_at(0, j)));
        assert(raw_ops(dp, a, b, 0, j) =~= add_tail(0, j) + del_tail(0, 0, j));
    } else {
        if j > 0 {
            assert(a[i - 1] != b[j - 1]);
        }
        assert(dp[i][j] == lcs_val(a, b, 0, i, j) as usize);
        assert(dp[i - 1][j] == lcs_val(a, b, 0, i - 1, j) as usize);
        assert(lcs_val(a, b, 0, i, j) == 0);
        assert(lcs_val(a, b, 0, i - 1, j) == 0);
        assert(raw_ops(dp, a, b, i, j) == raw_ops(dp, a, b, i - 1, j).push(deleted_at(i, j)));
        lemma_zero_walk(dp, a, b, i - 1, j);
        assert(raw_ops(dp, a, b, i, j) =~= add_tail(0, j) + del_tail(0, i, j));
    }
}

proof fn lemma_merge_dels(m: int, n: int, p: int, done: Seq<LineChange>)
    requires
        1 <= p <= m <= usize::MAX,
        0 <= n <= usize::MAX,
    ensures
        merge_from(del_tail(p, m, n), deleted_block(p, n), done) == done.push(
            deleted_block(m, n),
        ),
    decreases m - p,
{
    if p == m {
        assert(del_tail(p, m, n).len() == 0);
    } else {
        let rest = del_tail(p, m, n);
        assert(rest[0] == deleted_at(p + 1, n));
        assert(should_merge_spec(deleted_block(p, n), deleted_at(p + 1, n)));
        assert(merged_pair(deleted_block(p, n), deleted_at(p + 1, n)) == deleted_block(p + 1, n));
        assert(rest.drop_first() =~= del_tail(p + 1, m, n));
        lemma_merge_dels(m, n, p + 1, done);
    }
}

proof fn lemma_merge_adds(n: int, m: int, q: int, done: Seq<LineChange>)
    requires
        1 <= q <= n <= usize::MAX,
        0 <= m <= usize::MAX,
    ensures
        merge_from(add_tail(q, n) + del_tail(0, m, n), added_block(q), done) == if m == 0 {
            done.push(added_block(n))
        } else {
            done.push(added_block(n)).push(deleted_block(m, n))
        },
    decreases n - q,
{
    let rest = add_tail(q, n) + del_tail(0, m, n);
    if q == n {
        assert(rest =~= del_tail(0, m, n));
        if m == 0 {
            assert(rest.len() == 0);
        } else {
            assert(rest[0] == deleted_at(1, n));
            assert(!should_merge_spec(added_block(n), deleted_at(1, n)));
            assert(deleted_at(1, n) == deleted_block(1, n));
            assert(rest.drop_first() =~= del_tail(1, m, n));
            lemma_merge_dels(m, n, 1, done.push(added_block(n)));
        }
    } else {
        assert(rest[0] == added_at(0, q + 1));
        assert(should_merge_spec(added_block(q), added_at(0, q + 1)));
        assert(merged_pair(added_block(q), added_at(0, q + 1)) == added_block(q + 1));
        assert(rest.drop_first() =~= add_tail(q + 1, n) + del_tail(0, m, n));
        lemma_merge_adds(n, m, q + 1, done);
    }
}

/// Law: when the time budget expires before the first table row is
/// computed (cutoff zero) and no surrogate of one side occurs on the
/// other, the recovered diff is the maximal edit script consistent with
/// an all-zero table: every modified line reported in one Added change
/// and every original line in one Deleted change.
pub proof fn lemma_zero_cutoff_maximal(a: Seq<u64>, b: Seq<u64>)
    requires
        a.len() <= usize::MAX,
        b.len() <= usize::MAX,
        forall|x: int, y: int| 0 <= x < a.len() && 0 <= y < b.len() ==> a[x] != b[y],
    ensures
        merge_all(raw_ops(table_of(a, b, 0), a, b, a.len() as int, b.len() as int)) == all_changed(
            a.len() as int,
            b.len() as int,
        ),
{
    let m = a.len() as int;
    let n = b.len() as int;
    lemma_zero_walk(table_of(a, b, 0), a, b, m, n);
    let ops = raw_ops(table_of(a, b, 0), a, b, m, n);
    assert(ops == add_tail(0, n) + del_tail(0, m, n));
    if m == 0 && n == 0 {
        assert(ops.len() == 0);
        assert(merge_all(ops) =~= all_changed(m, n));
    } else if n == 0 {
        assert(ops =~= del_tail(0, m, n));
        assert(ops[0] == deleted_at(1, n));
        assert(deleted_at(1, n) == deleted_block(1, n));
        assert(ops.drop_first() =~= del_tail(1, m, n));
        lemma_merge_dels(m, n, 1, Seq::empty());
        assert(Seq::empty().push(deleted_block(m, n)) =~= all_changed(m, n));
    } else {
        assert(ops[0] == added_at(0, 1));
        assert(added_at(0, 1) == added_block(1));
        assert(ops.drop_first() =~= add_tail(1, n) + del_tail(0, m, n));
        lemma_merge_adds(n, m, 1, Seq::empty());
        if m == 0 {
            assert(Seq::empty().push(added_block(n)) =~= all_changed(m, n));
        } else {
            assert(Seq::empty().push(added_block(n)).push(deleted_block(m, n)) =~= all_changed(
                m,
                n,
            ));
        }
    }
}

/// Law, at the level of lines: if the cutoff is zero and no normalized
/// original line shares a surrogate with a normalized modified line,
/// the whole diff degrades to `all_changed`: everything added, then
/// everything deleted.
pub proof fn lemma_zero_budget_diff(
    orig: Seq<Seq<char>>,
    modi: Seq<Seq<char>>,
    options: DiffOptions,
)
    requires
        orig.len() <= usize::MAX,
        modi.len() <= usize::MAX,
        forall|x: int, y: int|
            0 <= x < orig.len() && 0 <= y < modi.len() ==> line_hash_of(
                normalize_line(#[trigger] orig[x], options),
            ) != line_hash_of(normalize_line(#[trigger] modi[y], options)),
    ensures
        diff_lines(orig, modi, options, 0) == all_changed(orig.len() as int, modi.len() as int),
{
    let a = hash_all(normalize_all(orig, options));
    let b = hash_all(normalize_all(modi, options));
    assert(a.len() == orig.len());
    assert(b.len() == modi.len());
    assert forall|x: int, y: int| 0 <= x < a.len() && 0 <= y < b.len() implies a[x] != b[y] by {
        assert(a[x] == line_hash_of(normalize_line(orig[x], options)));
        assert(b[y] == line_hash_of(normalize_line(modi[y], options)));
    }
    lemma_zero_cutoff_maximal(a, b);
}

/// Law: whenever the two inputs normalize to the same comparison keys —
/// equal lines, or lines equal after the configured trimming and case
/// folding — the diff is empty, whatever cutoff the time budget
/// produced, because matching surrogates are consumed silently along
/// the diagonal before the table is ever consulted.
pub proof fn lemma_normalized_equal_diff_empty(
    orig: Seq<Seq<char>>,
    modi: Seq<Seq<char>>,
    options: DiffOptions,
    k: int,
)
    requires
        normalize_all(orig, options) == normalize_all(modi, options),
    ensures
        diff_lines(orig, modi, options, k) == Seq::<LineChange>::empty(),
{
    let a = hash_all(normalize_all(orig, options));
    lemma_raw_ops_diag(table_of(a, a, k), a, a, a.len() as int);
}

/// Law: diffing any line sequence against itself, with whitespace and
/// case sensitivity disabled, yields no changes — whatever cutoff the
/// time budget produced.
pub proof fn lemma_identity_diff(lines: Seq<Seq<char>>, options: DiffOptions, k: int)
    requires
        !options.ignore_whitespace,
        !options.ignore_case,
    ensures
        diff_lines(lines, lines, options, k) == Seq::<LineChange>::empty(),
{
    lemma_normalized_equal_diff_empty(lines, lines, options, k);
}

} // verus!
