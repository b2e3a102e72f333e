use vstd::prelude::*;

verus! {

/// The value of cell `(i, j)` of the LCS dynamic-programming table for
/// unit sequences `a` and `b`, when only rows `1..=k` were computed
/// before the time budget ran out: rows beyond `k` keep their initial
/// zero, row and column `0` are zero, and a computed cell follows the
/// usual LCS recurrence.
pub open spec fn lcs_val<T>(a: Seq<T>, b: Seq<T>, k: int, i: int, j: int) -> nat
    decreases i + j,
{
    if i <= 0 || j <= 0 || i > k {
        0
    } else if a[i - 1] == b[j - 1] {
        lcs_val(a, b, k, i - 1, j - 1) + 1
    } else {
        let up = lcs_val(a, b, k, i - 1, j);
        let left = lcs_val(a, b, k, i, j - 1);
        if up >= left {
            up
        } else {
            left
        }
    }
}

/// A table cell never exceeds its row or column index.
pub proof fn lemma_lcs_val_bound<T>(a: Seq<T>, b: Seq<T>, k: int, i: int, j: int)
    requires
        0 <= i,
        0 <= j,
    ensures
        lcs_val(a, b, k, i, j) <= i,
        lcs_val(a, b, k, i, j) <= j,
    decreases i + j,
{
    if i <= 0 || j <= 0 || i > k {
    } else if a[i - 1] == b[j - 1] {
        lemma_lcs_val_bound(a, b, k, i - 1, j - 1);
    } else {
        lemma_lcs_val_bound(a, b, k, i - 1, j);
        lemma_lcs_val_bound(a, b, k, i, j - 1);
    }
}

/// Rows at or below both cutoffs do not depend on the cutoff.
pub proof fn lemma_lcs_val_agree<T>(a: Seq<T>, b: Seq<T>, k1: int, k2: int, i: int, j: int)
    requires
        i <= k1 <= k2,
    ensures
        lcs_val(a, b, k1, i, j) == lcs_val(a, b, k2, i, j),
    decreases i + j,
{
    if i <= 0 || j <= 0 {
    } else if a[i - 1] == b[j - 1] {
        lemma_lcs_val_agree(a, b, k1, k2, i - 1, j - 1);
    } else {
        lemma_lcs_val_agree(a, b, k1, k2, i - 1, j);
        lemma_lcs_val_agree(a, b, k1, k2, i, j - 1);
    }
}

/// The mathematical contents of an executable table.
pub open spec fn matrix_view(m: Seq<Vec<usize>>) -> Seq<Seq<usize>> {
    m.map_values(|row: Vec<usize>| row@)
}

/// The `(a.len()+1) x (b.len()+1)` table whose rows `1..=k` follow the
/// LCS recurrence and whose later rows are zero.
pub open spec fn table_of<T>(a: Seq<T>, b: Seq<T>, k: int) -> Seq<Seq<usize>> {
    Seq::new(
        a.len() + 1,
        |i: int| Seq::new(b.len() + 1, |j: int| lcs_val(a, b, k, i, j) as usize),
    )
}

fn zero_row(n: usize) -> (r: Vec<usize>)
    requires
        n < usize::MAX,
    ensures
        r@.len() == n + 1,
        forall|t: int| 0 <= t <= n ==> r@[t] == 0,
{
    let mut r: Vec<usize> = Vec::new();
    let mut t: usize = 0;
    while t <= n
        invariant
            n < usize::MAX,
            t <= n + 1,
            r@.len() == t,
            forall|c: int| 0 <= c < t ==> r@[c] == 0,
        decreases n + 1 - t,
    {
        r.push(0);
        t = t + 1;
    }
    r
}

/// Build the LCS table for two surrogate sequences, checking the elapsed
/// time before each row; rows not reached before the budget ran out stay
/// zero. The cutoff `k` below is however many rows were computed, which
/// depends on the clock; everything else about the table is exact.
pub fn compute_lcs_matrix(
    original_hashes: &Vec<u64>,
    modified_hashes: &Vec<u64>,
    start_time: &std::time::Instant,
    timeout_ms: u64,
) -> (dp: Vec<Vec<usize>>)
    requires
        original_hashes@.len() < usize::MAX,
        modified_hashes@.len() < usize::MAX,
    ensures
        exists|k: int|
            0 <= k <= original_hashes@.len() && matrix_view(dp@) == table_of(
                original_hashes@,
                modified_hashes@,
                k,
            ),
{
    let ghost aa = original_hashes@;
    let ghost bb = modified_hashes@;
    let m = original_hashes.len();
    let n = modified_hashes.len();
    let mut dp: Vec<Vec<usize>> = Vec::new();
    dp.push(zero_row(n));
    let mut i: usize = 1;
    while i <= m
        invariant
            original_hashes@ == aa,
            modified_hashes@ == bb,
            m == aa.len() < usize::MAX,
            n == bb.len() < usize::MAX,
            1 <= i <= m + 1,
            dp@.len() == i,
            forall|r: int| 0 <= r < i ==> (#[trigger] dp@[r])@.len() == n + 1,
            forall|r: int, c: int|
                0 <= r < i && 0 <= c <= n ==> (#[trigger] dp@[r]@[c]) == lcs_val(
                    aa,
                    bb,
                    m as int,
                    r,
                    c,
                ),
        decreases m + 1 - i,
    {
        if crate::clock::timed_out(start_time, timeout_ms) {
            break;
        }
        let mut row: Vec<usize> = Vec::new();
        row.push(0);
        let mut j: usize = 1;
        while j <= n
            invariant
                original_hashes@ == aa,
                modified_hashes@ == bb,
                m == aa.len() < usize::MAX,
                n == bb.len() < usize::MAX,
                1 <= i <= m,
                1 <= j <= n + 1,
                dp@.len() == i,
                forall|r: int| 0 <= r < i ==> (#[trigger] dp@[r])@.len() == n + 1,
                forall|r: int, c: int|
                    0 <= r < i && 0 <= c <= n ==> (#[trigger] dp@[r]@[c]) == lcs_val(
                        aa,
                        bb,
                        m as int,
                        r,
                        c,
                    ),
                row@.len() == j,
                forall|c: int| 0 <= c < j ==> row@[c] == lcs_val(aa, bb, m as int, i as int, c),
            decreases n + 1 - j,
        {
            proof {
                lemma_lcs_val_bound(aa, bb, m as int, i as int - 1, j as int - 1);
                lemma_lcs_val_bound(aa, bb, m as int, i as int - 1, j as int);
                lemma_lcs_val_bound(aa, bb, m as int, i as int, j as int - 1);
            }
            let v: usize;
            if original_hashes[i - 1] == modified_hashes[j - 1] {
                v = dp[i - 1][j - 1] + 1;
            } else {
                let up = dp[i - 1][j];
                let left = row[j - 1];
                v = if up >= left {
                    up
                } else {
                    left
                };
            }
            row.push(v);
            j = j + 1;
        }
        dp.push(row);
        i = i + 1;
    }
    let ghost kk = dp@.len() - 1;
    while dp.len() <= m
        invariant
            m < usize::MAX,
            n == bb.len() < usize::MAX,
            0 <= kk <= m,
            kk + 1 <= dp@.len() <= m + 1,
            forall|r: int| 0 <= r < dp@.len() ==> (#[trigger] dp@[r])@.len() == n + 1,
            forall|r: int, c: int|
                0 <= r <= kk && 0 <= c <= n ==> (#[trigger] dp@[r]@[c]) == lcs_val(
                    aa,
                    bb,
                    m as int,
                    r,
                    c,
                ),
            forall|r: int, c: int|
                kk < r < dp@.len() && 0 <= c <= n ==> (#[trigger] dp@[r]@[c]) == 0,
        decreases m + 1 - dp@.len(),
    {
        dp.push(zero_row(n));
    }
    proof {
        lemma_table_matches(dp@, aa, bb, kk);
    }
    dp
}

/// If the rows of `dp` up to `kk` hold the untruncated cell values and
/// the rows beyond are zero, then `dp` is exactly the cutoff-`kk` table.
proof fn lemma_table_matches(dp: Seq<Vec<usize>>, aa: Seq<u64>, bb: Seq<u64>, kk: int)
    requires
        0 <= kk <= aa.len(),
        dp.len() == aa.len() + 1,
        forall|r: int| 0 <= r < dp.len() ==> (#[trigger] dp[r])@.len() == bb.len() + 1,
        forall|r: int, c: int|
            0 <= r <= kk && 0 <= c <= bb.len() ==> (#[trigger] dp[r]@[c]) == lcs_val(
                aa,
                bb,
                aa.len() as int,
                r,
                c,
            ),
        forall|r: int, c: int|
            kk < r < dp.len() && 0 <= c <= bb.len() ==> (#[trigger] dp[r]@[c]) == 0,
    ensures
        matrix_view(dp) == table_of(aa, bb, kk),
{
    let tgt = table_of(aa, bb, kk);
    assert forall|r: int| 0 <= r < dp.len() implies matrix_view(dp)[r] =~= tgt[r] by {
        assert forall|c: int| 0 <= c <= bb.len() implies dp[r]@[c] == tgt[r][c] by {
            lemma_lcs_val_bound(aa, bb, kk, r, c);
            if r <= kk {
                lemma_lcs_val_agree(aa, bb, kk, aa.len() as int, r, c);
            }
        }
    }
    assert(matrix_view(dp) =~~= tgt);
}

/// Build the full (untruncated) LCS table for two character sequences;
/// character-level inputs are small, so no time budget applies.
pub fn build_char_table(a: &Vec<char>, b: &Vec<char>) -> (dp: Vec<Vec<usize>>)
    requires
        a@.len() < usize::MAX,
        b@.len() < usize::MAX,
    ensures
        matrix_view(dp@) == table_of(a@, b@, a@.len() as int),
{
    let ghost aa = a@;
    let ghost bb = b@;
    let m = a.len();
    let n = b.len();
    let mut dp: Vec<Vec<usize>> = Vec::new();
    dp.push(zero_row(n));
    let mut i: usize = 1;
    while i <= m
        invariant
            a@ == aa,
            b@ == bb,
            m == aa.len() < usize::MAX,
            n == bb.len() < usize::MAX,
            1 <= i <= m + 1,
            dp@.len() == i,
            forall|r: int| 0 <= r < i ==> (#[trigger] dp@[r])@.len() == n + 1,
            forall|r: int, c: int|
                0 <= r < i && 0 <= c <= n ==> (#[trigger] dp@[r]@[c]) == lcs_val(
                    aa,
                    bb,
                    m as int,
                    r,
                    c,
                ),
        decreases m + 1 - i,
    {
        let mut row: Vec<usize> = Vec::new();
        row.push(0);
        let mut j: usize = 1;
        while j <= n
            invariant
                a@ == aa,
                b@ == bb,
                m == aa.len() < usize::MAX,
                n == bb.len() < usize::MAX,
                1 <= i <= m,
                1 <= j <= n + 1,
                dp@.len() == i,
                forall|r: int| 0 <= r < i ==> (#[trigger] dp@[r])@.len() == n + 1,
                forall|r: int, c: int|
                    0 <= r < i && 0 <= c <= n ==> (#[trigger] dp@[r]@[c]) == lcs_val(
                        aa,
                        bb,
                        m as int,
                        r,
                        c,
                    ),
                row@.len() == j,
                forall|c: int| 0 <= c < j ==> row@[c] == lcs_val(aa, bb, m as int, i as int, c),
            decreases n + 1 - j,
        {
            proof {
                lemma_lcs_val_bound(aa, bb, m as int, i as int - 1, j as int - 1);
                lemma_lcs_val_bound(aa, bb, m as int, i as int - 1, j as int);
                lemma_lcs_val_bound(aa, bb, m as int, i as int, j as int - 1);
            }
            let v: usize;
            if a[i - 1] == b[j - 1] {
                v = dp[i - 1][j - 1] + 1;
            } else {
                let up = dp[i - 1][j];
                let left = row[j - 1];
                v = if up >= left {
                    up
                } else {
                    left
                };
            }
            row.push(v);
            j = j + 1;
        }
        dp.push(row);
        i = i + 1;
    }
    proof {
        lemma_table_matches_char(dp@, aa, bb);
    }
    dp
}

proof fn lemma_table_matches_char(dp: Seq<Vec<usize>>, aa: Seq<char>, bb: Seq<char>)
    requires
        dp.len() == aa.len() + 1,
        forall|r: int| 0 <= r < dp.len() ==> (#[trigger] dp[r])@.len() == bb.len() + 1,
        forall|r: int, c: int|
            0 <= r < dp.len() && 0 <= c <= bb.len() ==> (#[trigger] dp[r]@[c]) == lcs_val(
                aa,
                bb,
                aa.len() as int,
                r,
                c,
            ),
    ensures
        matrix_view(dp) == table_of(aa, bb, aa.len() as int),
{
    let tgt = table_of(aa, bb, aa.len() as int);
    assert forall|r: int| 0 <= r < dp.len() implies matrix_view(dp)[r] =~= tgt[r] by {
        assert forall|c: int| 0 <= c <= bb.len() implies dp[r]@[c] == tgt[r][c] by {
            lemma_lcs_val_bound(aa, bb, aa.len() as int, r, c);
        }
    }
    assert(matrix_view(dp) =~~= tgt);
}

} // verus!
