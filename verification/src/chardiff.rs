use crate::table::{build_char_table, matrix_view, table_of};
use crate::types::{change_in_bounds, ChangeType, CharChange, LineChange};
use vstd::prelude::*;
use vstd::string::StrSliceExecFns;
use vstd::string::StringExecFns;

verus! {

/// The text spanned by lines `start..end`, the lines joined with a
/// newline separator (no trailing newline).
pub open spec fn join_range(lines: Seq<Seq<char>>, start: int, end: int) -> Seq<char>
    decreases end - start,
{
    if end <= start {
        Seq::empty()
    } else if end == start + 1 {
        lines[start]
    } else {
        join_range(lines, start, end - 1) + "\n"@ + lines[end - 1]
    }
}

/// Join the lines of `lines[start..end]` with newline separators.
pub fn get_line_range(lines: &Vec<String>, start: usize, end: usize) -> (r: String)
    requires
        start <= end,
        end <= lines@.len(),
    ensures
        r@ == join_range(lines@.map_values(|l: String| l@), start as int, end as int),
{
    let ghost lv = lines@.map_values(|l: String| l@);
    let mut out = String::new();
    let mut idx: usize = start;
    while idx < end
        invariant
            start <= idx <= end <= lines@.len(),
            lv == lines@.map_values(|l: String| l@),
            out@ == join_range(lv, start as int, idx as int),
        decreases end - idx,
    {
        let ghost out0 = out@;
        if idx > start {
            out.append("\n");
        }
        out.append(lines[idx].as_str());
        proof {
            if idx == start {
                assert(out@ =~= lv[idx as int]);
            } else {
                assert(out@ =~= join_range(lv, start as int, idx as int) + "\n"@ + lv[idx as int]);
            }
        }
        idx = idx + 1;
    }
    out
}

/// The character change that flushing the pending runs at walk position
/// `(i, j)` emits: the deleted run spans `i..del_end`, the inserted run
/// `j..ins_end`; a missing run has length zero.
pub open spec fn pending_change(i: int, j: int, del_end: Option<int>, ins_end: Option<int>) -> CharChange {
    CharChange {
        original_start: i as usize,
        original_length: (match del_end {
            Option::Some(e) => e - i,
            Option::None => 0,
        }) as usize,
        modified_start: j as usize,
        modified_length: (match ins_end {
            Option::Some(e) => e - j,
            Option::None => 0,
        }) as usize,
    }
}

pub open spec fn has_pending(del_end: Option<int>, ins_end: Option<int>) -> bool {
    del_end is Some || ins_end is Some
}

/// The chronological character changes that backtracking from cell
/// `(i, j)` recovers: deletion and insertion runs accumulate while the
/// walk moves, and are flushed as one combined record whenever a
/// matching character pair is met, and once more at termination.
pub open spec fn raw_char_ops(
    dp: Seq<Seq<usize>>,
    a: Seq<char>,
    b: Seq<char>,
    i: int,
    j: int,
    del_end: Option<int>,
    ins_end: Option<int>,
) -> Seq<CharChange>
    decreases i + j,
{
    if i < 0 || j < 0 {
        Seq::empty()
    } else if i == 0 && j == 0 {
        if has_pending(del_end, ins_end) {
            seq![pending_change(0, 0, del_end, ins_end)]
        } else {
            Seq::empty()
        }
    } else if i > 0 && j > 0 && a[i - 1] == b[j - 1] {
        let rest = raw_char_ops(dp, a, b, i - 1, j - 1, Option::None, Option::None);
        if has_pending(del_end, ins_end) {
            rest.push(pending_change(i, j, del_end, ins_end))
        } else {
            rest
        }
    } else if i > 0 && (j == 0 || dp[i][j] == dp[i - 1][j]) {
        raw_char_ops(
            dp,
            a,
            b,
            i - 1,
            j,
            if del_end is Some {
                del_end
            } else {
                Option::Some(i)
            },
            ins_end,
        )
    } else {
        raw_char_ops(
            dp,
            a,
            b,
            i,
            j - 1,
            del_end,
            if ins_end is Some {
                ins_end
            } else {
                Option::Some(j)
            },
        )
    }
}

/// The character-level diff of two spans: the walk over the full
/// (untruncated) character LCS table, from the far corner, with no
/// pending runs.
pub open spec fn char_diff_spec(a: Seq<char>, b: Seq<char>) -> Seq<CharChange> {
    if a.len() == 0 && b.len() == 0 {
        Seq::empty()
    } else {
        raw_char_ops(
            table_of(a, b, a.len() as int),
            a,
            b,
            a.len() as int,
            b.len() as int,
            Option::None,
            Option::None,
        )
    }
}

/// A character change lies inside spans of the given lengths and
/// reports at least one non-empty run.
pub open spec fn char_change_contained(c: CharChange, orig_len: int, mod_len: int) -> bool {
    &&& c.original_start + c.original_length <= orig_len
    &&& c.modified_start + c.modified_length <= mod_len
    &&& (c.original_length > 0 || c.modified_length > 0)
}

pub open spec fn pend_ok(p: Option<int>, pos: int, len: int) -> bool {
    match p {
        Option::Some(e) => pos < e <= len,
        Option::None => true,
    }
}

proof fn lemma_raw_char_ops_contained(
    dp: Seq<Seq<usize>>,
    a: Seq<char>,
    b: Seq<char>,
    i: int,
    j: int,
    del_end: Option<int>,
    ins_end: Option<int>,
    orig_len: int,
    mod_len: int,
)
    requires
        0 <= i <= orig_len <= usize::MAX,
        0 <= j <= mod_len <= usize::MAX,
        pend_ok(del_end, i, orig_len),
        pend_ok(ins_end, j, mod_len),
    ensures
        forall|t: int|
            0 <= t < raw_char_ops(dp, a, b, i, j, del_end, ins_end).len() ==> char_change_contained(
                #[trigger] raw_char_ops(dp, a, b, i, j, del_end, ins_end)[t],
                orig_len,
                mod_len,
            ),
    decreases i + j,
{
    let s = raw_char_ops(dp, a, b, i, j, del_end, ins_end);
    if i == 0 && j == 0 {
        if has_pending(del_end, ins_end) {
            assert(s[0] == pending_change(0, 0, del_end, ins_end));
        }
    } else if i > 0 && j > 0 && a[i - 1] == b[j - 1] {
        lemma_raw_char_ops_contained(
            dp,
            a,
            b,
            i - 1,
            j - 1,
            Option::None,
            Option::None,
            orig_len,
            mod_len,
        );
        let rest = raw_char_ops(dp, a, b, i - 1, j - 1, Option::None, Option::None);
        if has_pending(del_end, ins_end) {
            assert forall|t: int| 0 <= t < s.len() implies char_change_contained(
                #[trigger] s[t],
                orig_len,
                mod_len,
            ) by {
                if t < rest.len() {
                    assert(s[t] == rest[t]);
                } else {
                    assert(s[t] == pending_change(i, j, del_end, ins_end));
                }
            }
        } else {
            assert(s == rest);
            assert forall|t: int| 0 <= t < s.len() implies char_change_contained(
                #[trigger] s[t],
                orig_len,
                mod_len,
            ) by {
                assert(s[t] == rest[t]);
            }
        }
    } else if i > 0 && (j == 0 || dp[i][j] == dp[i - 1][j]) {
        let nd = if del_end is Some {
            del_end
        } else {
            Option::Some(i)
        };
        lemma_raw_char_ops_contained(dp, a, b, i - 1, j, nd, ins_end, orig_len, mod_len);
        let rest = raw_char_ops(dp, a, b, i - 1, j, nd, ins_end);
        assert(s == rest);
        assert forall|t: int| 0 <= t < s.len() implies char_change_contained(
            #[trigger] s[t],
            orig_len,
            mod_len,
        ) by {
            assert(s[t] == rest[t]);
        }
    } else {
        let ni = if ins_end is Some {
            ins_end
        } else {
            Option::Some(j)
        };
        lemma_raw_char_ops_contained(dp, a, b, i, j - 1, del_end, ni, orig_len, mod_len);
        let rest = raw_char_ops(dp, a, b, i, j - 1, del_end, ni);
        assert(s == rest);
        assert forall|t: int| 0 <= t < s.len() implies char_change_contained(
            #[trigger] s[t],
            orig_len,
            mod_len,
        ) by {
            assert(s[t] == rest[t]);
        }
    }
}

/// Law: every character change that the character diff reports stays
/// inside the two spans — the deleted run inside the original span, the
/// inserted run inside the modified span — and never has both lengths
/// zero.
pub proof fn lemma_char_diff_contained(a: Seq<char>, b: Seq<char>)
    requires
        a.len() <= usize::MAX,
        b.len() <= usize::MAX,
    ensures
        forall|t: int|
            0 <= t < char_diff_spec(a, b).len() ==> char_change_contained(
                #[trigger] char_diff_spec(a, b)[t],
                a.len() as int,
                b.len() as int,
            ),
{
    if a.len() == 0 && b.len() == 0 {
    } else {
        lemma_raw_char_ops_contained(
            table_of(a, b, a.len() as int),
            a,
            b,
            a.len() as int,
            b.len() as int,
            Option::None,
            Option::None,
            a.len() as int,
            b.len() as int,
        );
    }
}

/// The characters of `s`, in order, as a vector.
fn str_chars_vec(s: &str) -> (v: Vec<char>)
    ensures
        v@ == s@,
{
    let n = s.unicode_len();
    let mut v: Vec<char> = Vec::new();
    let mut i: usize = 0;
    while i < n
        invariant
            n == s@.len(),
            i <= n,
            v@.len() == i,
            forall|t: int| 0 <= t < i ==> v@[t] == s@[t],
        decreases n - i,
    {
        let c = s.get_char(i);
        v.push(c);
        i = i + 1;
    }
    proof {
        assert(v@ =~= s@);
    }
    v
}

pub open spec fn opt_view(o: Option<usize>) -> Option<int> {
    match o {
        Option::Some(v) => Option::Some(v as int),
        Option::None => Option::None,
    }
}

/// Character-level LCS diff of two spans of text: build the full table,
/// walk it backward, and coalesce adjacent deletion and insertion runs
/// into combined change records.
pub fn compute_char_diff(original: &str, modified: &str) -> (r: Vec<CharChange>)
    ensures
        original@.len() < usize::MAX && modified@.len() < usize::MAX ==> r@ == char_diff_spec(
            original@,
            modified@,
        ),
        forall|t: int|
            0 <= t < r@.len() ==> char_change_contained(
                #[trigger] r@[t],
                original@.len() as int,
                modified@.len() as int,
            ),
{
    let orig_chars = str_chars_vec(original);
    let mod_chars = str_chars_vec(modified);
    let m = orig_chars.len();
    let n = mod_chars.len();
    if m == 0 && n == 0 {
        let r: Vec<CharChange> = Vec::new();
        return r;
    }
    if m == usize::MAX || n == usize::MAX {
        // A span this long cannot arise from real text; there is no room
        // to build its table, so report no character detail for it.
        let r: Vec<CharChange> = Vec::new();
        return r;
    }
    let ghost aa = original@;
    let ghost bb = modified@;
    let dp = build_char_table(&orig_chars, &mod_chars);
    let ghost dpv = matrix_view(dp@);
    let ghost full = raw_char_ops(dpv, aa, bb, m as int, n as int, Option::None, Option::None);
    proof {
        assert(matrix_view(dp@) == table_of(aa, bb, m as int));
        assert(matrix_view(dp@).len() == dp@.len());
        assert(table_of(aa, bb, m as int).len() == m + 1);
        assert(dp@.len() == m + 1);
        assert forall|t: int| 0 <= t < dp@.len() implies (#[trigger] dp@[t])@.len() == n + 1 by {
            assert(matrix_view(dp@)[t] == dp@[t]@);
            assert(table_of(aa, bb, m as int)[t].len() == n + 1);
        }
    }
    let mut rev: Vec<CharChange> = Vec::new();
    let mut i: usize = m;
    let mut j: usize = n;
    let mut del_end: Option<usize> = None;
    let mut ins_end: Option<usize> = None;
    proof {
        assert(full =~= raw_char_ops(dpv, aa, bb, i as int, j as int, opt_view(del_end), opt_view(ins_end))
            + rev@.reverse());
    }
    while i > 0 || j > 0
        invariant
            orig_chars@ == aa,
            mod_chars@ == bb,
            m == aa.len() < usize::MAX,
            n == bb.len() < usize::MAX,
            matrix_view(dp@) == dpv,
            dp@.len() == m + 1,
            forall|t: int| 0 <= t < dp@.len() ==> (#[trigger] dp@[t])@.len() == n + 1,
            i <= m,
            j <= n,
            match del_end {
                Option::Some(e) => i < e <= m,
                Option::None => true,
            },
            match ins_end {
                Option::Some(e) => j < e <= n,
                Option::None => true,
            },
            full == raw_char_ops(
                dpv,
                aa,
                bb,
                i as int,
                j as int,
                opt_view(del_end),
                opt_view(ins_end),
            ) + rev@.reverse(),
        decreases i + j,
    {
        let ghost rev0 = rev@;
        let ghost ii = i as int;
        let ghost jj = j as int;
        let ghost de0 = opt_view(del_end);
        let ghost ie0 = opt_view(ins_end);
        if i > 0 && j > 0 && orig_chars[i - 1] == mod_chars[j - 1] {
            if del_end.is_some() || ins_end.is_some() {
                let dl: usize = match del_end {
                    Some(e) => e - i,
                    None => 0,
                };
                let il: usize = match ins_end {
                    Some(e) => e - j,
                    None => 0,
                };
                rev.push(
                    CharChange {
                        original_start: i,
                        original_length: dl,
                        modified_start: j,
                        modified_length: il,
                    },
                );
                del_end = None;
                ins_end = None;
                proof {
                    assert(rev@.last() == pending_change(ii, jj, de0, ie0));
                }
            }
            i = i - 1;
            j = j - 1;
            proof {
                let rest = raw_char_ops(dpv, aa, bb, ii - 1, jj - 1, Option::None, Option::None);
                if has_pending(de0, ie0) {
                    assert(raw_char_ops(dpv, aa, bb, ii, jj, de0, ie0) == rest.push(
                        pending_change(ii, jj, de0, ie0),
                    ));
                    assert(rest + rev@.reverse() =~= raw_char_ops(dpv, aa, bb, ii, jj, de0, ie0)
                        + rev0.reverse());
                } else {
                    assert(raw_char_ops(dpv, aa, bb, ii, jj, de0, ie0) == rest);
                }
            }
        } else if i > 0 && (j == 0 || dp[i][j] == dp[i - 1][j]) {
            if del_end.is_none() {
                del_end = Some(i);
            }
            i = i - 1;
        } else {
            if ins_end.is_none() {
                ins_end = Some(j);
            }
            j = j - 1;
        }
    }
    if del_end.is_some() || ins_end.is_some() {
        let ghost de0 = opt_view(del_end);
        let ghost ie0 = opt_view(ins_end);
        let dl: usize = match del_end {
            Some(e) => e,
            None => 0,
        };
        let il: usize = match ins_end {
            Some(e) => e,
            None => 0,
        };
        rev.push(
            CharChange { original_start: 0, original_length: dl, modified_start: 0, modified_length: il },
        );
        proof {
            assert(rev@.last() == pending_change(0, 0, de0, ie0));
            assert(full =~= rev@.reverse());
        }
    } else {
        proof {
            assert(full =~= rev@.reverse());
        }
    }
    let mut out: Vec<CharChange> = Vec::new();
    while rev.len() > 0
        invariant
            full == out@ + rev@.reverse(),
        decreases rev@.len(),
    {
        let ghost rev0 = rev@;
        let ghost out0 = out@;
        let x = rev.pop().unwrap();
        out.push(x);
        proof {
            assert(rev0.reverse() =~= seq![rev0.last()] + rev@.reverse());
            assert(out@ + rev@.reverse() =~= out0 + rev0.reverse());
        }
    }
    proof {
        assert(out@ =~= full);
        assert(char_diff_spec(aa, bb) == full);
        lemma_char_diff_contained(aa, bb);
    }
    out
}

/// `out` is `base` with character detail attached: the same change, and,
/// when `base` is a modification, `char_changes` holds the character
/// diff of the two joined spans (for any span that fits in memory) with
/// every record contained in its span.
pub open spec fn char_augmented(
    out: LineChange,
    base: LineChange,
    orig: Seq<Seq<char>>,
    modi: Seq<Seq<char>>,
) -> bool {
    &&& out.original_start == base.original_start
    &&& out.original_end == base.original_end
    &&& out.modified_start == base.modified_start
    &&& out.modified_end == base.modified_end
    &&& out.change_type == base.change_type
    &&& if base.change_type == ChangeType::Modified {
        let so = join_range(orig, base.original_start as int, base.original_end as int);
        let sm = join_range(modi, base.modified_start as int, base.modified_end as int);
        &&& out.char_changes is Some
        &&& (so.len() < usize::MAX && sm.len() < usize::MAX ==> (out.char_changes->Some_0)@
            == char_diff_spec(so, sm))
        &&& forall|t: int|
            0 <= t < (out.char_changes->Some_0)@.len() ==> char_change_contained(
                #[trigger] (out.char_changes->Some_0)@[t],
                so.len() as int,
                sm.len() as int,
            )
    } else {
        out.char_changes == base.char_changes
    }
}

/// For every modified change, attach the character-level diff of the
/// text its two ranges span; added and deleted changes pass through
/// untouched.
pub fn compute_character_changes(
    changes: Vec<LineChange>,
    original_lines: &Vec<String>,
    modified_lines: &Vec<String>,
) -> (r: Vec<LineChange>)
    requires
        forall|t: int|
            0 <= t < changes@.len() && (#[trigger] changes@[t]).change_type == ChangeType::Modified
                ==> change_in_bounds(changes@[t], original_lines@.len() as int, modified_lines@.len() as int),
    ensures
        r@.len() == changes@.len(),
        forall|t: int|
            0 <= t < changes@.len() ==> char_augmented(
                #[trigger] r@[t],
                changes@[t],
                original_lines@.map_values(|l: String| l@),
                modified_lines@.map_values(|l: String| l@),
            ),
{
    let ghost all = changes@;
    let ghost vo = original_lines@.map_values(|l: String| l@);
    let ghost vm = modified_lines@.map_values(|l: String| l@);
    let mut rest = changes;
    let mut out: Vec<LineChange> = Vec::new();
    proof {
        assert(rest@ =~= all.skip(0));
    }
    while rest.len() > 0
        invariant
            vo == original_lines@.map_values(|l: String| l@),
            vm == modified_lines@.map_values(|l: String| l@),
            out@.len() + rest@.len() == all.len(),
            rest@ == all.skip(out@.len() as int),
            forall|t: int|
                0 <= t < all.len() && (#[trigger] all[t]).change_type == ChangeType::Modified
                    ==> change_in_bounds(all[t], original_lines@.len() as int, modified_lines@.len() as int),
            forall|t: int|
                0 <= t < out@.len() ==> char_augmented(#[trigger] out@[t], all[t], vo, vm),
        decreases rest@.len(),
    {
        let ghost done = out@.len() as int;
        let c = rest.remove(0);
        proof {
            assert(c == all[done]);
            assert(rest@ =~= all.skip(done + 1));
        }
        if c.change_type == ChangeType::Modified {
            let orig_text = get_line_range(original_lines, c.original_start, c.original_end);
            let mod_text = get_line_range(modified_lines, c.modified_start, c.modified_end);
            let cc = compute_char_diff(orig_text.as_str(), mod_text.as_str());
            out.push(
                LineChange {
                    original_start: c.original_start,
                    original_end: c.original_end,
                    modified_start: c.modified_start,
                    modified_end: c.modified_end,
                    change_type: c.change_type,
                    char_changes: Some(cc),
                },
            );
        } else {
            out.push(c);
        }
    }
    out
}

} // verus!
