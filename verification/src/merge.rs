use crate::types::{change_in_bounds, ChangeType, LineChange};
use vstd::prelude::*;

verus! {

/// The merge predicate: a Deleted followed directly by an Added merges
/// (and promotes to Modified); two changes of one type merge when their
/// ranges are contiguous on both axes.
pub open spec fn should_merge_spec(a: LineChange, b: LineChange) -> bool {
    ||| (a.change_type == ChangeType::Deleted && b.change_type == ChangeType::Added)
    ||| (a.change_type == b.change_type && a.original_end == b.original_start
        && a.modified_end == b.modified_start)
}

/// The accumulator after absorbing `nxt`: both ranges extend to `nxt`'s
/// ends, and a Deleted absorbing an Added becomes Modified.
pub open spec fn merged_pair(cur: LineChange, nxt: LineChange) -> LineChange {
    LineChange {
        original_start: cur.original_start,
        original_end: nxt.original_end,
        modified_start: cur.modified_start,
        modified_end: nxt.modified_end,
        change_type: if cur.change_type == ChangeType::Deleted && nxt.change_type
            == ChangeType::Added {
            ChangeType::Modified
        } else {
            cur.change_type
        },
        char_changes: cur.char_changes,
    }
}

/// The left-to-right fold of the merger: `cur` is the in-progress range,
/// `done` the changes already flushed.
pub open spec fn merge_from(
    rest: Seq<LineChange>,
    cur: LineChange,
    done: Seq<LineChange>,
) -> Seq<LineChange>
    decreases rest.len(),
{
    if rest.len() == 0 {
        done.push(cur)
    } else if should_merge_spec(cur, rest[0]) {
        merge_from(rest.drop_first(), merged_pair(cur, rest[0]), done)
    } else {
        merge_from(rest.drop_first(), rest[0], done.push(cur))
    }
}

/// What merging a chronological operation sequence yields.
pub open spec fn merge_all(ops: Seq<LineChange>) -> Seq<LineChange> {
    if ops.len() == 0 {
        Seq::empty()
    } else {
        merge_from(ops.drop_first(), ops[0], Seq::empty())
    }
}

/// Whether `b` may be absorbed into the in-progress range `a`.
pub fn should_merge(a: &LineChange, b: &LineChange) -> (r: bool)
    ensures
        r == should_merge_spec(*a, *b),
{
    (a.change_type == ChangeType::Deleted && b.change_type == ChangeType::Added) || (a.change_type
        == b.change_type && a.original_end == b.original_start && a.modified_end
        == b.modified_start)
}

/// Coalesce a chronological sequence of changes with one running
/// accumulator, flushing it whenever the next change cannot be absorbed.
pub fn merge_adjacent_changes(changes: Vec<LineChange>) -> (r: Vec<LineChange>)
    ensures
        r@ == merge_all(changes@),
{
    let ghost orig = changes@;
    if changes.len() == 0 {
        return changes;
    }
    let mut rest = changes;
    let mut current = rest.remove(0);
    proof {
        assert(rest@ =~= orig.drop_first());
    }
    let mut merged: Vec<LineChange> = Vec::new();
    while rest.len() > 0
        invariant
            merge_all(orig) == merge_from(rest@, current, merged@),
        decreases rest@.len(),
    {
        let c = rest.remove(0);
        let ghost rest0 = rest@;
        proof {
            assert(rest@ =~= rest0);
        }
        if should_merge(&current, &c) {
            let ghost cur0 = current;
            current.original_end = c.original_end;
            current.modified_end = c.modified_end;
            if current.change_type == ChangeType::Deleted && c.change_type == ChangeType::Added {
                current.change_type = ChangeType::Modified;
            }
            proof {
                assert(current == merged_pair(cur0, c));
            }
        } else {
            merged.push(current);
            current = c;
        }
    }
    merged.push(current);
    merged
}

/// No adjacent pair of `s` satisfies the merge predicate: `s` looks like
/// output of the merger that cannot be coalesced further.
pub open spec fn already_merged(s: Seq<LineChange>) -> bool {
    forall|t: int| 0 <= t < s.len() - 1 ==> !should_merge_spec(#[trigger] s[t], s[t + 1])
}

proof fn lemma_merge_from_no_merge(rest: Seq<LineChange>, cur: LineChange, done: Seq<LineChange>)
    requires
        already_merged(rest),
        rest.len() > 0 ==> !should_merge_spec(cur, rest[0]),
    ensures
        merge_from(rest, cur, done) == done.push(cur) + rest,
    decreases rest.len(),
{
    if rest.len() == 0 {
        assert(done.push(cur) + rest =~= done.push(cur));
    } else {
        let tail = rest.drop_first();
        assert(forall|t: int| 0 <= t < tail.len() ==> tail[t] == rest[t + 1]);
        lemma_merge_from_no_merge(tail, rest[0], done.push(cur));
        assert(done.push(cur).push(rest[0]) + tail =~= done.push(cur) + rest);
    }
}

/// Law: the merger leaves an already-merged sequence unchanged, so
/// re-running it on its own output — once that output cannot be
/// coalesced further — reproduces that output exactly.
pub proof fn lemma_merge_idempotent(s: Seq<LineChange>)
    requires
        already_merged(s),
    ensures
        merge_all(s) == s,
{
    if s.len() == 0 {
        assert(merge_all(s) =~= s);
    } else {
        let tail = s.drop_first();
        assert(forall|t: int| 0 <= t < tail.len() ==> tail[t] == s[t + 1]);
        lemma_merge_from_no_merge(tail, s[0], Seq::empty());
        assert(Seq::empty().push(s[0]) + tail =~= s);
    }
}

/// A chronological operation sequence: every change lies inside the two
/// line ranges, its own ranges are well formed, and later changes start
/// at or after where earlier ones end, on both axes.
pub open spec fn ops_chained(s: Seq<LineChange>, orig_len: int, mod_len: int) -> bool {
    &&& forall|t: int| 0 <= t < s.len() ==> change_in_bounds(#[trigger] s[t], orig_len, mod_len)
    &&& forall|t1: int, t2: int|
        #![trigger s[t1], s[t2]]
        0 <= t1 < t2 < s.len() ==> s[t1].original_end <= s[t2].original_start
            && s[t1].modified_end <= s[t2].modified_start
}

proof fn lemma_merge_from_bounds(
    rest: Seq<LineChange>,
    cur: LineChange,
    done: Seq<LineChange>,
    orig_len: int,
    mod_len: int,
)
    requires
        ops_chained(rest, orig_len, mod_len),
        change_in_bounds(cur, orig_len, mod_len),
        forall|t: int|
            0 <= t < rest.len() ==> cur.original_end <= (#[trigger] rest[t]).original_start
                && cur.modified_end <= rest[t].modified_start,
        forall|t: int| 0 <= t < done.len() ==> change_in_bounds(#[trigger] done[t], orig_len, mod_len),
    ensures
        forall|t: int|
            0 <= t < merge_from(rest, cur, done).len() ==> change_in_bounds(
                #[trigger] merge_from(rest, cur, done)[t],
                orig_len,
                mod_len,
            ),
    decreases rest.len(),
{
    if rest.len() == 0 {
        let s = done.push(cur);
        assert(merge_from(rest, cur, done) == s);
        assert forall|t: int| 0 <= t < s.len() implies change_in_bounds(
            #[trigger] s[t],
            orig_len,
            mod_len,
        ) by {
            if t < done.len() {
                assert(s[t] == done[t]);
            } else {
                assert(s[t] == cur);
            }
        }
    } else {
        let tail = rest.drop_first();
        assert(forall|t: int| 0 <= t < tail.len() ==> tail[t] == rest[t + 1]);
        assert(change_in_bounds(rest[0], orig_len, mod_len));
        if should_merge_spec(cur, rest[0]) {
            let nc = merged_pair(cur, rest[0]);
            assert(change_in_bounds(nc, orig_len, mod_len));
            assert forall|t: int|
                0 <= t < tail.len() implies nc.original_end <= (#[trigger] tail[t]).original_start
                && nc.modified_end <= tail[t].modified_start by {
                assert(tail[t] == rest[t + 1]);
            }
            lemma_merge_from_bounds(tail, nc, done, orig_len, mod_len);
            assert(merge_from(rest, cur, done) == merge_from(tail, nc, done));
        } else {
            assert forall|t: int|
                0 <= t < tail.len() implies rest[0].original_end <= (
            #[trigger] tail[t]).original_start && rest[0].modified_end
                <= tail[t].modified_start by {
                assert(tail[t] == rest[t + 1]);
            }
            let d = done.push(cur);
            assert forall|t: int| 0 <= t < d.len() implies change_in_bounds(
                #[trigger] d[t],
                orig_len,
                mod_len,
            ) by {
                if t < done.len() {
                    assert(d[t] == done[t]);
                } else {
                    assert(d[t] == cur);
                }
            }
            lemma_merge_from_bounds(tail, rest[0], d, orig_len, mod_len);
            assert(merge_from(rest, cur, done) == merge_from(tail, rest[0], d));
        }
    }
}

/// Merging a chronological operation sequence yields changes whose
/// ranges all lie inside the two line sequences.
pub proof fn lemma_merge_preserves_bounds(ops: Seq<LineChange>, orig_len: int, mod_len: int)
    requires
        ops_chained(ops, orig_len, mod_len),
    ensures
        forall|t: int|
            0 <= t < merge_all(ops).len() ==> change_in_bounds(
                #[trigger] merge_all(ops)[t],
                orig_len,
                mod_len,
            ),
{
    if ops.len() > 0 {
        let tail = ops.drop_first();
        assert(forall|t: int| 0 <= t < tail.len() ==> tail[t] == ops[t + 1]);
        lemma_merge_from_bounds(tail, ops[0], Seq::empty(), orig_len, mod_len);
    }
}

} // verus!
