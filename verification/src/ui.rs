use crate::types::{ChangeType, LineChange};
use vstd::prelude::*;
use vstd::string::StringExecFns;

verus! {

/// The decimal digit character for `d` in `0..10`.
pub open spec fn dec_digit(d: int) -> char {
    if d == 0 {
        '0'
    } else if d == 1 {
        '1'
    } else if d == 2 {
        '2'
    } else if d == 3 {
        '3'
    } else if d == 4 {
        '4'
    } else if d == 5 {
        '5'
    } else if d == 6 {
        '6'
    } else if d == 7 {
        '7'
    } else if d == 8 {
        '8'
    } else {
        '9'
    }
}

/// The decimal digits of a non-negative number, most significant first.
pub open spec fn dec_digits(n: int) -> Seq<char>
    decreases n,
{
    if n < 10 {
        seq![dec_digit(n)]
    } else {
        dec_digits(n / 10).push(dec_digit(n % 10))
    }
}

fn digit_str(d: usize) -> (r: &'static str)
    requires
        d < 10,
    ensures
        r@ == seq![dec_digit(d as int)],
{
    let r: &'static str = match d {
        0 => "0",
        1 => "1",
        2 => "2",
        3 => "3",
        4 => "4",
        5 => "5",
        6 => "6",
        7 => "7",
        8 => "8",
        _ => "9",
    };
    proof {
        reveal_strlit("0");
        reveal_strlit("1");
        reveal_strlit("2");
        reveal_strlit("3");
        reveal_strlit("4");
        reveal_strlit("5");
        reveal_strlit("6");
        reveal_strlit("7");
        reveal_strlit("8");
        reveal_strlit("9");
        assert(r@ =~= seq![dec_digit(d as int)]);
    }
    r
}

/// Render a number in decimal.
fn decimal_string(n: usize) -> (r: String)
    ensures
        r@ == dec_digits(n as int),
    decreases n,
{
    if n < 10 {
        String::from_str(digit_str(n))
    } else {
        let mut s = decimal_string(n / 10);
        s.append(digit_str(n % 10));
        proof {
            assert((n / 10) as int == (n as int) / 10);
            assert((n % 10) as int == (n as int) % 10);
            assert(s@ =~= dec_digits((n as int) / 10).push(dec_digit((n as int) % 10)));
        }
        s
    }
}

/// The rendered form of a half-open range, in the 1-based inclusive
/// "start,count" notation of unified-diff headers: an empty range shows
/// its 0-based position with count 0, a single line shows only its
/// 1-based number, anything longer shows 1-based start and count.
pub open spec fn range_display(start: int, end: int) -> Seq<char> {
    let count = end - start;
    if count == 0 {
        dec_digits(start) + ",0"@
    } else if count == 1 {
        dec_digits(start + 1)
    } else {
        dec_digits(start + 1) + ","@ + dec_digits(count)
    }
}

/// Render one half-open line range for a hunk header.
pub fn format_range(start: usize, end: usize) -> (r: String)
    requires
        start <= end,
    ensures
        r@ == range_display(start as int, end as int),
{
    let count = end - start;
    if count == 0 {
        let mut s = decimal_string(start);
        s.append(",0");
        s
    } else if count == 1 {
        decimal_string(start + 1)
    } else {
        let mut s = decimal_string(start + 1);
        s.append(",");
        let c = decimal_string(count);
        s.append(c.as_str());
        s
    }
}

/// The rendered hunk for one change: its header line with both ranges,
/// then one summary line for what happened, and for a modification with
/// character detail a count of the character-level changes.
pub open spec fn hunk_display(c: LineChange) -> Seq<char> {
    let head = "\n@@ -"@ + range_display(c.original_start as int, c.original_end as int) + " +"@
        + range_display(c.modified_start as int, c.modified_end as int) + " @@\n"@;
    let body = if c.change_type == ChangeType::Added {
        "+"@ + dec_digits(c.modified_end - c.modified_start) + " line(s) added\n"@
    } else if c.change_type == ChangeType::Deleted {
        "-"@ + dec_digits(c.original_end - c.original_start) + " line(s) deleted\n"@
    } else {
        "~"@ + dec_digits(c.original_end - c.original_start) + " line(s) modified\n"@ + (
        match c.char_changes {
            Option::Some(cc) => "  ("@ + dec_digits(cc@.len() as int)
                + " character-level changes)\n"@,
            Option::None => Seq::<char>::empty(),
        })
    };
    head + body
}

/// The first `upto` hunks, rendered in order.
pub open spec fn hunks_display(changes: Seq<LineChange>, upto: int) -> Seq<char>
    decreases upto,
{
    if upto <= 0 {
        Seq::empty()
    } else {
        hunks_display(changes, upto - 1) + hunk_display(changes[upto - 1])
    }
}

/// The whole report: both file names, then either a note that the files
/// are identical or the hunks in order.
pub open spec fn unified_display(f1: Seq<char>, f2: Seq<char>, changes: Seq<LineChange>) -> Seq<
    char,
> {
    let header = "--- "@ + f1 + "\n+++ "@ + f2 + "\n"@;
    if changes.len() == 0 {
        header + "\nFiles are identical\n"@
    } else {
        header + hunks_display(changes, changes.len() as int)
    }
}

/// Render a sequence of line changes as a unified-diff-style report.
#[verifier::rlimit(100)]
pub fn format_unified_diff(
    file1_path: &str,
    file2_path: &str,
    changes: &Vec<LineChange>,
) -> (r: String)
    requires
        forall|t: int|
            0 <= t < changes@.len() ==> (#[trigger] changes@[t]).original_start
                <= changes@[t].original_end && changes@[t].modified_start
                <= changes@[t].modified_end,
    ensures
        r@ == unified_display(file1_path@, file2_path@, changes@),
{
    let mut out = String::new();
    out.append("--- ");
    out.append(file1_path);
    out.append("\n+++ ");
    out.append(file2_path);
    out.append("\n");
    let ghost header = "--- "@ + file1_path@ + "\n+++ "@ + file2_path@ + "\n"@;
    proof {
        assert(out@ =~= header);
    }
    if changes.len() == 0 {
        out.append("\nFiles are identical\n");
        proof {
            assert(out@ =~= unified_display(file1_path@, file2_path@, changes@));
        }
        return out;
    }
    let mut t: usize = 0;
    while t < changes.len()
        invariant
            forall|s: int|
                0 <= s < changes@.len() ==> (#[trigger] changes@[s]).original_start
                    <= changes@[s].original_end && changes@[s].modified_start
                    <= changes@[s].modified_end,
            t <= changes@.len(),
            out@ == header + hunks_display(changes@, t as int),
        decreases changes@.len() - t,
    {
        let c = &changes[t];
        let ghost out_top = out@;
        out.append("\n@@ -");
        let r1 = format_range(c.original_start, c.original_end);
        out.append(r1.as_str());
        out.append(" +");
        let r2 = format_range(c.modified_start, c.modified_end);
        out.append(r2.as_str());
        out.append(" @@\n");
        if c.change_type == ChangeType::Added {
            out.append("+");
            let d = decimal_string(c.modified_end - c.modified_start);
            out.append(d.as_str());
            out.append(" line(s) added\n");
        } else if c.change_type == ChangeType::Deleted {
            out.append("-");
            let d = decimal_string(c.original_end - c.original_start);
            out.append(d.as_str());
            out.append(" line(s) deleted\n");
        } else {
            out.append("~");
            let d = decimal_string(c.original_end - c.original_start);
            out.append(d.as_str());
            out.append(" line(s) modified\n");
            match &c.char_changes {
                Option::Some(cc) => {
                    out.append("  (");
                    let d2 = decimal_string(cc.len());
                    out.append(d2.as_str());
                    out.append(" character-level changes)\n");
                },
                Option::None => {},
            }
        }
        proof {
            assert(out@ =~= out_top + hunk_display(changes@[t as int]));
            assert(hunks_display(changes@, t as int + 1) == hunks_display(changes@, t as int)
                + hunk_display(changes@[t as int]));
            assert(out@ =~= header + hunks_display(changes@, t as int + 1));
        }
        t = t + 1;
    }
    out
}

} // verus!
