use crate::types::DiffOptions;
use vstd::prelude::*;

verus! {

/// The characters of `s` with leading and trailing whitespace removed.
/// Which characters count as whitespace is Unicode's business; callers
/// rely only on the facts the wrapper below states.
pub uninterp spec fn trimmed_of(s: Seq<char>) -> Seq<char>;

/// The lowercase folding of the characters of `s`. The folding is a
/// function of the characters alone.
pub uninterp spec fn folded_of(s: Seq<char>) -> Seq<char>;

/// Relies on `str::trim`: removes leading and trailing whitespace, a
/// function of the characters alone; an empty string stays empty.
#[verifier::external_body]
fn trim_line(line: &String) -> (r: String)
    ensures
        r@ == trimmed_of(line@),
        line@.len() == 0 ==> r@.len() == 0,
{
    line.trim().to_string()
}

/// Relies on `str::to_lowercase`: the result is a function of the
/// characters alone; an empty string stays empty.
#[verifier::external_body]
fn fold_case_line(line: &String) -> (r: String)
    ensures
        r@ == folded_of(line@),
        line@.len() == 0 ==> r@.len() == 0,
{
    line.to_lowercase()
}

/// The comparison key of one line under the given options: whitespace is
/// trimmed first, then case is folded.
pub open spec fn normalize_line(l: Seq<char>, options: DiffOptions) -> Seq<char> {
    let t = if options.ignore_whitespace {
        trimmed_of(l)
    } else {
        l
    };
    if options.ignore_case {
        folded_of(t)
    } else {
        t
    }
}

/// The comparison keys of a whole line sequence.
pub open spec fn normalize_all(lines: Seq<Seq<char>>, options: DiffOptions) -> Seq<Seq<char>> {
    lines.map_values(|l: Seq<char>| normalize_line(l, options))
}

/// Turn raw lines into comparison keys according to the options.
pub fn preprocess_lines(lines: &Vec<String>, options: &DiffOptions) -> (r: Vec<String>)
    ensures
        r@.len() == lines@.len(),
        forall|t: int| 0 <= t < lines@.len() ==> r@[t]@ == normalize_line(lines@[t]@, *options),
{
    let mut r: Vec<String> = Vec::new();
    let mut i: usize = 0;
    while i < lines.len()
        invariant
            i <= lines@.len(),
            r@.len() == i,
            forall|t: int| 0 <= t < i ==> r@[t]@ == normalize_line(lines@[t]@, *options),
        decreases lines@.len() - i,
    {
        let mut processed = lines[i].clone();
        if options.ignore_whitespace {
            processed = trim_line(&processed);
        }
        if options.ignore_case {
            processed = fold_case_line(&processed);
        }
        r.push(processed);
        i = i + 1;
    }
    r
}

} // verus!
