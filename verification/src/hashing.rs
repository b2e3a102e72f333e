use vstd::prelude::*;

verus! {

/// The surrogate that the hasher assigns to a line with the given
/// characters. The value is a function of the characters alone; nothing
/// else is known of it, so two distinct lines may share a surrogate (the
/// accepted collision risk of hash-based comparison).
pub uninterp spec fn line_hash_of(s: Seq<char>) -> u64;

/// Relies on `std::collections::hash_map::DefaultHasher`: hashers made by
/// `new` are documented to be equal to each other, so hashing a `String`
/// yields a value determined by its characters alone.
#[verifier::external_body]
fn hash_line(line: &String) -> (h: u64)
    ensures
        h == line_hash_of(line@),
{
    let mut hasher = std::collections::hash_map::DefaultHasher::new();
    std::hash::Hash::hash(line, &mut hasher);
    std::hash::Hasher::finish(&hasher)
}

/// The surrogate sequence of a sequence of (already normalized) lines.
pub open spec fn hash_all(lines: Seq<Seq<char>>) -> Seq<u64> {
    lines.map_values(|l: Seq<char>| line_hash_of(l))
}

/// Map each line to its comparison surrogate.
pub fn hash_lines(lines: &Vec<String>) -> (r: Vec<u64>)
    ensures
        r@ == hash_all(lines@.map_values(|l: String| l@)),
{
    let mut r: Vec<u64> = Vec::new();
    let mut i: usize = 0;
    while i < lines.len()
        invariant
            i <= lines@.len(),
            r@.len() == i,
            forall|t: int| 0 <= t < i ==> r@[t] == line_hash_of(lines@[t]@),
        decreases lines@.len() - i,
    {
        let h = hash_line(&lines[i]);
        r.push(h);
        i = i + 1;
    }
    proof {
        assert(r@ =~= hash_all(lines@.map_values(|l: String| l@)));
    }
    r
}

} // verus!
