use vstd::prelude::*;

verus! {

/// `p` occurs in `h` as a run of consecutive characters (the empty `p` occurs in every `h`).
pub open spec fn has_sub(h: Seq<char>, p: Seq<char>) -> bool {
    exists|i: int| 0 <= i <= h.len() - p.len() && #[trigger] h.subrange(i, i + p.len()) == p
}

/// Tells whether `p` occurs in `h`, case-sensitive and character for character.
pub fn contains_chars(h: &Vec<char>, p: &Vec<char>) -> (r: bool)
    ensures
        r == has_sub(h@, p@),
{
    if p.len() == 0 {
        assert(h@.subrange(0int, 0int + p@.len()) =~= p@);
        return true;
    }
    if p.len() > h.len() {
        return false;
    }
    let last: usize = h.len() - p.len();
    let mut i: usize = 0;
    while i <= last
        invariant
            last == h@.len() - p@.len(),
            0 < p@.len() <= h@.len() <= usize::MAX,
            i <= last + 1,
            forall|k: int| 0 <= k < i ==> #[trigger] h@.subrange(k, k + p@.len()) != p@,
        decreases last + 1 - i,
    {
        let mut j: usize = 0;
        while j < p.len() && h[i + j] == p[j]
            invariant
                i <= last,
                last == h@.len() - p@.len(),
                i + p@.len() <= h@.len() <= usize::MAX,
                j <= p@.len(),
                forall|m: int| 0 <= m < j ==> h@[i + m] == p@[m],
            decreases p.len() - j,
        {
            j = j + 1;
        }
        if j == p.len() {
            assert(h@.subrange(i as int, i + p@.len()) =~= p@);
            return true;
        }
        assert(h@.subrange(i as int, i + p@.len())[j as int] != p@[j as int]);
        i = i + 1;
    }
    false
}

} // verus!
