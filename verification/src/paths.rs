//! Derived relative paths for a multi-file layout.

use vstd::prelude::*;

verus! {

/// The prefixes of a file's path segments: for each depth `i`, the first
/// `i + 1` segments, root first. Joined with the platform separator,
/// these are exactly the directories a file's relative location passes
/// through, the file's own path included last.
pub fn list_recursive_dirs(segs: &Vec<String>) -> (r: Vec<Vec<String>>)
    ensures
        r@.len() == segs@.len(),
        forall|i: int| 0 <= i < r@.len() ==> #[trigger] r@[i]@.len() == i + 1,
        forall|i: int, j: int|
            0 <= i < r@.len() && 0 <= j <= i ==> #[trigger] r@[i]@[j]@ == segs@[j]@,
{
    let n = segs.len();
    let mut r: Vec<Vec<String>> = Vec::new();
    let mut i: usize = 0;
    while i < n
        invariant
            n == segs@.len(),
            0 <= i <= segs@.len(),
            r@.len() == i,
            forall|x: int| 0 <= x < i as int ==> #[trigger] r@[x]@.len() == x + 1,
            forall|x: int, j: int|
                0 <= x < i as int && 0 <= j <= x ==> #[trigger] r@[x]@[j]@ == segs@[j]@,
        decreases segs@.len() - i,
    {
        let mut prefix: Vec<String> = Vec::new();
        let mut j: usize = 0;
        while j <= i
            invariant
                n == segs@.len(),
                0 <= j <= i + 1,
                i < n,
                i < segs@.len(),
                prefix@.len() == j,
                forall|y: int| 0 <= y < j as int ==> #[trigger] prefix@[y]@ == segs@[y]@,
            decreases i + 1 - j,
        {
            prefix.push(segs[j].clone());
            j = j + 1;
        }
        r.push(prefix);
        i = i + 1;
    }
    r
}

} // verus!
