//! The choice among the nodes that a pick ray hits.
//!
//! The geometry of a pick works on floating-point numbers and is not part of
//! this library. What comes out of it is, for each node in the order of the
//! node indices, whether the ray enters the node's sphere and how far along
//! the ray: the distance as a key, where a smaller key is a smaller distance.

use vstd::prelude::*;

verus! {

/// The node at `at` is hit, no node is hit at a smaller distance, and none
/// before it at the same distance.
pub open spec fn is_nearest(distances: Seq<Option<i64>>, at: int) -> bool {
    &&& 0 <= at < distances.len()
    &&& distances[at] is Some
    &&& forall|j: int|
        0 <= j < distances.len() && (#[trigger] distances[j]) is Some ==> distances[at].unwrap()
            < distances[j].unwrap() || (distances[at].unwrap() == distances[j].unwrap() && at
            <= j)
}

/// The index of the nearest node that is hit: among those at the smallest
/// distance the first. `None` where no node is hit.
pub open spec fn nearest(distances: Seq<Option<i64>>) -> Option<int> {
    if exists|at: int| is_nearest(distances, at) {
        Some(choose|at: int| is_nearest(distances, at))
    } else {
        None
    }
}

/// The index as a mathematical integer.
pub open spec fn as_position(found: Option<usize>) -> Option<int> {
    match found {
        Some(at) => Some(at as int),
        None => None,
    }
}

/// Finds the nearest node that is hit.
pub fn find_nearest(distances: &Vec<Option<i64>>) -> (found: Option<usize>)
    ensures
        as_position(found) == nearest(distances@),
        found is None <==> forall|j: int|
            0 <= j < distances.len() ==> (#[trigger] distances[j]) is None,
        found matches Some(at) ==> is_nearest(distances@, at as int),
{
    let mut best: Option<usize> = None;
    let mut least: i64 = 0;
    let mut at: usize = 0;
    while at < distances.len()
        invariant
            at <= distances.len(),
            best is None ==> forall|j: int| 0 <= j < at ==> (#[trigger] distances[j]) is None,
            best matches Some(b) ==> b < at && distances[b as int] == Some(least) && forall|j: int|
                0 <= j < at && (#[trigger] distances[j]) is Some ==> least < distances[j].unwrap()
                    || (least == distances[j].unwrap() && b <= j),
        decreases distances.len() - at,
    {
        match distances[at] {
            None => {},
            Some(distance) => {
                let nearer = match best {
                    None => true,
                    Some(_) => distance < least,
                };
                if nearer {
                    best = Some(at);
                    least = distance;
                }
            },
        }
        at += 1;
    }
    proof {
        match best {
            Some(b) => {
                assert(is_nearest(distances@, b as int));
                let chosen = choose|c: int| is_nearest(distances@, c);
                assert(is_nearest(distances@, chosen));
                assert(distances@[chosen] is Some);
                assert(distances@[b as int] is Some);
                assert(chosen == b);
            },
            None => {
                assert forall|c: int| !is_nearest(distances@, c) by {
                    if 0 <= c < distances.len() {
                        assert(distances[c] is None);
                    }
                }
            },
        }
    }
    best
}

} // verus!
