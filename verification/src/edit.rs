//! What stays and what goes when a container is edited.

use vstd::prelude::*;

verus! {

/// The user data of an edited container: the replacement where one is
/// given; else nothing where the user data is to be dropped; else the user
/// data the container had.
pub fn choose_user_data<'a>(
    replacement: Option<&'a [u8]>,
    existing: Option<&'a [u8]>,
    drop_existing: bool,
) -> (r: Option<&'a [u8]>)
    ensures
        r == match replacement {
            Some(_) => replacement,
            None => if drop_existing {
                None
            } else {
                existing
            },
        },
{
    match replacement {
        Some(_) => replacement,
        None => if drop_existing {
            None
        } else {
            existing
        },
    }
}

/// Whether the mesh at place `i` is one of those to be dropped.
pub open spec fn drops(dropped: Seq<usize>, i: int) -> bool {
    exists|k: int| 0 <= k < dropped.len() && #[trigger] dropped[k] == i
}

/// Whether the mesh at place `i` is one of those to be dropped.
pub fn is_dropped(dropped: &[usize], i: usize) -> (r: bool)
    ensures
        r == drops(dropped@, i as int),
{
    let mut k: usize = 0;
    while k < dropped.len()
        invariant
            0 <= k <= dropped@.len(),
            forall|j: int| 0 <= j < k ==> #[trigger] dropped@[j] != i,
        decreases dropped@.len() - k,
    {
        if dropped[k] == i {
            return true;
        }
        k += 1;
    }
    false
}

/// The places of the meshes that an edited container keeps, of `count`
/// meshes: every place that is not dropped, once, in rising order. Places
/// to be dropped where there is no mesh drop nothing.
pub fn kept_meshes(count: usize, dropped: &[usize]) -> (r: Vec<usize>)
    ensures
        forall|k: int| 0 <= k < r@.len() ==> #[trigger] r@[k] < count && !drops(dropped@, r@[k] as int),
        forall|j: int, k: int| 0 <= j < k < r@.len() ==> r@[j] < r@[k],
        forall|i: int|
            0 <= i < count && !drops(dropped@, i) ==> exists|k: int|
                0 <= k < r@.len() && #[trigger] r@[k] == i,
{
    let mut kept: Vec<usize> = Vec::new();
    let mut i: usize = 0;
    while i < count
        invariant
            0 <= i <= count,
            forall|k: int|
                0 <= k < kept@.len() ==> #[trigger] kept@[k] < i && !drops(dropped@, kept@[k] as int),
            forall|j: int, k: int| 0 <= j < k < kept@.len() ==> kept@[j] < kept@[k],
            forall|n: int|
                0 <= n < i && !drops(dropped@, n) ==> exists|k: int|
                    0 <= k < kept@.len() && #[trigger] kept@[k] == n,
        decreases count - i,
    {
        let ghost before = kept@;
        if !is_dropped(dropped, i) {
            kept.push(i);
        }
        proof {
            assert forall|n: int| 0 <= n < i + 1 && !drops(dropped@, n) implies exists|k: int|
                0 <= k < kept@.len() && #[trigger] kept@[k] == n by {
                if n < i {
                    let k = choose|k: int| 0 <= k < before.len() && #[trigger] before[k] == n;
                    assert(kept@[k] == n);
                } else {
                    assert(kept@[kept@.len() - 1] == n);
                }
            }
        }
        i += 1;
    }
    kept
}

} // verus!
