use vstd::prelude::*;
use crate::entry::{entries, Wallpaper};

verus! {

/// The smallest count in a non-empty sequence of entries.
pub open spec fn min_count(e: Seq<(Seq<char>, usize)>) -> usize
    recommends
        e.len() > 0,
    decreases e.len(),
{
    if e.len() <= 1 {
        e[0].1
    } else {
        let m = min_count(e.drop_last());
        if e.last().1 < m {
            e.last().1
        } else {
            m
        }
    }
}

/// `min_count` is a lower bound of every count and is reached by one entry.
pub proof fn lemma_min_count(e: Seq<(Seq<char>, usize)>)
    requires
        e.len() > 0,
    ensures
        forall|i: int| 0 <= i < e.len() ==> min_count(e) <= #[trigger] e[i].1,
        exists|i: int| 0 <= i < e.len() && e[i].1 == min_count(e),
    decreases e.len(),
{
    if e.len() > 1 {
        let p = e.drop_last();
        lemma_min_count(p);
        assert forall|i: int| 0 <= i < e.len() implies min_count(e) <= #[trigger] e[i].1 by {
            if i < e.len() - 1 {
                assert(e[i] == p[i]);
            }
        }
        if e.last().1 < min_count(p) {
            assert(e[e.len() - 1].1 == min_count(e));
        } else {
            let j = choose|j: int| 0 <= j < p.len() && p[j].1 == min_count(p);
            assert(e[j] == p[j]);
            assert(e[j].1 == min_count(e));
        }
    } else {
        assert(e[0].1 == min_count(e));
    }
}

/// The entries with every count lowered by `m`.
pub open spec fn shifted_down(e: Seq<(Seq<char>, usize)>, m: usize) -> Seq<(Seq<char>, usize)> {
    e.map_values(|p: (Seq<char>, usize)| (p.0, (p.1 - m) as usize))
}

/// The smallest count of the collection, or `None` when it is empty.
fn smallest_count(wallpapers: &Vec<Wallpaper>) -> (r: Option<usize>)
    ensures
        wallpapers@.len() == 0 ==> r is None,
        wallpapers@.len() > 0 ==> r == Some(min_count(entries(wallpapers@))),
{
    if wallpapers.len() == 0 {
        return None;
    }
    let mut m: usize = wallpapers[0].count;
    let mut i: usize = 1;
    while i < wallpapers.len()
        invariant
            1 <= i <= wallpapers@.len(),
            m == min_count(entries(wallpapers@).take(i as int)),
        decreases wallpapers@.len() - i,
    {
        let ghost e = entries(wallpapers@);
        assert(e.take(i as int + 1).drop_last() == e.take(i as int));
        if wallpapers[i].count < m {
            m = wallpapers[i].count;
        }
        i = i + 1;
    }
    assert(entries(wallpapers@).take(i as int) == entries(wallpapers@));
    Some(m)
}

/// Shifts every count down by the smallest one, so that the least shown image
/// has count zero. The names, their order, and the difference between any two
/// counts stay as they were; an empty collection is returned as it is.
pub fn mean_centering_counts(wallpapers: Vec<Wallpaper>) -> (r: Vec<Wallpaper>)
    ensures
        wallpapers@.len() == 0 ==> r@.len() == 0,
        wallpapers@.len() > 0 ==> entries(r@) == shifted_down(
            entries(wallpapers@),
            min_count(entries(wallpapers@)),
        ),
        r@.len() == wallpapers@.len(),
        forall|i: int| 0 <= i < r@.len() ==> #[trigger] r@[i].file_name@ == wallpapers@[i].file_name@,
        r@.len() > 0 ==> exists|i: int| 0 <= i < r@.len() && #[trigger] r@[i].count == 0,
        forall|i: int, j: int|
            0 <= i < r@.len() && 0 <= j < r@.len() ==> #[trigger] r@[i].count - #[trigger] r@[j].count
                == wallpapers@[i].count - wallpapers@[j].count,
{
    let mut wallpapers = wallpapers;
    let ghost start = wallpapers@;
    match smallest_count(&wallpapers) {
        None => wallpapers,
        Some(m) => {
            proof {
                lemma_min_count(entries(start));
                assert forall|k: int| 0 <= k < start.len() implies m <= #[trigger] start[k].count by {
                    assert(entries(start)[k].1 == start[k].count);
                }
            }
            let mut i: usize = 0;
            while i < wallpapers.len()
                invariant
                    wallpapers@.len() == start.len(),
                    m == min_count(entries(start)),
                    forall|k: int| 0 <= k < start.len() ==> m <= #[trigger] start[k].count,
                    forall|k: int|
                        0 <= k < wallpapers@.len() ==> #[trigger] wallpapers@[k].file_name@
                            == start[k].file_name@,
                    forall|k: int| 0 <= k < i ==> #[trigger] wallpapers@[k].count == start[k].count - m,
                    forall|k: int| i <= k < wallpapers@.len() ==> #[trigger] wallpapers@[k].count == start[k].count,
                decreases wallpapers@.len() - i,
            {
                let c = wallpapers[i].count;
                assert(start[i as int].count == c);
                wallpapers[i].count = c - m;
                i = i + 1;
            }
            let ghost j = choose|j: int| 0 <= j < start.len() && entries(start)[j].1 == min_count(entries(start));
            assert(wallpapers@[j].count == 0);
            assert(entries(wallpapers@) =~= shifted_down(entries(start), m));
            wallpapers
        },
    }
}

} // verus!
