use vstd::prelude::*;
use crate::entry::{entries, views, Wallpaper};
use crate::normalize::{mean_centering_counts, min_count, shifted_down};
use crate::reconcile::{reconciled, sync_wallpapers};
use crate::weighting::{chosen_by, cum_weight, pick_random_wallpaper};

verus! {

/// A selection can be made: there is an entry, and no count is at its limit.
pub open spec fn pickable(e: Seq<(Seq<char>, usize)>) -> bool {
    e.len() > 0 && forall|i: int| 0 <= i < e.len() ==> #[trigger] e[i].1 < usize::MAX
}

/// The entries of one cycle before selection: reconciled with the scan, then
/// shifted down so that the smallest count is zero.
pub open spec fn prepared(e: Seq<(Seq<char>, usize)>, scan: Seq<Seq<char>>) -> Seq<
    (Seq<char>, usize),
> {
    let m = reconciled(e, scan);
    if m.len() == 0 {
        m
    } else {
        shifted_down(m, min_count(m))
    }
}

/// Whether a selection can be made from the collection.
pub fn can_pick(wallpapers: &Vec<Wallpaper>) -> (r: bool)
    ensures
        r == pickable(entries(wallpapers@)),
{
    let ghost e = entries(wallpapers@);
    if wallpapers.len() == 0 {
        return false;
    }
    let mut i: usize = 0;
    while i < wallpapers.len()
        invariant
            i <= wallpapers@.len(),
            e == entries(wallpapers@),
            forall|k: int| 0 <= k < i ==> #[trigger] e[k].1 < usize::MAX,
        decreases wallpapers@.len() - i,
    {
        assert(e[i as int].1 == wallpapers@[i as int].count);
        if wallpapers[i].count == usize::MAX {
            return false;
        }
        i = i + 1;
    }
    true
}

/// One rotation cycle up to the choice: reconciles the collection with the
/// scanned names, shifts the counts down, and picks the next wallpaper. When
/// nothing can be picked (no image, or a count at its limit) the prepared
/// collection comes back with no name.
pub fn rotate(wallpapers_names: &Vec<String>, wallpapers: Vec<Wallpaper>) -> (r: (
    Vec<Wallpaper>,
    Option<String>,
))
    ensures
        !pickable(prepared(entries(wallpapers@), views(wallpapers_names@))) ==> r.1 is None
            && entries(r.0@) == prepared(entries(wallpapers@), views(wallpapers_names@)),
        pickable(prepared(entries(wallpapers@), views(wallpapers_names@))) ==> r.1 is Some
            && exists|x: nat|
            x < cum_weight(
                prepared(entries(wallpapers@), views(wallpapers_names@)),
                prepared(entries(wallpapers@), views(wallpapers_names@)).len() as int,
            ) && #[trigger] chosen_by(
                prepared(entries(wallpapers@), views(wallpapers_names@)),
                entries(r.0@),
                r.1->Some_0@,
                x,
            ),
{
    let synced = sync_wallpapers(wallpapers_names, wallpapers);
    let mut prepared_v = mean_centering_counts(synced);
    assert(entries(prepared_v@) == prepared(entries(wallpapers@), views(wallpapers_names@))) by {
        if synced@.len() == 0 {
            assert(entries(prepared_v@) =~= entries(synced@));
        }
    }
    if !can_pick(&prepared_v) {
        return (prepared_v, None);
    }
    assert forall|j: int| 0 <= j < prepared_v@.len() implies #[trigger] prepared_v@[j].count < usize::MAX by {
        assert(entries(prepared_v@)[j].1 == prepared_v@[j].count);
    }
    let ghost pe = entries(prepared_v@);
    let name = pick_random_wallpaper(&mut prepared_v);
    let ghost x = choose|x: nat|
        x < cum_weight(pe, pe.len() as int) && #[trigger] chosen_by(
            pe,
            entries(prepared_v@),
            name@,
            x,
        );
    assert(pe == prepared(entries(wallpapers@), views(wallpapers_names@)));
    let r = (prepared_v, Some(name));
    assert(chosen_by(
        prepared(entries(wallpapers@), views(wallpapers_names@)),
        entries(r.0@),
        r.1->Some_0@,
        x,
    ));
    r
}

} // verus!
