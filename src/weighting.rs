use vstd::prelude::*;
use rand::{Rng, SeedableRng};
use crate::entry::{entries, Wallpaper};

verus! {

/// The weight of an entry that was never chosen: weights are fixed-point
/// numbers with this value standing for 1.
pub const WEIGHT_SCALE: u64 = 4294967296;

/// Numerator of the per-selection decay `1 / 1.001 = 1000 / 1001`.
pub const DECAY_NUM: u64 = 1000;

/// Denominator of the per-selection decay.
pub const DECAY_DEN: u64 = 1001;

/// The weight of an entry chosen `c` times: `WEIGHT_SCALE * (1000 / 1001)^c`,
/// rounded down at each step and never below 1.
pub open spec fn weight(c: nat) -> nat
    decreases c,
{
    if c == 0 {
        WEIGHT_SCALE as nat
    } else {
        let q = weight((c - 1) as nat) * (DECAY_NUM as nat) / (DECAY_DEN as nat);
        if q == 0 {
            1
        } else {
            q
        }
    }
}

proof fn lemma_weight_step(p: nat)
    requires
        1 <= p,
    ensures
        p * (DECAY_NUM as nat) / (DECAY_DEN as nat) <= p,
        p > 1 ==> p * (DECAY_NUM as nat) / (DECAY_DEN as nat) < p,
{
    assert(p * 1000 / 1001 <= p) by (nonlinear_arith);
    assert(p > 1 ==> p * 1000 / 1001 < p) by (nonlinear_arith);
}

/// Every weight lies between 1 and `WEIGHT_SCALE`.
pub proof fn lemma_weight_bounds(c: nat)
    ensures
        1 <= weight(c) <= WEIGHT_SCALE,
    decreases c,
{
    if c > 0 {
        lemma_weight_bounds((c - 1) as nat);
        lemma_weight_step(weight((c - 1) as nat));
    }
}

proof fn lemma_weight_one_stays(a: nat, b: nat)
    requires
        a <= b,
        weight(a) == 1,
    ensures
        weight(b) == 1,
    decreases b - a,
{
    if a < b {
        lemma_weight_one_stays(a, (b - 1) as nat);
        assert(1nat * 1000 / 1001 == 0);
    }
}

/// An entry shown more often never weighs more, and weighs strictly less as
/// long as the less shown one is above the floor of 1.
pub proof fn lemma_weight_decreasing(a: nat, b: nat)
    requires
        a <= b,
    ensures
        weight(b) <= weight(a),
        a < b && weight(a) > 1 ==> weight(b) < weight(a),
    decreases b - a,
{
    if a < b {
        lemma_weight_decreasing(a, (b - 1) as nat);
        lemma_weight_bounds((b - 1) as nat);
        lemma_weight_step(weight((b - 1) as nat));
        if weight((b - 1) as nat) == 1 {
            assert(1nat * 1000 / 1001 == 0);
        }
    }
}

/// The weight of an entry with the given count.
pub fn count_weight(count: usize) -> (w: u64)
    ensures
        w == weight(count as nat),
{
    let mut w: u64 = WEIGHT_SCALE;
    let mut i: usize = 0;
    while i < count && w > 1
        invariant
            i <= count,
            w == weight(i as nat),
        decreases count - i,
    {
        proof {
            lemma_weight_bounds(i as nat);
        }
        assert(w * 1000 <= WEIGHT_SCALE * 1000) by (nonlinear_arith)
            requires
                w <= WEIGHT_SCALE,
        ;
        let q = w * DECAY_NUM / DECAY_DEN;
        w = if q == 0 {
            1
        } else {
            q
        };
        i = i + 1;
    }
    if i < count {
        proof {
            lemma_weight_bounds(i as nat);
            lemma_weight_one_stays(i as nat, count as nat);
        }
    }
    w
}

/// The summed weight of the first `k` entries.
pub open spec fn cum_weight(e: Seq<(Seq<char>, usize)>, k: int) -> nat
    decreases k,
{
    if k <= 0 {
        0
    } else {
        cum_weight(e, k - 1) + weight(e[k - 1].1 as nat)
    }
}

proof fn lemma_cum_bounds(e: Seq<(Seq<char>, usize)>, k: int)
    requires
        0 <= k,
    ensures
        k <= cum_weight(e, k) <= k * WEIGHT_SCALE,
    decreases k,
{
    if k > 0 {
        lemma_cum_bounds(e, k - 1);
        lemma_weight_bounds(e[k - 1].1 as nat);
        assert((k - 1) * WEIGHT_SCALE + WEIGHT_SCALE == k * WEIGHT_SCALE) by (nonlinear_arith);
    }
}

/// The total weight of a collection.
pub fn total_weight(wallpapers: &Vec<Wallpaper>) -> (t: u128)
    ensures
        t == cum_weight(entries(wallpapers@), wallpapers@.len() as int),
{
    let ghost e = entries(wallpapers@);
    let mut t: u128 = 0;
    let mut i: usize = 0;
    while i < wallpapers.len()
        invariant
            i <= wallpapers@.len(),
            e == entries(wallpapers@),
            t == cum_weight(e, i as int),
        decreases wallpapers@.len() - i,
    {
        proof {
            lemma_cum_bounds(e, i as int + 1);
            assert((i as int + 1) * WEIGHT_SCALE <= 18446744073709551616 * 4294967296)
                by (nonlinear_arith)
                requires
                    i < 18446744073709551616int,
            ;
        }
        assert(e[i as int].1 == wallpapers@[i as int].count);
        let w = count_weight(wallpapers[i].count);
        t = t + w as u128;
        i = i + 1;
    }
    t
}

/// The index at which a walk in order, summing weights, first reaches `r`;
/// the last index when it never does.
pub open spec fn first_reaching(e: Seq<(Seq<char>, usize)>, r: nat, i: int) -> int
    decreases e.len() - i,
{
    if i >= e.len() - 1 {
        e.len() - 1
    } else if cum_weight(e, i + 1) >= r {
        i
    } else {
        first_reaching(e, r, i + 1)
    }
}

proof fn lemma_first_reaching_range(e: Seq<(Seq<char>, usize)>, r: nat, i: int)
    requires
        0 <= i,
        e.len() > 0,
    ensures
        0 <= first_reaching(e, r, i) < e.len(),
    decreases e.len() - i,
{
    if i < e.len() - 1 && cum_weight(e, i + 1) < r {
        lemma_first_reaching_range(e, r, i + 1);
    }
}

/// The entry that the draw `r` selects.
pub open spec fn selected(e: Seq<(Seq<char>, usize)>, r: nat) -> int {
    first_reaching(e, r, 0)
}

/// The index that the draw `r` selects: the first entry at which the running
/// sum of weights reaches `r`, or the last entry if it never does.
pub fn select_index(wallpapers: &Vec<Wallpaper>, r: u128) -> (i: usize)
    requires
        wallpapers@.len() > 0,
    ensures
        i == selected(entries(wallpapers@), r as nat),
        i < wallpapers@.len(),
{
    let ghost e = entries(wallpapers@);
    let n = wallpapers.len();
    let mut i: usize = 0;
    assert(e[0].1 == wallpapers@[0].count);
    let mut acc: u128 = count_weight(wallpapers[0].count) as u128;
    assert(cum_weight(e, 0) == 0);
    assert(cum_weight(e, 1) == cum_weight(e, 0) + weight(e[0].1 as nat));
    while i + 1 < n && acc < r
        invariant
            n == wallpapers@.len(),
            e == entries(wallpapers@),
            i < n,
            acc == cum_weight(e, i as int + 1),
            selected(e, r as nat) == first_reaching(e, r as nat, i as int),
        decreases n - i,
    {
        i = i + 1;
        proof {
            lemma_cum_bounds(e, i as int + 1);
            assert((i as int + 1) * WEIGHT_SCALE <= 18446744073709551616 * 4294967296)
                by (nonlinear_arith)
                requires
                    i < 18446744073709551616int,
            ;
        }
        assert(e[i as int].1 == wallpapers@[i as int].count);
        let w = count_weight(wallpapers[i].count);
        acc = acc + w as u128;
    }
    i
}

/// The collection `after` and the name `name` are what the draw `r` gives
/// from `before`: the selected entry's count grows by one, and its name is
/// returned.
pub open spec fn chosen_by(
    before: Seq<(Seq<char>, usize)>,
    after: Seq<(Seq<char>, usize)>,
    name: Seq<char>,
    r: nat,
) -> bool {
    let i = selected(before, r);
    &&& after == before.update(i, (before[i].0, (before[i].1 + 1) as usize))
    &&& name == before[i].0
}

/// Chooses the entry that the draw `r` selects, adds one to its count, and
/// returns its name. Nothing else changes.
pub fn select_wallpaper(wallpapers: &mut Vec<Wallpaper>, r: u128) -> (name: String)
    requires
        old(wallpapers)@.len() > 0,
        forall|j: int| 0 <= j < old(wallpapers)@.len() ==> #[trigger] old(wallpapers)@[j].count < usize::MAX,
    ensures
        chosen_by(entries(old(wallpapers)@), entries(final(wallpapers)@), name@, r as nat),
{
    let i = select_index(wallpapers, r);
    let ghost before = wallpapers@;
    proof {
        assert(entries(before)[i as int] == before[i as int]@);
    }
    let c = wallpapers[i].count;
    wallpapers[i].count = c + 1;
    assert(entries(wallpapers@) =~= entries(before).update(
        i as int,
        (before[i as int].file_name@, (before[i as int].count + 1) as usize),
    ));
    wallpapers[i].file_name.clone()
}

/// A uniform draw from `0..bound`. Relies on `rand_hc::Hc128Rng` seeded by
/// `SeedableRng::from_entropy`, and on `rand::Rng::gen_range`, which returns a
/// value of the half-open range and panics only when that range is empty.
#[verifier::external_body]
fn get_random_num(bound: u128) -> (r: u128)
    requires
        bound > 0,
    ensures
        r < bound,
{
    let mut rng = rand_hc::Hc128Rng::from_entropy();
    rng.gen_range(0..bound)
}

/// Picks the next wallpaper at random, each entry with a chance proportional
/// to its weight, so rarely shown images come up more often. The chosen
/// entry's count grows by one and every other entry stays as it was; the
/// chosen name is returned.
pub fn pick_random_wallpaper(wallpapers: &mut Vec<Wallpaper>) -> (name: String)
    requires
        old(wallpapers)@.len() > 0,
        forall|j: int| 0 <= j < old(wallpapers)@.len() ==> #[trigger] old(wallpapers)@[j].count < usize::MAX,
    ensures
        exists|r: nat|
            r < cum_weight(entries(old(wallpapers)@), old(wallpapers)@.len() as int)
                && #[trigger] chosen_by(entries(old(wallpapers)@), entries(final(wallpapers)@), name@, r),
        final(wallpapers)@.len() == old(wallpapers)@.len(),
        exists|i: int|
            0 <= i < old(wallpapers)@.len() && #[trigger] final(wallpapers)@[i].count == old(wallpapers)@[i].count + 1
                && final(wallpapers)@[i].file_name@ == old(wallpapers)@[i].file_name@
                && name@ == old(wallpapers)@[i].file_name@
                && forall|j: int|
                0 <= j < old(wallpapers)@.len() && j != i ==> #[trigger] final(wallpapers)@[j]@
                    == old(wallpapers)@[j]@,
{
    let ghost before = wallpapers@;
    let total = total_weight(wallpapers);
    proof {
        lemma_cum_bounds(entries(before), before.len() as int);
    }
    let r = get_random_num(total);
    let name = select_wallpaper(wallpapers, r);
    proof {
        let i = selected(entries(before), r as nat);
        lemma_first_reaching_range(entries(before), r as nat, 0);
        assert(entries(wallpapers@).len() == wallpapers@.len());
        assert(chosen_by(entries(before), entries(wallpapers@), name@, r as nat));
        assert(entries(wallpapers@)[i] == wallpapers@[i]@);
        assert forall|j: int| 0 <= j < before.len() && j != i implies #[trigger] wallpapers@[j]@
            == before[j]@ by {
            assert(entries(wallpapers@)[j] == wallpapers@[j]@);
            assert(entries(before)[j] == before[j]@);
        }
    }
    name
}

} // verus!
