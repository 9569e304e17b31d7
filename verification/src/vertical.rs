use vstd::prelude::*;

verus! {

/// Step `k` of a column scan is a free spot: the block under it is solid and
/// the block at it and the one over it are air. `air[j]` tells whether the
/// block `j` steps from the start is air; steps go up, or down when `down`.
pub open spec fn free_spot(air: Seq<bool>, k: int, down: bool) -> bool {
    if down {
        !air[k + 1] && air[k] && air[k - 1]
    } else {
        !air[k - 1] && air[k] && air[k + 1]
    }
}

/// How many of steps `1..=m` are free spots.
pub open spec fn spots_upto(air: Seq<bool>, m: int, down: bool) -> int
    decreases m,
{
    if m <= 0 {
        0
    } else {
        spots_upto(air, m - 1, down) + if free_spot(air, m, down) { 1int } else { 0int }
    }
}

/// The outcome of scanning `n` steps for the `levels`-th free spot: `steps`
/// is the step of the last spot taken (0 when none) and `taken` how many
/// spots were taken, at most `levels`.
pub open spec fn scan_result(air: Seq<bool>, down: bool, n: int, levels: int, steps: int, taken: int) -> bool {
    &&& taken == if levels <= spots_upto(air, n, down) { levels } else { spots_upto(air, n, down) }
    &&& (taken == 0 ==> steps == 0)
    &&& (taken > 0 ==> 1 <= steps <= n && free_spot(air, steps, down) && spots_upto(air, steps, down) == taken)
}

/// Step `j` of a scan has room for a player to stand: a solid block on the
/// side the scan comes from, and air at the step and one step further.
pub open spec fn standing_room(air: Seq<bool>, j: int, down: bool) -> bool {
    &&& air[j]
    &&& (!down ==> !air[j - 1] && air[j + 1])
    &&& (down ==> !air[j + 1] && air[j - 1])
}

/// A scan never takes more spots than asked for, stays put when it takes
/// none, and ends on a step with standing room. Asked for one spot, it ends
/// on the first step with standing room; when it takes fewer spots than
/// asked, no step past the one it ends on has standing room.
pub proof fn law_scan_ends_on_standing_room(air: Seq<bool>, down: bool, n: int, levels: int, steps: int, taken: int)
    requires
        0 <= levels,
        scan_result(air, down, n, levels, steps, taken),
    ensures
        0 <= taken <= levels,
        taken == 0 ==> steps == 0,
        taken > 0 ==> 1 <= steps <= n && air[steps],
        taken > 0 && !down ==> !air[steps - 1] && air[steps + 1],
        taken > 0 && down ==> !air[steps + 1] && air[steps - 1],
        taken > 0 && levels == 1 ==> forall|j: int| 1 <= j < steps ==> !(#[trigger] standing_room(air, j, down)),
        taken < levels ==> forall|j: int| steps < j <= n ==> !(#[trigger] standing_room(air, j, down)),
{
    lemma_spots_nonnegative(air, down, n);
    if taken > 0 && levels == 1 {
        lemma_spots_nonnegative(air, down, steps - 1);
        lemma_no_spot_between(air, down, 0, steps - 1);
    }
    if taken < levels && n >= 1 {
        if taken == 0 {
            lemma_no_spot_between(air, down, 0, n);
        } else {
            lemma_no_spot_between(air, down, steps, n);
        }
    }
}

proof fn lemma_no_spot_between(air: Seq<bool>, down: bool, a: int, b: int)
    requires
        0 <= a <= b,
        spots_upto(air, a, down) == spots_upto(air, b, down),
    ensures
        forall|j: int| a < j <= b ==> !(#[trigger] standing_room(air, j, down)),
    decreases b - a,
{
    if a < b {
        lemma_spots_monotone(air, down, a, b - 1);
        assert(!free_spot(air, b, down));
        lemma_no_spot_between(air, down, a, b - 1);
    }
}

proof fn lemma_spots_nonnegative(air: Seq<bool>, down: bool, m: int)
    ensures
        0 <= spots_upto(air, m, down),
    decreases m,
{
    if m > 0 {
        lemma_spots_nonnegative(air, down, m - 1);
    }
}

proof fn lemma_spots_monotone(air: Seq<bool>, down: bool, a: int, b: int)
    requires
        a <= b,
    ensures
        spots_upto(air, a, down) <= spots_upto(air, b, down),
    decreases b - a,
{
    if a < b {
        lemma_spots_monotone(air, down, a, b - 1);
    }
}

/// Scans steps `1..=n` of a column for free spots, stopping once `levels`
/// spots have been taken.
pub fn scan_free_spots(air: &Vec<bool>, down: bool, n: usize, levels: u32) -> (r: (usize, u32))
    requires
        n > 0 ==> air@.len() >= n + 2,
    ensures
        scan_result(air@, down, n as int, levels as int, r.0 as int, r.1 as int),
{
    let mut remaining = levels;
    let mut last: usize = 0;
    let mut idx: usize = 0;
    while idx < n && remaining > 0
        invariant
            n > 0 ==> air@.len() >= n + 2,
            idx <= n,
            remaining <= levels,
            levels - remaining == if levels <= spots_upto(air@, idx as int, down) { levels as int } else { spots_upto(air@, idx as int, down) },
            remaining > 0 ==> levels - remaining == spots_upto(air@, idx as int, down),
            last <= idx,
            levels - remaining == 0 ==> last == 0,
            levels - remaining > 0 ==> 1 <= last && free_spot(air@, last as int, down) && spots_upto(air@, last as int, down) == levels - remaining,
        decreases n - idx,
    {
        let k = idx + 1;
        let len = air.len();
        assert(k + 1 < len);
        let spot = if down { !air[k + 1] && air[k] && air[k - 1] } else { !air[k - 1] && air[k] && air[k + 1] };
        if spot {
            last = k;
            remaining = remaining - 1;
        }
        idx = idx + 1;
    }
    proof {
        if remaining == 0 {
            lemma_spots_monotone(air@, down, idx as int, n as int);
        }
    }
    (last, levels - remaining)
}

/// Where a player ends up after moving through free spots, and how many.
#[derive(Clone, Copy, Debug, PartialEq, Eq, Structural)]
pub struct VerticalMove {
    pub y: i32,
    pub levels_moved: u32,
}

/// The number of steps an upward scan from `start_y` takes: every height up
/// to and including `top_y`.
pub open spec fn ascend_steps(start_y: int, top_y: int) -> int {
    if start_y <= top_y { top_y - start_y + 1 } else { 0 }
}

/// Climbs up to `levels` free spots above `start_y`, where `air_above[j]`
/// tells whether the block `j` above `start_y` is air. The player ends on the
/// last spot taken, or stays at `start_y` when there is none.
pub fn ascend_target(start_y: i32, top_y: i32, levels: u32, air_above: &Vec<bool>) -> (r: VerticalMove)
    requires
        top_y + 2 <= i32::MAX,
        top_y - start_y < i32::MAX,
        ascend_steps(start_y as int, top_y as int) > 0 ==> air_above@.len() >= ascend_steps(start_y as int, top_y as int) + 2,
    ensures
        ({
            let n = ascend_steps(start_y as int, top_y as int);
            scan_result(air_above@, false, n, levels as int, r.y - start_y, r.levels_moved as int)
        }),
        r.levels_moved <= levels,
        r.levels_moved == 0 ==> r.y == start_y,
        r.levels_moved > 0 ==> ({
            let k = r.y - start_y;
            &&& 1 <= k <= ascend_steps(start_y as int, top_y as int)
            &&& !air_above@[k - 1] && air_above@[k] && air_above@[k + 1]
        }),
{
    let n: usize = if start_y <= top_y { (top_y as i64 - start_y as i64) as usize + 1 } else { 0 };
    let (steps, taken) = scan_free_spots(air_above, false, n, levels);
    proof {
        law_scan_ends_on_standing_room(air_above@, false, n as int, levels as int, steps as int, taken as int);
    }
    VerticalMove { y: start_y + steps as i32, levels_moved: taken }
}

/// The number of steps a downward scan from `start_y` takes: every height above 0.
pub open spec fn descend_steps(start_y: int) -> int {
    if start_y > 1 { start_y - 1 } else { 0 }
}

/// Descends up to `levels` free spots below `start_y`, where `air_below[j]`
/// tells whether the block `j` below `start_y` is air (a spot's floor is the
/// block under it). The player ends on the last spot taken, or stays at
/// `start_y` when there is none.
pub fn descend_target(start_y: i32, levels: u32, air_below: &Vec<bool>) -> (r: VerticalMove)
    requires
        descend_steps(start_y as int) > 0 ==> air_below@.len() >= descend_steps(start_y as int) + 2,
    ensures
        ({
            let n = descend_steps(start_y as int);
            scan_result(air_below@, true, n, levels as int, start_y - r.y, r.levels_moved as int)
        }),
        r.levels_moved <= levels,
        r.levels_moved == 0 ==> r.y == start_y,
        r.levels_moved > 0 ==> ({
            let k = start_y - r.y;
            &&& 1 <= k <= descend_steps(start_y as int)
            &&& !air_below@[k + 1] && air_below@[k] && air_below@[k - 1]
        }),
{
    let n: usize = if start_y > 1 { (start_y - 1) as usize } else { 0 };
    let (steps, taken) = scan_free_spots(air_below, true, n, levels);
    proof {
        law_scan_ends_on_standing_room(air_below@, true, n as int, levels as int, steps as int, taken as int);
    }
    VerticalMove { y: start_y - steps as i32, levels_moved: taken }
}

} // verus!
