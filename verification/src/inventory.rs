//! What an archive holds for one site: per sounding type the range of
//! initialization times, the times that are missing in it, and the locations.

use vstd::prelude::*;
use crate::archive::{
    lemma_types_with_files, locations_with_files, types_with_files, Archive, ArchiveView,
};
use crate::files::{has_file, has_files, is_file, is_time_line, time_line};
use crate::location::{location_rows, Location, LocationView};
use crate::site::{Site, SiteView};
use crate::sounding_type::{type_rows, SoundingType, SoundingTypeView};
use crate::trusted::{fnv_map_get, fnv_map_insert, fnv_map_new};
use fnv::FnvHashMap;
use vstd::arithmetic::div_mod::{lemma_fundamental_div_mod, lemma_fundamental_div_mod_converse};

verus! {

/// Seconds in an hour: a cadence is given in hours, a time in seconds.
pub const SECONDS_PER_HOUR: i64 = 3600;

/// Where the expectation cursor stands once it has caught up with `time`:
/// the first of `cursor`, `cursor + step`, `cursor + 2 * step`, ... that is
/// not before `time`.
pub open spec fn catch_up(cursor: int, time: int, step: int) -> int {
    cursor + ((time - cursor + step - 1) / step) * step
}

/// The missing ranges that a walk over `times` records when it starts with
/// the expectation cursor at `cursor`.
///
/// For each time in turn: if the cursor is before it, the slots from the
/// cursor up to the last one before the time are missing, and the cursor
/// catches up with the time. Then the cursor moves one step on.
pub open spec fn missing_from(cursor: int, times: Seq<i64>, step: int) -> Seq<(i64, i64)>
    decreases times.len(),
{
    if times.len() == 0 {
        Seq::empty()
    } else {
        let time = times[0] as int;
        if cursor < time {
            let reached = catch_up(cursor, time, step);
            seq![(cursor as i64, (reached - step) as i64)] + missing_from(
                reached + step,
                times.drop_first(),
                step,
            )
        } else {
            missing_from(cursor + step, times.drop_first(), step)
        }
    }
}

/// The missing ranges among `times`, which are in ascending order, for a
/// cadence of `step` seconds. The cursor starts at the first time.
///
/// A cadence that is not positive expects no slot, and nothing is missing.
pub open spec fn missing_ranges(times: Seq<i64>, step: int) -> Seq<(i64, i64)> {
    if times.len() == 0 || step <= 0 {
        Seq::empty()
    } else {
        missing_from(times[0] as int, times, step)
    }
}

/// The cadence of `hours` hours in seconds.
pub open spec fn step_seconds(hours: u16) -> int {
    hours as int * SECONDS_PER_HOUR as int
}

/// The ranges of expected initialization times that are missing among
/// `times`, for a cadence of `hours` hours.
///
/// `times` holds the initialization times that are there, in seconds and in
/// ascending order. Each range is a first and a last missing slot. With a
/// cadence of zero hours no slot is expected, and none is missing.
pub fn find_missing(times: &Vec<i64>, hours: u16) -> (missing: Vec<(i64, i64)>)
    ensures
        missing@ == missing_ranges(times@, step_seconds(hours)),
{
    let mut missing: Vec<(i64, i64)> = Vec::new();
    if times.len() == 0 || hours == 0 {
        return missing;
    }
    assert(hours * 3600 <= 65535 * 3600) by (nonlinear_arith)
        requires
            hours <= 65535,
    ;
    let step: i128 = hours as i128 * 3600;
    let mut cursor: i128 = times[0] as i128;
    let mut i: usize = 0;
    assert(times@.skip(0) =~= times@);
    assert(missing@ + missing_from(cursor as int, times@, step as int) =~= missing_ranges(
        times@,
        step as int,
    ));
    while i < times.len()
        invariant
            0 <= i <= times.len(),
            step == step_seconds(hours),
            0 < step <= 65535 * 3600,
            i64::MIN <= cursor <= i64::MAX + 2 * i * step,
            missing@ + missing_from(cursor as int, times@.skip(i as int), step as int)
                == missing_ranges(times@, step as int),
        decreases times.len() - i,
    {
        let time: i128 = times[i] as i128;
        let ghost rest = times@.skip(i as int);
        let ghost before = missing@;
        assert(rest.len() > 0 && rest[0] == times@[i as int]);
        assert(rest.drop_first() =~= times@.skip(i + 1));
        assert(2 * i * step <= 2 * usize::MAX * step <= 2 * 0xffff_ffff_ffff_ffff * (65535 * 3600))
            by (nonlinear_arith)
            requires
                0 <= i <= usize::MAX,
                usize::MAX <= 0xffff_ffff_ffff_ffff,
                0 < step <= 65535 * 3600,
        ;
        if cursor < time {
            let gap: i128 = time - cursor + step - 1;
            let steps: i128 = gap / step;
            assert(0 <= gap - steps * step < step && step <= steps * step) by (nonlinear_arith)
                requires
                    steps == gap / step,
                    gap >= step,
                    step > 0,
            ;
            let reached: i128 = cursor + steps * step;
            assert(reached == catch_up(cursor as int, time as int, step as int));
            let first: i64 = cursor as i64;
            let last: i64 = (reached - step) as i64;
            missing.push((first, last));
            cursor = reached + step;
            assert(missing@ + missing_from(cursor as int, times@.skip(i + 1), step as int)
                =~= before + missing_from(first as int, rest, step as int));
        } else {
            cursor = cursor + step;
        }
        i = i + 1;
        assert(2 * i * step == 2 * (i - 1) * step + 2 * step) by (nonlinear_arith);
    }
    assert(times@.skip(times.len() as int) =~= Seq::<i64>::empty());
    missing
}

/// Whether `times` is in strictly ascending order.
pub open spec fn ascending(times: Seq<i64>) -> bool {
    forall|i: int, j: int| 0 <= i < j < times.len() ==> times[i] < times[j]
}

/// Whether `slot` is a whole number of steps away from `base`.
pub open spec fn on_grid(slot: int, base: int, step: int) -> bool {
    (slot - base) % step == 0
}

/// Whether every time is a whole number of steps away from `base`.
pub open spec fn all_on_grid(times: Seq<i64>, base: int, step: int) -> bool {
    forall|i: int| 0 <= i < times.len() ==> on_grid(#[trigger] times[i] as int, base, step)
}

/// Whether one of the ranges holds `slot`.
pub open spec fn covers(ranges: Seq<(i64, i64)>, slot: int) -> bool {
    exists|j: int| 0 <= j < ranges.len() && (#[trigger] ranges[j]).0 <= slot <= ranges[j].1
}

/// Whether each range starts at or after `from`, does not end before it
/// starts, has both ends on the grid, and is followed, one step after its
/// end, by a time that is there.
pub open spec fn ranges_are_gaps(
    ranges: Seq<(i64, i64)>,
    times: Seq<i64>,
    from: int,
    base: int,
    step: int,
) -> bool {
    forall|j: int|
        0 <= j < ranges.len() ==> {
            let range = #[trigger] ranges[j];
            &&& from <= range.0 <= range.1
            &&& on_grid(range.0 as int, base, step)
            &&& on_grid(range.1 as int, base, step)
            &&& range.1 + step <= i64::MAX
            &&& times.contains((range.1 + step) as i64)
            &&& range.0 == from || (range.0 - step >= i64::MIN && times.contains(
                (range.0 - step) as i64,
            ))
        }
}

/// Two grid points: the later is at least one step after the earlier.
proof fn lemma_grid_points_apart(a: int, b: int, base: int, step: int)
    requires
        step > 0,
        on_grid(a, base, step),
        on_grid(b, base, step),
        a < b,
    ensures
        a + step <= b,
        on_grid(b, a, step),
        catch_up(a, b, step) == b,
{
    let qa = (a - base) / step;
    let qb = (b - base) / step;
    let q = qb - qa;
    lemma_fundamental_div_mod(a - base, step);
    lemma_fundamental_div_mod(b - base, step);
    assert(b - a == q * step) by (nonlinear_arith)
        requires
            a - base == step * qa,
            b - base == step * qb,
            q == qb - qa,
    ;
    assert(q >= 1) by (nonlinear_arith)
        requires
            q * step > 0,
            step > 0,
    ;
    assert(q * step >= step) by (nonlinear_arith)
        requires
            q >= 1,
            step > 0,
    ;
    lemma_fundamental_div_mod_converse(b - a, step, q, 0);
    lemma_fundamental_div_mod_converse(b - a + step - 1, step, q, step - 1);
}

/// A grid point moved by one step is a grid point.
proof fn lemma_grid_step(a: int, base: int, step: int)
    requires
        step > 0,
        on_grid(a, base, step),
    ensures
        on_grid(a + step, base, step),
        on_grid(a - step, base, step),
{
    let q = (a - base) / step;
    lemma_fundamental_div_mod(a - base, step);
    assert(a + step - base == (q + 1) * step + 0 && a - step - base == (q - 1) * step + 0)
        by (nonlinear_arith)
        requires
            a - base == step * q,
    ;
    lemma_fundamental_div_mod_converse(a + step - base, step, q + 1, 0);
    lemma_fundamental_div_mod_converse(a - step - base, step, q - 1, 0);
}

/// A slot lies in one of two lists of ranges put together exactly when it
/// lies in one of the lists.
proof fn lemma_covers_both(head: Seq<(i64, i64)>, tail: Seq<(i64, i64)>, slot: int)
    ensures
        covers(head + tail, slot) <==> covers(head, slot) || covers(tail, slot),
{
    let all = head + tail;
    if covers(all, slot) {
        let j = choose|j: int| 0 <= j < all.len() && (#[trigger] all[j]).0 <= slot <= all[j].1;
        if j < head.len() {
            assert(head[j] == all[j]);
        } else {
            assert(tail[j - head.len()] == all[j]);
        }
    }
    if covers(head, slot) {
        let j = choose|j: int| 0 <= j < head.len() && (#[trigger] head[j]).0 <= slot <= head[j].1;
        assert(all[j] == head[j]);
    }
    if covers(tail, slot) {
        let j = choose|j: int| 0 <= j < tail.len() && (#[trigger] tail[j]).0 <= slot <= tail[j].1;
        assert(all[j + head.len()] == tail[j]);
    }
}

/// A time is among `times` exactly when it is the first or among the rest.
proof fn lemma_first_or_rest(times: Seq<i64>)
    requires
        times.len() > 0,
    ensures
        forall|t: i64| #[trigger]
            times.contains(t) <==> (t == times[0] || times.drop_first().contains(t)),
{
    let rest = times.drop_first();
    assert forall|t: i64| #[trigger]
        times.contains(t) <==> (t == times[0] || rest.contains(t)) by {
        if times.contains(t) {
            let k = choose|k: int| 0 <= k < times.len() && times[k] == t;
            if k > 0 {
                assert(rest[k - 1] == t);
            }
        }
        if rest.contains(t) {
            let k = choose|k: int| 0 <= k < rest.len() && rest[k] == t;
            assert(times[k + 1] == t);
        }
        if t == times[0] {
            assert(times[0] == t);
        }
    }
}

/// What is left of ascending times on the grid, without the first, is
/// ascending and on the grid, and starts at least one step after the first.
proof fn lemma_rest_on_grid(times: Seq<i64>, base: int, step: int)
    requires
        step > 0,
        times.len() > 1,
        ascending(times),
        all_on_grid(times, base, step),
    ensures
        ascending(times.drop_first()),
        all_on_grid(times.drop_first(), base, step),
        times[0] + step <= times.drop_first()[0],
        times.drop_first().last() == times.last(),
{
    let rest = times.drop_first();
    assert(rest[0] == times[1]);
    assert(on_grid(times[0] as int, base, step));
    assert(on_grid(times[1] as int, base, step));
    lemma_grid_points_apart(times[0] as int, times[1] as int, base, step);
    assert forall|i: int, j: int| 0 <= i < j < rest.len() implies rest[i] < rest[j] by {
        assert(times[i + 1] < times[j + 1]);
    }
    assert forall|i: int| 0 <= i < rest.len() implies on_grid(
        #[trigger] rest[i] as int,
        base,
        step,
    ) by {
        assert(on_grid(times[i + 1] as int, base, step));
    }
}

/// The walk from a cursor on the grid, over ascending times on the grid of
/// which none is before the cursor: each range is a gap that ends before
/// the last time.
proof fn lemma_walk_gaps(cursor: int, times: Seq<i64>, base: int, step: int)
    requires
        step > 0,
        times.len() > 0,
        ascending(times),
        all_on_grid(times, base, step),
        on_grid(cursor, base, step),
        i64::MIN <= cursor <= times[0],
    ensures
        ranges_are_gaps(missing_from(cursor, times, step), times, cursor, base, step),
        forall|j: int|
            0 <= j < missing_from(cursor, times, step).len() ==> (#[trigger] missing_from(
                cursor,
                times,
                step,
            )[j]).1 < times.last(),
    decreases times.len(),
{
    let first = times[0] as int;
    let rest = times.drop_first();
    let all = missing_from(cursor, times, step);
    let next = first + step;
    assert(on_grid(first, base, step));
    lemma_grid_step(first, base, step);
    lemma_first_or_rest(times);
    if cursor < first {
        lemma_grid_points_apart(cursor, first, base, step);
    }
    let tail = missing_from(next, rest, step);
    let head = if cursor < first {
        seq![(cursor as i64, (first - step) as i64)]
    } else {
        Seq::<(i64, i64)>::empty()
    };
    assert(all =~= head + tail);
    if rest.len() > 0 {
        lemma_rest_on_grid(times, base, step);
        lemma_walk_gaps(next, rest, base, step);
    } else {
        assert(tail =~= Seq::<(i64, i64)>::empty());
    }
    assert forall|j: int| 0 <= j < all.len() implies (#[trigger] all[j]).1 < times.last() by {
        if j < head.len() {
            assert(all[j] == head[j]);
            assert(times[0] <= times.last());
        } else {
            assert(all[j] == tail[j - head.len()]);
        }
    }
    assert forall|j: int| 0 <= j < all.len() implies {
        let range = #[trigger] all[j];
        &&& cursor <= range.0 <= range.1
        &&& on_grid(range.0 as int, base, step)
        &&& on_grid(range.1 as int, base, step)
        &&& range.1 + step <= i64::MAX
        &&& times.contains((range.1 + step) as i64)
        &&& range.0 == cursor || (range.0 - step >= i64::MIN && times.contains(
            (range.0 - step) as i64,
        ))
    } by {
        if j < head.len() {
            assert(all[j] == head[0]);
            assert(times.contains(first as i64));
        } else {
            let range = tail[j - head.len()];
            assert(all[j] == range);
            assert(rest.contains((range.1 + step) as i64));
            if range.0 == next {
                assert(times.contains(first as i64));
            } else {
                assert(rest.contains((range.0 - step) as i64));
            }
        }
    }
}

/// The walk from a cursor on the grid, over ascending times on the grid of
/// which none is before the cursor: a slot from the cursor to the last time
/// lies in a range exactly when it is not among the times.
proof fn lemma_walk_covers(cursor: int, times: Seq<i64>, base: int, step: int, slot: int)
    requires
        step > 0,
        times.len() > 0,
        ascending(times),
        all_on_grid(times, base, step),
        on_grid(cursor, base, step),
        i64::MIN <= cursor <= times[0],
        on_grid(slot, base, step),
        cursor <= slot <= times.last(),
    ensures
        covers(missing_from(cursor, times, step), slot) <==> !times.contains(slot as i64),
    decreases times.len(),
{
    let first = times[0] as int;
    let rest = times.drop_first();
    let all = missing_from(cursor, times, step);
    let next = first + step;
    assert(on_grid(first, base, step));
    lemma_grid_step(first, base, step);
    lemma_first_or_rest(times);
    if cursor < first {
        lemma_grid_points_apart(cursor, first, base, step);
    }
    let tail = missing_from(next, rest, step);
    let head = if cursor < first {
        seq![(cursor as i64, (first - step) as i64)]
    } else {
        Seq::<(i64, i64)>::empty()
    };
    assert(all =~= head + tail);
    lemma_covers_both(head, tail, slot);
    if rest.len() > 0 {
        lemma_rest_on_grid(times, base, step);
        lemma_walk_gaps(next, rest, base, step);
    } else {
        assert(tail =~= Seq::<(i64, i64)>::empty());
    }
    // No range after the first time starts before `next`.
    assert(slot < next ==> !covers(tail, slot)) by {
        if slot < next && covers(tail, slot) {
            let j = choose|j: int| 0 <= j < tail.len() && (#[trigger] tail[j]).0 <= slot
                <= tail[j].1;
            assert(next <= tail[j].0);
        }
    }
    if slot < first {
        lemma_grid_points_apart(slot, first, base, step);
        assert(head[0].0 <= slot <= head[0].1);
        assert(covers(head, slot));
        if times.contains(slot as i64) {
            let k = choose|k: int| 0 <= k < times.len() && times[k] == slot as i64;
            assert(times[0] <= times[k]);
        }
    } else if slot == first {
        assert(times.contains(slot as i64));
        assert(!covers(head, slot)) by {
            if covers(head, slot) {
                let j = choose|j: int| 0 <= j < head.len() && (#[trigger] head[j]).0 <= slot
                    <= head[j].1;
            }
        }
    } else {
        lemma_grid_points_apart(first, slot, base, step);
        assert(rest.len() > 0) by {
            if rest.len() == 0 {
                assert(times.last() == times[0]);
            }
        }
        lemma_walk_covers(next, rest, base, step, slot);
        assert(!covers(head, slot)) by {
            if covers(head, slot) {
                let j = choose|j: int| 0 <= j < head.len() && (#[trigger] head[j]).0 <= slot
                    <= head[j].1;
            }
        }
    }
}

/// Where the times that are there all lie on the grid of the cadence, the
/// missing ranges cover exactly the gaps: a slot of the grid between the
/// first and the last time lies in a range exactly when no file has that
/// time.
pub proof fn missing_ranges_cover_the_gaps(times: Seq<i64>, step: int, slot: int)
    requires
        step > 0,
        times.len() > 0,
        ascending(times),
        all_on_grid(times, times[0] as int, step),
        on_grid(slot, times[0] as int, step),
        times[0] <= slot <= times.last(),
    ensures
        covers(missing_ranges(times, step), slot) <==> !times.contains(slot as i64),
{
    assert(on_grid(times[0] as int, times[0] as int, step));
    lemma_walk_covers(times[0] as int, times, times[0] as int, step, slot);
}

/// Where the times that are there all lie on the grid of the cadence, each
/// missing range is one whole gap: it starts one step after a time that is
/// there and ends one step before the next one that is there.
pub proof fn missing_ranges_are_whole_gaps(times: Seq<i64>, step: int, j: int)
    requires
        step > 0,
        times.len() > 0,
        ascending(times),
        all_on_grid(times, times[0] as int, step),
        0 <= j < missing_ranges(times, step).len(),
    ensures
        ({
            let range = missing_ranges(times, step)[j];
            &&& times[0] < range.0 <= range.1 < times.last()
            &&& on_grid(range.0 as int, times[0] as int, step)
            &&& on_grid(range.1 as int, times[0] as int, step)
            &&& times.contains((range.0 - step) as i64)
            &&& times.contains((range.1 + step) as i64)
            &&& forall|time: i64| range.0 <= time <= range.1 ==> !times.contains(time)
        }),
{
    let base = times[0] as int;
    let ranges = missing_ranges(times, step);
    let range = ranges[j];
    assert(on_grid(base, base, step));
    lemma_walk_gaps(base, times, base, step);
    no_time_inside_a_missing_range(times, step, j);
    assert(times.contains(times[0]));
}

/// No time that is there lies inside a missing range, whether or not the
/// times keep to the cadence.
pub proof fn no_time_inside_a_missing_range(times: Seq<i64>, step: int, j: int)
    requires
        step > 0,
        ascending(times),
        0 <= j < missing_ranges(times, step).len(),
    ensures
        forall|time: i64|
            missing_ranges(times, step)[j].0 <= time <= missing_ranges(times, step)[j].1
                ==> !times.contains(time),
{
    lemma_walk_misses(times[0] as int, times, step);
    let range = missing_ranges(times, step)[j];
    assert forall|time: i64| range.0 <= time <= range.1 implies !times.contains(time) by {
        assert(in_range(range, time));
    }
}

/// Whether `time` lies in the range, ends included.
pub open spec fn in_range(range: (i64, i64), time: i64) -> bool {
    range.0 <= time <= range.1
}

/// Whether no range starts before `from` and none holds one of the times.
pub open spec fn ranges_hold_no_time(ranges: Seq<(i64, i64)>, times: Seq<i64>, from: int) -> bool {
    forall|j: int, time: i64|
        0 <= j < ranges.len() && #[trigger] in_range(ranges[j], time) ==> from <= time
            && !times.contains(time)
}

/// The walk from any cursor: a range holds no time that is there, and
/// starts at or after the cursor.
proof fn lemma_walk_misses(cursor: int, times: Seq<i64>, step: int)
    requires
        step > 0,
        ascending(times),
        i64::MIN <= cursor,
    ensures
        ranges_hold_no_time(missing_from(cursor, times, step), times, cursor),
    decreases times.len(),
{
    if times.len() > 0 {
        let first = times[0] as int;
        let rest = times.drop_first();
        let all = missing_from(cursor, times, step);
        assert forall|i: int, j: int| 0 <= i < j < rest.len() implies rest[i] < rest[j] by {
            assert(times[i + 1] < times[j + 1]);
        }
        let reached = if cursor < first {
            catch_up(cursor, first, step)
        } else {
            cursor
        };
        if cursor < first {
            let gap = first - cursor + step - 1;
            assert(0 <= gap - (gap / step) * step < step && step <= (gap / step) * step)
                by (nonlinear_arith)
                requires
                    gap >= step,
                    step > 0,
            ;
        }
        assert(first <= reached);
        let tail = missing_from(reached + step, rest, step);
        lemma_walk_misses(reached + step, rest, step);
        if cursor < first {
            assert(all =~= seq![(cursor as i64, (reached - step) as i64)] + tail);
        } else {
            assert(all =~= tail);
        }
        assert forall|j: int, time: i64|
            0 <= j < all.len() && #[trigger] in_range(all[j], time) implies cursor <= time
            && !times.contains(time) by {
            let in_tail = if cursor < first {
                j - 1
            } else {
                j
            };
            if in_tail >= 0 {
                assert(all[j] == tail[in_tail]);
                assert(in_range(tail[in_tail], time));
            }
            if times.contains(time) {
                let k = choose|k: int| 0 <= k < times.len() && times[k] == time;
                if k > 0 {
                    assert(rest[k - 1] == times[k]);
                    assert(rest.contains(time));
                }
                assert(times[0] <= times[k]);
            }
        }
    } else {
        assert(missing_from(cursor, times, step).len() == 0);
    }
}

/// Whether the ranges are in order: none ends before it starts, and each
/// ends before the next one starts.
pub open spec fn ranges_in_order(ranges: Seq<(i64, i64)>) -> bool {
    &&& forall|j: int| 0 <= j < ranges.len() ==> (#[trigger] ranges[j]).0 <= ranges[j].1
    &&& forall|j: int, k: int|
        0 <= j < k < ranges.len() ==> (#[trigger] ranges[j]).1 < (#[trigger] ranges[k]).0
}

/// The walk from any cursor records its ranges in order, and none of them
/// starts before the cursor.
proof fn lemma_walk_in_order(cursor: int, times: Seq<i64>, step: int)
    requires
        step > 0,
        i64::MIN <= cursor,
    ensures
        ranges_in_order(missing_from(cursor, times, step)),
        forall|j: int|
            0 <= j < missing_from(cursor, times, step).len() ==> cursor <= (
            #[trigger] missing_from(cursor, times, step)[j]).0,
    decreases times.len(),
{
    let all = missing_from(cursor, times, step);
    if times.len() > 0 {
        let first = times[0] as int;
        let rest = times.drop_first();
        if cursor < first {
            let gap = first - cursor + step - 1;
            assert(0 <= gap - (gap / step) * step < step && step <= (gap / step) * step)
                by (nonlinear_arith)
                requires
                    gap >= step,
                    step > 0,
            ;
            let reached = catch_up(cursor, first, step);
            let tail = missing_from(reached + step, rest, step);
            lemma_walk_in_order(reached + step, rest, step);
            assert(all =~= seq![(cursor as i64, (reached - step) as i64)] + tail);
            assert forall|j: int| 0 <= j < all.len() implies cursor <= (#[trigger] all[j]).0
                && all[j].0 <= all[j].1 by {
                if j > 0 {
                    assert(all[j] == tail[j - 1]);
                }
            }
            assert forall|j: int, k: int| 0 <= j < k < all.len() implies (#[trigger] all[j]).1 < (
            #[trigger] all[k]).0 by {
                assert(all[k] == tail[k - 1]);
                if j > 0 {
                    assert(all[j] == tail[j - 1]);
                }
            }
        } else {
            lemma_walk_in_order(cursor + step, rest, step);
            assert(all =~= missing_from(cursor + step, rest, step));
        }
    }
}

/// The missing ranges come in order: none ends before it starts, and each
/// ends before the next one starts, so no slot is reported twice.
pub proof fn missing_ranges_are_in_order(times: Seq<i64>, step: int)
    ensures
        ranges_in_order(missing_ranges(times, step)),
{
    if times.len() > 0 && step > 0 {
        lemma_walk_in_order(times[0] as int, times, step);
    }
}

/// Whether each time comes exactly one step after the one before it.
pub open spec fn in_step(times: Seq<i64>, step: int) -> bool {
    forall|i: int| 0 < i < times.len() ==> #[trigger] times[i] == times[i - 1] + step
}

/// Where each time that is there comes exactly one step after the one
/// before it, nothing is missing.
pub proof fn nothing_missing_on_exact_cadence(times: Seq<i64>, step: int)
    requires
        in_step(times, step),
    ensures
        missing_ranges(times, step) == Seq::<(i64, i64)>::empty(),
{
    if times.len() > 0 && step > 0 {
        lemma_walk_in_step(times, step);
    }
}

/// Once every slot of the grid between the first and the last time has its
/// file, nothing is missing: adding the files that an inventory reports as
/// missing leaves the next inventory with nothing to report.
pub proof fn nothing_missing_once_filled_in(times: Seq<i64>, step: int)
    requires
        step > 0,
        times.len() > 0,
        ascending(times),
        all_on_grid(times, times[0] as int, step),
        forall|slot: int|
            #[trigger] on_grid(slot, times[0] as int, step) && times[0] <= slot <= times.last()
                ==> times.contains(slot as i64),
    ensures
        missing_ranges(times, step) == Seq::<(i64, i64)>::empty(),
{
    let ranges = missing_ranges(times, step);
    if ranges.len() > 0 {
        // The start of the first range would be a slot without a file.
        missing_ranges_are_whole_gaps(times, step, 0);
        let slot = ranges[0].0;
        assert(on_grid(slot as int, times[0] as int, step));
        assert(times.contains(slot));
        assert(false);
    }
    assert(ranges =~= Seq::<(i64, i64)>::empty());
}

/// The walk that starts at the first of times that keep exactly to the
/// cadence records nothing.
proof fn lemma_walk_in_step(times: Seq<i64>, step: int)
    requires
        times.len() > 0,
        in_step(times, step),
    ensures
        missing_from(times[0] as int, times, step) == Seq::<(i64, i64)>::empty(),
    decreases times.len(),
{
    let rest = times.drop_first();
    let first = times[0] as int;
    assert(missing_from(first, times, step) == missing_from(first + step, rest, step));
    if rest.len() > 0 {
        assert(rest[0] == times[1] && times[1] == times[0] + step);
        assert forall|i: int| 0 < i < rest.len() implies #[trigger] rest[i] == rest[i - 1]
            + step by {
            assert(times[i + 1] == times[i] + step);
        }
        lemma_walk_in_step(rest, step);
    }
}

/// What an archive holds for one site. For each sounding type of which the
/// site has files: the first and the last initialization time, the ranges
/// of times that are missing between them, and the locations.
#[derive(Debug)]
pub struct Inventory {
    /// The site that this is an inventory for.
    site: Site,
    /// The sounding types of which the site has files, by identifier.
    sounding_types: FnvHashMap<i64, SoundingType>,
    /// The earliest and the latest initialization time, by the identifier
    /// of the type.
    range: FnvHashMap<i64, (i64, i64)>,
    /// The ranges of missing initialization times, each a first and a last
    /// missing slot, by the identifier of the type.
    missing: FnvHashMap<i64, Vec<(i64, i64)>>,
    /// The locations, by the identifier of the type.
    locations: FnvHashMap<i64, Vec<Location>>,
}

/// What an `Inventory` holds, as mathematical values. The maps go by the
/// identifier of the sounding type.
pub struct InventoryView {
    pub site: SiteView,
    pub sounding_types: Map<i64, SoundingTypeView>,
    pub range: Map<i64, (i64, i64)>,
    pub missing: Map<i64, Seq<(i64, i64)>>,
    pub locations: Map<i64, Seq<LocationView>>,
}

impl InventoryView {
    /// Whether the inventory has `sounding_type`, with every field as here.
    pub open spec fn knows(self, sounding_type: SoundingTypeView) -> bool {
        self.sounding_types.contains_key(sounding_type.id)
            && self.sounding_types[sounding_type.id] == sounding_type
    }

    /// The first and the last time for which there are files of the type.
    pub open spec fn range_of(self, sounding_type: SoundingTypeView) -> Option<(i64, i64)> {
        if self.knows(sounding_type) && self.range.contains_key(sounding_type.id) {
            Some(self.range[sounding_type.id])
        } else {
            None
        }
    }

    /// The ranges of times for which files of the type are missing. None
    /// for a type without a cadence, and none for a type that the
    /// inventory does not have.
    pub open spec fn missing_of(self, sounding_type: SoundingTypeView) -> Seq<(i64, i64)> {
        if self.knows(sounding_type) && self.missing.contains_key(sounding_type.id) {
            self.missing[sounding_type.id]
        } else {
            Seq::empty()
        }
    }

    /// The locations from which there are files of the type.
    pub open spec fn locations_of(self, sounding_type: SoundingTypeView) -> Seq<LocationView> {
        if self.knows(sounding_type) && self.locations.contains_key(sounding_type.id) {
            self.locations[sounding_type.id]
        } else {
            Seq::empty()
        }
    }

    /// Whether the inventory says of the type under `id` what the archive
    /// holds of it for the site.
    pub open spec fn entry_describes(self, archive: ArchiveView, site_id: i64, id: i64) -> bool {
        let sounding_type = archive.types[id - 1];
        let times = time_line(archive.files, site_id, id);
        &&& self.sounding_types[id] == sounding_type
        &&& is_time_line(times, archive.files, site_id, id)
        &&& self.range.contains_key(id)
        &&& times.len() > 0
        &&& self.range[id] == (times.first(), times.last())
        &&& self.locations.contains_key(id)
        &&& self.locations[id] == locations_with_files(
            archive.locations,
            archive.files,
            site_id,
            id,
        )
        &&& match sounding_type.hours_between {
            Some(hours) => self.missing.contains_key(id) && self.missing[id] == missing_ranges(
                times,
                step_seconds(hours),
            ),
            None => !self.missing.contains_key(id),
        }
    }

    /// Whether this is the inventory of `site` in `archive`: it has
    /// exactly the sounding types of which the archive has a file for the
    /// site, and says of each what the archive holds.
    pub open spec fn describes(self, archive: ArchiveView, site: SiteView) -> bool {
        &&& self.site == site
        &&& forall|id: i64| #[trigger]
            self.sounding_types.contains_key(id) <==> 1 <= id <= archive.types.len() && has_files(
                archive.files,
                site.id,
                id,
            )
        &&& forall|id: i64| #[trigger]
            self.sounding_types.contains_key(id) ==> self.entry_describes(archive, site.id, id)
    }
}

impl View for Inventory {
    type V = InventoryView;

    closed spec fn view(&self) -> InventoryView {
        InventoryView {
            site: self.site@,
            sounding_types: Map::new(
                |id: i64| self.sounding_types@.contains_key(id),
                |id: i64| self.sounding_types@[id]@,
            ),
            range: self.range@,
            missing: Map::new(
                |id: i64| self.missing@.contains_key(id),
                |id: i64| self.missing@[id]@,
            ),
            locations: Map::new(
                |id: i64| self.locations@.contains_key(id),
                |id: i64| location_rows(self.locations@[id]@),
            ),
        }
    }
}

impl Inventory {
    /// Whether the inventory has `sounding_type`, with every field as here.
    fn knows(&self, sounding_type: &SoundingType) -> (r: bool)
        ensures
            r == self@.knows(sounding_type@),
    {
        match fnv_map_get(&self.sounding_types, sounding_type.id()) {
            Some(known) => known.same_as(sounding_type),
            None => false,
        }
    }

    /// The site that this is an inventory for.
    pub fn site(&self) -> (r: &Site)
        ensures
            r@ == self@.site,
    {
        &self.site
    }

    /// The earliest and the latest initialization time, in seconds, for
    /// which there are files of the type. `None` for a type of which the
    /// site has no files.
    pub fn range(&self, sounding_type: &SoundingType) -> (r: Option<(i64, i64)>)
        ensures
            r == self@.range_of(sounding_type@),
    {
        if !self.knows(sounding_type) {
            return None;
        }
        match fnv_map_get(&self.range, sounding_type.id()) {
            Some(found) => Some(*found),
            None => None,
        }
    }

    /// The ranges of initialization times, in seconds, for which files of
    /// the type are missing: each a first and a last missing slot. Empty
    /// for a type without a cadence.
    pub fn missing(&self, sounding_type: &SoundingType) -> (r: &[(i64, i64)])
        ensures
            r@ == self@.missing_of(sounding_type@),
    {
        if !self.knows(sounding_type) {
            return &[];
        }
        match fnv_map_get(&self.missing, sounding_type.id()) {
            Some(found) => found.as_slice(),
            None => &[],
        }
    }

    /// The locations from which there are files of the type.
    pub fn locations(&self, sounding_type: &SoundingType) -> (r: &[Location])
        ensures
            location_rows(r@) == self@.locations_of(sounding_type@),
    {
        if !self.knows(sounding_type) {
            assert(location_rows(Seq::<Location>::empty()) =~= Seq::<LocationView>::empty());
            return &[];
        }
        match fnv_map_get(&self.locations, sounding_type.id()) {
            Some(found) => found.as_slice(),
            None => {
                assert(location_rows(Seq::<Location>::empty()) =~= Seq::<LocationView>::empty());
                &[]
            },
        }
    }
}

/// The inventory of a site: for each sounding type of which the archive has
/// a file for the site, the first and the last initialization time, the
/// locations, and, where the type has a cadence, the ranges of missing
/// times. The site must be validated.
#[verifier::rlimit(30)]
pub fn inventory(archive: &Archive, site: Site) -> (r: Inventory)
    requires
        archive.wf(),
        site@.is_known(),
    ensures
        r@.describes(archive@, site@),
{
    let present = archive.sounding_types_for_site(&site);
    let mut sounding_types: FnvHashMap<i64, SoundingType> = fnv_map_new();
    let mut range: FnvHashMap<i64, (i64, i64)> = fnv_map_new();
    let mut missing: FnvHashMap<i64, Vec<(i64, i64)>> = fnv_map_new();
    let mut locations: FnvHashMap<i64, Vec<Location>> = fnv_map_new();
    let ghost types = archive@.types;
    let ghost files = archive@.files;
    let ghost found = type_rows(present@);
    proof {
        lemma_types_with_files(types, files, site@.id);
    }
    let mut i: usize = 0;
    while i < present.len()
        invariant
            0 <= i <= present.len(),
            archive.wf(),
            types == archive@.types,
            files == archive@.files,
            found == type_rows(present@),
            found == types_with_files(types, files, site@.id),
            forall|j: int|
                0 <= j < found.len() ==> {
                    let row = #[trigger] found[j];
                    &&& 1 <= row.id <= types.len()
                    &&& row == types[row.id - 1]
                    &&& has_files(files, site@.id, row.id)
                },
            forall|j: int, k: int|
                0 <= j < k < found.len() ==> (#[trigger] found[j]).id < (#[trigger] found[k]).id,
            forall|id: i64| #[trigger]
                sounding_types@.contains_key(id) <==> exists|j: int|
                    0 <= j < i && (#[trigger] found[j]).id == id,
            forall|id: i64| #[trigger] range@.contains_key(id) ==> sounding_types@.contains_key(id),
            forall|id: i64| #[trigger]
                missing@.contains_key(id) ==> sounding_types@.contains_key(id),
            forall|id: i64| #[trigger]
                locations@.contains_key(id) ==> sounding_types@.contains_key(id),
            forall|id: i64| #[trigger]
                sounding_types@.contains_key(id) ==> entry_is(
                    archive@,
                    site@.id,
                    id,
                    sounding_types@[id]@,
                    range@,
                    missing@,
                    locations@,
                ),
        decreases present.len() - i,
    {
        let sounding_type = &present[i];
        let id = sounding_type.id();
        let ghost row = found[i as int];
        assert(row == sounding_type@);
        let ghost old_types = sounding_types@;
        let ghost old_range = range@;
        let ghost old_missing = missing@;
        let ghost old_locations = locations@;
        proof {
            // The identifier is new to the maps.
            if old_types.contains_key(id) {
                let j = choose|j: int| 0 <= j < i && (#[trigger] found[j]).id == id;
                assert(found[j].id < found[i as int].id);
            }
        }
        let places = archive.locations_for_site_and_type(&site, sounding_type);
        let times = archive.init_times(&site, sounding_type);
        proof {
            // The type has files, so it has times.
            let k = choose|k: int|
                0 <= k < files.len() && (#[trigger] files[k]).site_id == site@.id
                    && files[k].type_id == id;
            assert(is_file(files[k], site@.id, id, files[k].init_time));
            assert(has_file(files, site@.id, id, files[k].init_time));
            assert(times@.contains(files[k].init_time));
        }
        let first = times[0];
        let last = times[times.len() - 1];
        fnv_map_insert(&mut locations, id, places);
        fnv_map_insert(&mut range, id, (first, last));
        if let Some(hours) = sounding_type.hours_between_initializations() {
            fnv_map_insert(&mut missing, id, find_missing(&times, hours));
        }
        fnv_map_insert(&mut sounding_types, id, sounding_type.clone());
        i = i + 1;
        proof {
            assert forall|other: i64| #[trigger]
                sounding_types@.contains_key(other) <==> exists|j: int|
                    0 <= j < i && (#[trigger] found[j]).id == other by {
                if other == id {
                    assert(found[i - 1].id == id);
                } else if sounding_types@.contains_key(other) {
                    assert(old_types.contains_key(other));
                    let j = choose|j: int| 0 <= j < i - 1 && (#[trigger] found[j]).id == other;
                    assert(found[j].id == other);
                } else if exists|j: int| 0 <= j < i && (#[trigger] found[j]).id == other {
                    let j = choose|j: int| 0 <= j < i && (#[trigger] found[j]).id == other;
                    assert(j < i - 1);
                    assert(old_types.contains_key(other));
                }
            }
            assert forall|other: i64|
                #[trigger] sounding_types@.contains_key(other) implies entry_is(
                archive@,
                site@.id,
                other,
                sounding_types@[other]@,
                range@,
                missing@,
                locations@,
            ) by {
                if other != id {
                    assert(old_types.contains_key(other));
                    assert(entry_is(
                        archive@,
                        site@.id,
                        other,
                        old_types[other]@,
                        old_range,
                        old_missing,
                        old_locations,
                    ));
                }
            }
        }
    }
    let r = Inventory { site, sounding_types, range, missing, locations };
    proof {
        let view = r@;
        assert forall|id: i64| #[trigger]
            view.sounding_types.contains_key(id) <==> 1 <= id <= types.len() && has_files(
                files,
                r@.site.id,
                id,
            ) by {
            if view.sounding_types.contains_key(id) {
                let j = choose|j: int| 0 <= j < found.len() && (#[trigger] found[j]).id == id;
                assert(found[j].id == id);
            }
            if 1 <= id <= types.len() && has_files(files, r@.site.id, id) {
                assert(types[id - 1].id == id);
                assert(found.contains(types[id - 1]));
                let j = choose|j: int| 0 <= j < found.len() && found[j] == types[id - 1];
                assert(found[j].id == id);
            }
        }
        assert forall|id: i64|
            #[trigger] view.sounding_types.contains_key(id) implies view.entry_describes(
            archive@,
            r@.site.id,
            id,
        ) by {
            assert(entry_is(
                archive@,
                r@.site.id,
                id,
                r.sounding_types@[id]@,
                r.range@,
                r.missing@,
                r.locations@,
            ));
        }
    }
    r
}

/// A sounding type without a cadence has nothing missing, whatever gaps
/// its times have.
pub proof fn nothing_missing_without_cadence(
    inventory: InventoryView,
    archive: ArchiveView,
    site: SiteView,
    sounding_type: SoundingTypeView,
)
    requires
        inventory.describes(archive, site),
        sounding_type.hours_between is None,
    ensures
        inventory.missing_of(sounding_type) == Seq::<(i64, i64)>::empty(),
{
    if inventory.knows(sounding_type) {
        assert(inventory.entry_describes(archive, site.id, sounding_type.id));
    }
}

/// Whether the maps say of the type under `id` what the archive holds of
/// it for the site.
pub open spec fn entry_is(
    archive: ArchiveView,
    site_id: i64,
    id: i64,
    sounding_type: SoundingTypeView,
    range: Map<i64, (i64, i64)>,
    missing: Map<i64, Vec<(i64, i64)>>,
    locations: Map<i64, Vec<Location>>,
) -> bool {
    let times = time_line(archive.files, site_id, id);
    &&& sounding_type == archive.types[id - 1]
    &&& is_time_line(times, archive.files, site_id, id)
    &&& range.contains_key(id)
    &&& times.len() > 0
    &&& range[id] == (times.first(), times.last())
    &&& locations.contains_key(id)
    &&& location_rows(locations[id]@) == locations_with_files(
        archive.locations,
        archive.files,
        site_id,
        id,
    )
    &&& match sounding_type.hours_between {
        Some(hours) => missing.contains_key(id) && missing[id]@ == missing_ranges(
            times,
            step_seconds(hours),
        ),
        None => !missing.contains_key(id),
    }
}

} // verus!
