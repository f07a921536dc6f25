//! The history of the counts, and what a stacked chart of it is drawn from.

use vstd::prelude::*;
use super::fixed::{rem_floor, UNIT};
use super::stats::Statistics;

verus! {

/// The number of strips that the chart stacks: one for each group.
pub const STRIPS: usize = 6;

/// The number of levels that bound the strips, the axis included.
pub const LEVELS: usize = 7;

/// The counts at successive times.
#[derive(Debug)]
pub struct StatsBuf {
    data: Vec<(i64, Statistics)>,
}

/// The heights, from the axis upwards, at which the strips of one sample
/// begin and end: the axis; the vaccinated that are not infected; the
/// vaccinated; with them the infected; with them the healed; the
/// population; with it the dead.
pub open spec fn levels_of(stats: Statistics) -> Seq<int> {
    seq![
        0int,
        stats.vaccinated - stats.vaccinated_infected,
        stats.vaccinated as int,
        stats.vaccinated + stats.infected - stats.vaccinated_infected,
        stats.vaccinated + stats.infected - stats.vaccinated_infected + stats.healed,
        stats.population as int,
        stats.population + stats.dead,
    ]
}

/// The time rounded down to a whole unit.
pub open spec fn whole_time(time: i64) -> int {
    time - (time as int) % (UNIT as int)
}

/// The levels of consistent counts do not fall from one to the next, so the
/// strips between them never cross.
pub proof fn lemma_levels_rise(stats: Statistics)
    requires
        stats.consistent(),
    ensures
        forall|i: int, j: int|
            0 <= i <= j < LEVELS ==> #[trigger] levels_of(stats)[i] <= #[trigger] levels_of(
                stats,
            )[j],
        levels_of(stats)[LEVELS - 1] <= usize::MAX,
{
}

/// The heights at which the strips of one sample begin and end.
pub fn levels(stats: &Statistics) -> (heights: [usize; 7])
    requires
        stats.consistent(),
    ensures
        heights@.len() == LEVELS,
        forall|k: int| 0 <= k < LEVELS ==> heights@[k] == levels_of(*stats)[k],
{
    let plain: usize = stats.vaccinated - stats.vaccinated_infected;
    let ill: usize = plain + stats.infected;
    [
        0,
        plain,
        stats.vaccinated,
        ill,
        ill + stats.healed,
        stats.population,
        stats.population + stats.dead,
    ]
}

/// The time rounded down to a whole unit.
pub fn floor_to_unit(time: i64) -> (whole: i64)
    requires
        time > i64::MIN + UNIT,
    ensures
        whole == whole_time(time),
        whole <= time < whole + UNIT,
{
    time - rem_floor(time as i128, UNIT)
}

/// `strip` lists the points that bound the `j`-th strip as a strip of
/// triangles over `n` samples with `LEVELS` points each: for the `i`-th
/// sample its lower and then its upper point.
pub open spec fn is_strip(strip: Seq<u16>, j: int, n: int) -> bool {
    &&& strip.len() == 2 * n
    &&& forall|i: int|
        0 <= i < n ==> {
            &&& (#[trigger] strip[2 * i]) == LEVELS * i + j
            &&& strip[2 * i + 1] == LEVELS * i + j + 1
        }
}

/// Whether the points of `n` samples can all be indexed.
pub fn can_index(n: usize) -> (ok: bool)
    ensures
        ok == (LEVELS * n <= 0x1_0000),
{
    n <= 0x1_0000 / LEVELS
}

/// The points that bound the `j`-th strip over `n` samples.
pub fn strip_of(j: usize, n: usize) -> (strip: Vec<u16>)
    requires
        j < STRIPS,
        LEVELS * n <= 0x1_0000,
    ensures
        is_strip(strip@, j as int, n as int),
{
    let mut strip: Vec<u16> = Vec::new();
    let mut i: usize = 0;
    while i < n
        invariant
            i <= n,
            j < STRIPS,
            LEVELS * n <= 0x1_0000,
            is_strip(strip@, j as int, i as int),
        decreases n - i,
    {
        let ghost before = strip@;
        assert(LEVELS * i + j + 1 <= 0xffff) by {
            assert(LEVELS == 7 && STRIPS == 6);
        }
        let low: usize = LEVELS * i + j;
        strip.push(low as u16);
        strip.push((low + 1) as u16);
        proof {
            assert(strip@.len() == 2 * (i + 1));
            assert(strip@[2 * i] == low);
            assert(strip@[2 * i + 1] == low + 1);
            assert forall|m: int| 0 <= m < i + 1 implies {
                &&& (#[trigger] strip@[2 * m]) == LEVELS * m + j
                &&& strip@[2 * m + 1] == LEVELS * m + j + 1
            } by {
                if m < i {
                    assert(before[2 * m] == LEVELS * m + j);
                    assert(strip@[2 * m] == before[2 * m]);
                    assert(strip@[2 * m + 1] == before[2 * m + 1]);
                }
            }
            assert(is_strip(strip@, j as int, i + 1));
        }
        i += 1;
    }
    strip
}

/// For each of the strips, the points that bound it over `n` samples.
pub fn strip_indices(n: usize) -> (indices: Vec<Vec<u16>>)
    requires
        LEVELS * n <= 0x1_0000,
    ensures
        indices@.len() == STRIPS,
        forall|j: int| 0 <= j < STRIPS ==> is_strip((#[trigger] indices@[j])@, j, n as int),
{
    let mut indices: Vec<Vec<u16>> = Vec::new();
    let mut j: usize = 0;
    while j < STRIPS
        invariant
            j <= STRIPS,
            LEVELS * n <= 0x1_0000,
            indices@.len() == j,
            forall|s: int| 0 <= s < j ==> is_strip((#[trigger] indices@[s])@, s, n as int),
        decreases STRIPS - j,
    {
        let strip: Vec<u16> = strip_of(j, n);
        let ghost listed = indices@;
        indices.push(strip);
        proof {
            assert forall|s: int| 0 <= s < j + 1 implies is_strip(
                (#[trigger] indices@[s])@,
                s,
                n as int,
            ) by {
                if s < j {
                    assert(indices@[s] == listed[s]);
                }
            }
        }
        j += 1;
    }
    indices
}

impl StatsBuf {
    /// The samples recorded, oldest first.
    pub closed spec fn samples(&self) -> Seq<(i64, Statistics)> {
        self.data@
    }

    /// An empty history.
    pub fn new() -> (buf: StatsBuf)
        ensures
            buf.samples().len() == 0,
    {
        StatsBuf { data: Vec::new() }
    }

    /// The time of the first sample, or zero if there is none.
    pub fn min_t(&self) -> (t: i64)
        ensures
            t == if self.samples().len() == 0 {
                0
            } else {
                self.samples()[0].0
            },
    {
        if self.data.len() == 0 {
            0
        } else {
            self.data[0].0
        }
    }

    /// The time of the last sample, or one if there is none.
    pub fn max_t(&self) -> (t: i64)
        ensures
            t == if self.samples().len() == 0 {
                UNIT
            } else {
                self.samples()[self.samples().len() - 1].0
            },
    {
        if self.data.len() == 0 {
            UNIT
        } else {
            self.data[self.data.len() - 1].0
        }
    }

    /// Appends a sample.
    pub fn record(&mut self, t: i64, stats: Statistics)
        ensures
            final(self).samples() == old(self).samples().push((t, stats)),
    {
        self.data.push((t, stats));
    }

    /// The samples recorded, oldest first.
    pub fn data(&self) -> (data: &Vec<(i64, Statistics)>)
        ensures
            data@ == self.samples(),
    {
        &self.data
    }

    /// Records the counts at the whole unit of time that `time` lies in, if
    /// that unit is later than `last`, the time at which this was last
    /// asked. Tells whether it recorded.
    pub fn observe(&mut self, last: i64, time: i64, stats: Statistics) -> (recorded: bool)
        requires
            time > i64::MIN + UNIT,
        ensures
            recorded == (last < whole_time(time)),
            recorded ==> final(self).samples() == old(self).samples().push(
                (whole_time(time) as i64, stats),
            ),
            !recorded ==> final(self).samples() == old(self).samples(),
    {
        let whole: i64 = floor_to_unit(time);
        if last < whole {
            self.record(whole, stats);
            true
        } else {
            false
        }
    }
}

} // verus!
