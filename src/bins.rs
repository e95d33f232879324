use crate::mode::{calculate_bin_values, fold, fold_direction, mode_pair};
use crate::record::{Data, DataPoint};
use vstd::prelude::*;

verus! {

broadcast use vstd::seq_lib::group_seq_properties;

/// The low/high pair of each channel over the fixes of one time bin. The
/// direction channel holds folded directions.
#[derive(Clone, Copy, Debug, PartialEq, Eq)]
pub struct Extents {
    pub boatspeed: (i64, i64),
    pub windspeed: (i64, i64),
    pub winddirection: (i64, i64),
}

/// What a scan of the visible window finds.
#[derive(Clone, Copy, Debug, PartialEq, Eq, Structural)]
pub struct WindowSummary {
    /// How many fixes lie in the window.
    pub count: usize,
    /// Earliest and latest timestamp in the window (meaningful when `count > 0`).
    pub earliest: i64,
    pub latest: i64,
    /// Largest boat or wind speed in the window (0 when it is empty).
    pub largest_speed: u32,
}

pub open spec fn in_span(lo: int, hi: int) -> spec_fn(DataPoint) -> bool {
    |p: DataPoint| lo <= p.timestamp < hi
}

pub open spec fn in_window(start: int, end: int) -> spec_fn(DataPoint) -> bool {
    |p: DataPoint| start <= p.timestamp <= end
}

/// The fixes whose timestamp lies in `[lo, hi)`, in their order.
pub open spec fn members(s: Seq<DataPoint>, lo: int, hi: int) -> Seq<DataPoint> {
    s.filter(in_span(lo, hi))
}

/// The fixes whose timestamp lies in `[start, end]`, in their order.
pub open spec fn window(s: Seq<DataPoint>, start: int, end: int) -> Seq<DataPoint> {
    s.filter(in_window(start, end))
}

pub open spec fn boatspeeds(s: Seq<DataPoint>) -> Seq<i64> {
    s.map_values(|p: DataPoint| p.boatspeed as i64)
}

pub open spec fn windspeeds(s: Seq<DataPoint>) -> Seq<i64> {
    s.map_values(|p: DataPoint| p.windspeed as i64)
}

pub open spec fn folded_directions(s: Seq<DataPoint>) -> Seq<i64> {
    s.map_values(|p: DataPoint| fold(p.winddirection as int) as i64)
}

pub open spec fn extents_of(s: Seq<DataPoint>) -> Extents {
    Extents {
        boatspeed: mode_pair(boatspeeds(s).to_multiset()),
        windspeed: mode_pair(windspeeds(s).to_multiset()),
        winddirection: mode_pair(folded_directions(s).to_multiset()),
    }
}

pub open spec fn earliest(s: Seq<DataPoint>) -> int
    decreases s.len(),
{
    if s.len() <= 1 {
        s[0].timestamp as int
    } else {
        vstd::math::min(earliest(s.drop_last()), s.last().timestamp as int)
    }
}

pub open spec fn latest(s: Seq<DataPoint>) -> int
    decreases s.len(),
{
    if s.len() <= 1 {
        s[0].timestamp as int
    } else {
        vstd::math::max(latest(s.drop_last()), s.last().timestamp as int)
    }
}

pub open spec fn largest_speed(s: Seq<DataPoint>) -> int
    decreases s.len(),
{
    if s.len() == 0 {
        0
    } else {
        vstd::math::max(
            largest_speed(s.drop_last()),
            vstd::math::max(s.last().boatspeed as int, s.last().windspeed as int),
        )
    }
}

/// Length of one bin: the visible span shared out over the columns, rounded
/// down, and never less than one millisecond.
pub open spec fn bin_duration(span: int, width: int) -> int {
    if span / width >= 1 {
        span / width
    } else {
        1
    }
}

/// Number of columns swept: one per bin that starts no later than the end of
/// the span, and at most `width`.
pub open spec fn column_count(span: int, width: int) -> int {
    let d = bin_duration(span, width);
    if span / d + 1 < width {
        span / d + 1
    } else {
        width
    }
}

/// The extents of each column, left to right, for the fixes `s` seen through
/// the window `[start, end]` at `width` columns.
pub open spec fn binned(s: Seq<DataPoint>, width: int, start: int, end: int) -> Seq<Extents> {
    let w = window(s, start, end);
    if width < 1 || w.len() < 2 {
        Seq::empty()
    } else {
        let e = earliest(w);
        let span = latest(w) - e;
        let d = bin_duration(span, width);
        Seq::new(
            column_count(span, width) as nat,
            |k: int| extents_of(members(s, e + k * d, e + (k + 1) * d)),
        )
    }
}

/// The extents of the fixes whose timestamp lies in `[lo, hi)`.
pub fn bin_extents(data: &Vec<DataPoint>, lo: i128, hi: i128) -> (r: Extents)
    ensures
        r == extents_of(members(data@, lo as int, hi as int)),
{
    let mut boats: Vec<i64> = Vec::new();
    let mut winds: Vec<i64> = Vec::new();
    let mut dirs: Vec<i64> = Vec::new();
    let n = data.len();
    let mut i: usize = 0;
    while i < n
        invariant
            n == data.len(),
            i <= n,
            boats@ == boatspeeds(members(data@.take(i as int), lo as int, hi as int)),
            winds@ == windspeeds(members(data@.take(i as int), lo as int, hi as int)),
            dirs@ == folded_directions(members(data@.take(i as int), lo as int, hi as int)),
        decreases n - i,
    {
        let p = data[i];
        proof {
            assert(data@.take(i + 1) =~= data@.take(i as int).push(p));
            data@.take(i as int).lemma_filter_push(p, in_span(lo as int, hi as int));
        }
        if lo <= p.timestamp as i128 && (p.timestamp as i128) < hi {
            boats.push(p.boatspeed as i64);
            winds.push(p.windspeed as i64);
            dirs.push(fold_direction(p.winddirection) as i64);
        }
        i = i + 1;
    }
    proof {
        assert(data@.take(n as int) =~= data@);
    }
    Extents {
        boatspeed: calculate_bin_values(&boats),
        windspeed: calculate_bin_values(&winds),
        winddirection: calculate_bin_values(&dirs),
    }
}

impl Data {
    /// Scans the fixes whose timestamp lies in `[start, end]`.
    pub fn window_summary(&self, start: i64, end: i64) -> (r: WindowSummary)
        ensures
            r.count == window(self.data@, start as int, end as int).len(),
            r.count > 0 ==> r.earliest == earliest(window(self.data@, start as int, end as int)),
            r.count > 0 ==> r.latest == latest(window(self.data@, start as int, end as int)),
            r.largest_speed == largest_speed(window(self.data@, start as int, end as int)),
    {
        let ghost pred = in_window(start as int, end as int);
        let mut count: usize = 0;
        let mut first: i64 = 0;
        let mut last: i64 = 0;
        let mut largest: u32 = 0;
        let n = self.data.len();
        let mut i: usize = 0;
        while i < n
            invariant
                n == self.data.len(),
                i <= n,
                pred == in_window(start as int, end as int),
                count == self.data@.take(i as int).filter(pred).len(),
                count <= i,
                count > 0 ==> first == earliest(self.data@.take(i as int).filter(pred)),
                count > 0 ==> last == latest(self.data@.take(i as int).filter(pred)),
                largest == largest_speed(self.data@.take(i as int).filter(pred)),
            decreases n - i,
        {
            let p = self.data[i];
            let ghost w = self.data@.take(i as int).filter(pred);
            proof {
                assert(self.data@.take(i + 1) =~= self.data@.take(i as int).push(p));
                self.data@.take(i as int).lemma_filter_push(p, pred);
            }
            if start <= p.timestamp && p.timestamp <= end {
                proof {
                    assert(w.push(p).drop_last() =~= w);
                }
                if count == 0 || p.timestamp < first {
                    first = p.timestamp;
                }
                if count == 0 || p.timestamp > last {
                    last = p.timestamp;
                }
                if p.boatspeed > largest {
                    largest = p.boatspeed;
                }
                if p.windspeed > largest {
                    largest = p.windspeed;
                }
                count = count + 1;
            }
            i = i + 1;
        }
        proof {
            assert(self.data@.take(n as int) =~= self.data@);
        }
        WindowSummary { count, earliest: first, latest: last, largest_speed: largest }
    }

    /// Shares the window `[start, end]` out over `width` columns and reduces
    /// the fixes of each column's bin to their extents.
    pub fn bins(&self, width: u32, start: i64, end: i64) -> (r: Vec<Extents>)
        ensures
            r@ == binned(self.data@, width as int, start as int, end as int),
            r@.len() <= width,
    {
        let summary = self.window_summary(start, end);
        let mut out: Vec<Extents> = Vec::new();
        if width < 1 || summary.count < 2 {
            return out;
        }
        let ghost w = window(self.data@, start as int, end as int);
        proof {
            lemma_earliest_le_latest(w);
        }
        let e = summary.earliest as i128;
        let span = summary.latest as i128 - e;
        let per_column = span / width as i128;
        let d: i128 = if per_column >= 1 { per_column } else { 1 };
        let full = span / d + 1;
        let columns: i128 = if full < width as i128 { full } else { width as i128 };
        proof {
            assert(d == bin_duration(span as int, width as int));
            assert(columns == column_count(span as int, width as int));
            assert(columns <= width);
        }
        let mut k: i128 = 0;
        while k < columns
            invariant
                0 <= k <= columns,
                columns <= width,
                1 <= d,
                0 <= span < 0x1_0000_0000_0000_0000,
                d <= span || d == 1,
                columns <= span / d + 1,
                e == earliest(w),
                span == latest(w) - e,
                i64::MIN <= e <= i64::MAX,
                w == window(self.data@, start as int, end as int),
                out.len() == k,
                forall|j: int| 0 <= j < k ==> #[trigger] out@[j]
                    == extents_of(members(self.data@, e + j * d, e + (j + 1) * d)),
            decreases columns - k,
        {
            assert(k * d <= span + d) by (nonlinear_arith)
                requires
                    0 <= k <= span / d,
                    1 <= d,
                    0 <= span,
            {
                assert((span / d) * d <= span);
            }
            let lo = e + k * d;
            let hi = lo + d;
            proof {
                assert(e + (k + 1) * d == hi) by (nonlinear_arith)
                    requires
                        hi == e + k * d + d,
                {
                }
            }
            let column = bin_extents(&self.data, lo, hi);
            out.push(column);
            k = k + 1;
        }
        proof {
            assert(out@ =~= binned(self.data@, width as int, start as int, end as int));
        }
        out
    }
}

proof fn lemma_earliest_le_latest(s: Seq<DataPoint>)
    requires
        s.len() >= 1,
    ensures
        earliest(s) <= latest(s),
        i64::MIN <= earliest(s) && latest(s) <= i64::MAX,
    decreases s.len(),
{
    if s.len() > 1 {
        lemma_earliest_le_latest(s.drop_last());
    }
}

} // verus!
