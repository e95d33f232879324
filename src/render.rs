use crate::bins::{binned, largest_speed, window, Extents};
use crate::mode::HALF_TURN;
use crate::record::{Data, DataPoint};
use vstd::prelude::*;

verus! {

/// Hundredths of a knot in one knot.
pub const SPEED_UNITS_PER_KNOT: u32 = 100;

/// Half the length of the tick drawn at each end of a mark.
pub const TICK_HALF_LENGTH: u32 = 6;

/// The three channels of the graph, in the order they are drawn.
#[derive(Clone, Copy, Debug, PartialEq, Eq, Structural)]
pub enum Channel {
    BoatSpeed,
    WindSpeed,
    WindDirection,
}

pub open spec fn colour_of(c: Channel) -> (u8, u8, u8) {
    match c {
        Channel::BoatSpeed => (0, 0xff, 0),
        Channel::WindSpeed => (0xff, 0xff, 0xff),
        Channel::WindDirection => (0xff, 0, 0),
    }
}

impl Channel {
    /// The red, green and blue components of the channel's colour.
    pub fn colour(&self) -> (r: (u8, u8, u8))
        ensures
            r == colour_of(*self),
    {
        match self {
            Channel::BoatSpeed => (0, 0xff, 0),
            Channel::WindSpeed => (0xff, 0xff, 0xff),
            Channel::WindDirection => (0xff, 0, 0),
        }
    }
}

/// A vertical segment in column `x` between rows `y_from` and `y_to`, both
/// included, in the colour of `channel`.
#[derive(Clone, Copy, Debug, PartialEq, Eq, Structural)]
pub struct Segment {
    pub x: u32,
    pub y_from: u32,
    pub y_to: u32,
    pub channel: Channel,
}

/// A canvas of `width` by `height` pixels and the segments to draw on it, in
/// order.
#[derive(Clone, Debug)]
pub struct Picture {
    pub width: u32,
    pub height: u32,
    pub segments: Vec<Segment>,
}

/// The divisor that maps speeds to rows: one knot of headroom above the
/// largest speed, counted in whole knots.
pub open spec fn speed_divisor(largest: int) -> int {
    SPEED_UNITS_PER_KNOT as int * (largest / SPEED_UNITS_PER_KNOT as int + 1)
}

pub open spec fn saturate(v: int) -> int {
    if v > u32::MAX as int {
        u32::MAX as int
    } else {
        v
    }
}

/// Row of a speed: `v` scaled by `(height - 1) / speed_divisor(largest)`,
/// rounded down; a speed at or below zero maps to row 0.
pub open spec fn speed_row(v: int, largest: int, height: int) -> int {
    if v <= 0 {
        0
    } else {
        saturate(v * (height - 1) / speed_divisor(largest))
    }
}

/// Row of a folded direction: half a turn spans the height, north at the
/// bottom.
pub open spec fn direction_row(v: int, height: int) -> int {
    if v <= 0 {
        height
    } else {
        height - vstd::math::min(v * height / HALF_TURN as int, height)
    }
}

pub open spec fn tick_top(y: int) -> int {
    if y >= TICK_HALF_LENGTH as int {
        y - TICK_HALF_LENGTH as int
    } else {
        0
    }
}

pub open spec fn tick_bottom(y: int, height: int) -> int {
    vstd::math::min(y + TICK_HALF_LENGTH as int, height - 1)
}

/// The marks of one channel in column `x`: a tick at each end, then the
/// segment that joins them.
pub open spec fn channel_segments(x: int, a: int, b: int, c: Channel, height: int) -> Seq<Segment> {
    seq![
        Segment { x: x as u32, y_from: tick_top(a) as u32, y_to: tick_bottom(a, height) as u32, channel: c },
        Segment { x: x as u32, y_from: tick_top(b) as u32, y_to: tick_bottom(b, height) as u32, channel: c },
        Segment { x: x as u32, y_from: a as u32, y_to: b as u32, channel: c },
    ]
}

/// The marks of one column: boat speed, wind speed, then wind direction.
pub open spec fn column_segments(x: int, e: Extents, largest: int, height: int) -> Seq<Segment> {
    channel_segments(
        x,
        speed_row(e.boatspeed.0 as int, largest, height),
        speed_row(e.boatspeed.1 as int, largest, height),
        Channel::BoatSpeed,
        height,
    ) + channel_segments(
        x,
        speed_row(e.windspeed.0 as int, largest, height),
        speed_row(e.windspeed.1 as int, largest, height),
        Channel::WindSpeed,
        height,
    ) + channel_segments(
        x,
        direction_row(e.winddirection.1 as int, height),
        direction_row(e.winddirection.0 as int, height),
        Channel::WindDirection,
        height,
    )
}

/// The marks of all columns, left to right.
pub open spec fn composed(columns: Seq<Extents>, largest: int, height: int) -> Seq<Segment>
    decreases columns.len(),
{
    if columns.len() == 0 {
        Seq::empty()
    } else {
        composed(columns.drop_last(), largest, height) + column_segments(
            columns.len() - 1,
            columns.last(),
            largest,
            height,
        )
    }
}

/// The segments of the graph of the fixes `s` seen through `[start, end]`
/// on a canvas of `width` by `height` pixels.
pub open spec fn graph_segments(
    s: Seq<DataPoint>,
    width: int,
    height: int,
    start: int,
    end: int,
) -> Seq<Segment> {
    if height < 1 {
        Seq::empty()
    } else {
        composed(binned(s, width, start, end), largest_speed(window(s, start, end)), height)
    }
}

/// Row of a speed, as `speed_row` states.
pub fn speed_to_row(v: i64, largest: u32, height: u32) -> (r: u32)
    requires
        height >= 1,
    ensures
        r == speed_row(v as int, largest as int, height as int),
{
    if v <= 0 {
        return 0;
    }
    assert((v as u128) * ((height - 1) as u128) <= 0x1_0000_0000_0000_0000_0000_0000) by (nonlinear_arith)
        requires
            0 < v <= i64::MAX,
            height >= 1,
    {
    }
    let scaled = (v as u128) * ((height - 1) as u128);
    let divisor = (SPEED_UNITS_PER_KNOT as u128) * (largest as u128 / SPEED_UNITS_PER_KNOT as u128 + 1);
    let q = scaled / divisor;
    if q > u32::MAX as u128 {
        u32::MAX
    } else {
        q as u32
    }
}

/// Row of a folded direction, as `direction_row` states.
pub fn direction_to_row(v: i64, height: u32) -> (r: u32)
    ensures
        r == direction_row(v as int, height as int),
{
    if v <= 0 {
        return height;
    }
    assert((v as u128) * (height as u128) <= 0x1_0000_0000_0000_0000_0000_0000) by (nonlinear_arith)
        requires
            0 < v <= i64::MAX,
    {
    }
    let part = (v as u128) * (height as u128) / (HALF_TURN as u128);
    let part = if part > height as u128 { height as u128 } else { part };
    height - part as u32
}

fn push_channel(out: &mut Vec<Segment>, x: u32, a: u32, b: u32, channel: Channel, height: u32)
    requires
        height >= 1,
    ensures
        final(out)@ == old(out)@ + channel_segments(x as int, a as int, b as int, channel, height as int),
{
    let ta = if a >= TICK_HALF_LENGTH { a - TICK_HALF_LENGTH } else { 0 };
    let ba = if (a as u64 + TICK_HALF_LENGTH as u64) < (height - 1) as u64 { a + TICK_HALF_LENGTH } else { height - 1 };
    let tb = if b >= TICK_HALF_LENGTH { b - TICK_HALF_LENGTH } else { 0 };
    let bb = if (b as u64 + TICK_HALF_LENGTH as u64) < (height - 1) as u64 { b + TICK_HALF_LENGTH } else { height - 1 };
    out.push(Segment { x, y_from: ta, y_to: ba, channel });
    out.push(Segment { x, y_from: tb, y_to: bb, channel });
    out.push(Segment { x, y_from: a, y_to: b, channel });
    proof {
        assert(final(out)@ =~= old(out)@ + channel_segments(x as int, a as int, b as int, channel, height as int));
    }
}

/// The marks of each column, left to right, with speeds scaled against
/// `largest_speed`.
pub fn compose(columns: &Vec<Extents>, largest_speed: u32, height: u32) -> (r: Vec<Segment>)
    requires
        height >= 1,
        columns.len() <= u32::MAX,
    ensures
        r@ == composed(columns@, largest_speed as int, height as int),
{
    let mut out: Vec<Segment> = Vec::new();
    let n = columns.len();
    let mut k: usize = 0;
    while k < n
        invariant
            n == columns.len(),
            n <= u32::MAX,
            k <= n,
            height >= 1,
            out@ == composed(columns@.take(k as int), largest_speed as int, height as int),
        decreases n - k,
    {
        let e = columns[k];
        let x = k as u32;
        let ghost before = out@;
        push_channel(&mut out, x, speed_to_row(e.boatspeed.0, largest_speed, height), speed_to_row(e.boatspeed.1, largest_speed, height), Channel::BoatSpeed, height);
        push_channel(&mut out, x, speed_to_row(e.windspeed.0, largest_speed, height), speed_to_row(e.windspeed.1, largest_speed, height), Channel::WindSpeed, height);
        push_channel(&mut out, x, direction_to_row(e.winddirection.1, height), direction_to_row(e.winddirection.0, height), Channel::WindDirection, height);
        proof {
            let t = columns@.take(k + 1);
            assert(t.drop_last() =~= columns@.take(k as int));
            assert(t.last() == e);
            assert(out@ =~= before + column_segments(k as int, e, largest_speed as int, height as int));
        }
        k = k + 1;
    }
    proof {
        assert(columns@.take(n as int) =~= columns@);
    }
    out
}

impl Data {
    /// Draws the fixes whose timestamp lies in `[start, end]` as one column of
    /// marks per time bin on a canvas of `width` by `height` pixels.
    pub fn graph(&self, width: u32, height: u32, start: i64, end: i64) -> (r: Picture)
        ensures
            r.width == width,
            r.height == height,
            r.segments@ == graph_segments(self.data@, width as int, height as int, start as int, end as int),
            window(self.data@, start as int, end as int).len() < 2 ==> r.segments@.len() == 0,
    {
        if height < 1 {
            return Picture { width, height, segments: Vec::new() };
        }
        let summary = self.window_summary(start, end);
        let columns = self.bins(width, start, end);
        let segments = compose(&columns, summary.largest_speed, height);
        Picture { width, height, segments }
    }
}

} // verus!
