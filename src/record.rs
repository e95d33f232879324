use vstd::prelude::*;

verus! {

/// Milliseconds in one day.
pub const DAY_MILLIS: i64 = 86_400_000;

/// One fix, or the accumulator that a fix is assembled in.
///
/// The timestamp counts milliseconds since 1970-01-01T00:00:00Z; speeds are in
/// hundredths of a knot and the direction in hundredths of a degree.
/// A zero field is unset.
#[derive(Clone, Copy, Debug, PartialEq, Eq, Structural)]
pub struct DataPoint {
    pub timestamp: i64,
    pub boatspeed: u32,
    pub windspeed: u32,
    pub winddirection: i32,
}

/// A decoded instrument sentence, reduced to what the assembler reads.
/// A field that could not be decoded is `None`.
#[derive(Clone, Copy, Debug, PartialEq, Eq, Structural)]
pub enum Sentence {
    /// A time of day without a date, in milliseconds since midnight.
    TimeOfDay(Option<u32>),
    /// A full date and time, in milliseconds since the epoch.
    DateTime(Option<i64>),
    /// Wind speed (hundredths of a knot) and true wind angle (hundredths of a degree).
    Wind { speed: Option<u32>, direction: Option<i32> },
    /// Speed through the water, in hundredths of a knot.
    WaterSpeed(Option<u32>),
    /// Any other kind of sentence.
    Other,
}

/// The point with every field unset.
pub open spec fn empty_point() -> DataPoint {
    DataPoint { timestamp: 0, boatspeed: 0, windspeed: 0, winddirection: 0 }
}

/// Every channel has been observed.
pub open spec fn is_complete(p: DataPoint) -> bool {
    p.boatspeed > 0 && p.windspeed > 0 && p.winddirection != 0 && p.timestamp != 0
}

/// Start of the day (UTC) that holds the instant `t`.
pub open spec fn day_start(t: int) -> int {
    t - t % (DAY_MILLIS as int)
}

/// The instant on the day of `t` at time of day `tod`.
pub open spec fn at_time_of_day(t: int, tod: int) -> int {
    day_start(t) + tod
}

pub open spec fn fits_i64(v: int) -> bool {
    i64::MIN <= v <= i64::MAX
}

/// Effect of a time-of-day field on the accumulator.
pub open spec fn apply_time_of_day(p: DataPoint, time: Option<u32>) -> DataPoint {
    match time {
        Some(tod) => if tod < DAY_MILLIS && fits_i64(at_time_of_day(p.timestamp as int, tod as int)) {
            DataPoint { timestamp: at_time_of_day(p.timestamp as int, tod as int) as i64, ..p }
        } else {
            p
        },
        None => p,
    }
}

/// Effect of a full date and time field on the accumulator.
pub open spec fn apply_date_time(p: DataPoint, time: Option<i64>) -> DataPoint {
    match time {
        Some(t) => DataPoint { timestamp: t, ..p },
        None => p,
    }
}

/// Effect of one sentence on the accumulator.
pub open spec fn apply(p: DataPoint, s: Sentence) -> DataPoint {
    match s {
        Sentence::TimeOfDay(time) => apply_time_of_day(p, time),
        Sentence::DateTime(time) => apply_date_time(p, time),
        Sentence::Wind { speed, direction } => {
            let q = match speed {
                Some(v) => DataPoint { windspeed: v, ..p },
                None => p,
            };
            match direction {
                Some(d) => DataPoint { winddirection: d, ..q },
                None => q,
            }
        },
        Sentence::WaterSpeed(speed) => match speed {
            Some(v) => DataPoint { boatspeed: v, ..p },
            None => p,
        },
        Sentence::Other => p,
    }
}

/// The accumulator after a fix was taken from it: only the timestamp stays.
pub open spec fn carried(p: DataPoint) -> DataPoint {
    DataPoint { timestamp: p.timestamp, ..empty_point() }
}

/// One step of the assembler: the next accumulator, and the fix completed by
/// this sentence, if any.
pub open spec fn step(acc: DataPoint, s: Sentence) -> (DataPoint, Option<DataPoint>) {
    let q = apply(acc, s);
    if is_complete(q) {
        (carried(q), Some(q))
    } else {
        (q, None)
    }
}

pub open spec fn option_seq(o: Option<DataPoint>) -> Seq<DataPoint> {
    match o {
        Some(p) => seq![p],
        None => Seq::empty(),
    }
}

/// Runs the assembler over a sequence of sentences: the final accumulator and
/// the fixes emitted, in order.
pub open spec fn assemble(acc: DataPoint, ss: Seq<Sentence>) -> (DataPoint, Seq<DataPoint>)
    decreases ss.len(),
{
    if ss.len() == 0 {
        (acc, Seq::empty())
    } else {
        let (a, out) = assemble(acc, ss.drop_last());
        let (a2, o) = step(a, ss.last());
        (a2, out + option_seq(o))
    }
}

/// A sentence that can change the timestamp.
pub open spec fn is_time_sentence(s: Sentence) -> bool {
    s is TimeOfDay || s is DateTime
}

impl DataPoint {
    pub fn new() -> (r: DataPoint)
        ensures
            r == empty_point(),
    {
        DataPoint { timestamp: 0, boatspeed: 0, windspeed: 0, winddirection: 0 }
    }

    pub fn is_complete(&self) -> (r: bool)
        ensures
            r == is_complete(*self),
    {
        self.windspeed > 0 && self.boatspeed > 0 && self.winddirection != 0 && self.timestamp != 0
    }
}

/// Replaces the time of day of the accumulator's timestamp, keeping its date.
pub fn process_utc_time(datapoint: &mut DataPoint, time: Option<u32>)
    ensures
        *final(datapoint) == apply_time_of_day(*old(datapoint), time),
{
    if let Some(tod) = time {
        if (tod as i64) < DAY_MILLIS {
            let t = datapoint.timestamp as i128;
            let day = DAY_MILLIS as i128;
            let rem = t % day;
            let rem = if rem < 0 { rem + day } else { rem };
            assert(rem == (t as int) % (day as int));
            let v = t - rem + tod as i128;
            if i64::MIN as i128 <= v && v <= i64::MAX as i128 {
                datapoint.timestamp = v as i64;
            }
        }
    }
}

/// Replaces the accumulator's timestamp.
pub fn process_utc_timestamp(datapoint: &mut DataPoint, time: Option<i64>)
    ensures
        *final(datapoint) == apply_date_time(*old(datapoint), time),
{
    if let Some(t) = time {
        datapoint.timestamp = t;
    }
}

/// Merges one sentence into the accumulator.
pub fn process_nmea(datapoint: &mut DataPoint, sentence: &Sentence)
    ensures
        *final(datapoint) == apply(*old(datapoint), *sentence),
{
    match sentence {
        Sentence::TimeOfDay(time) => process_utc_time(datapoint, *time),
        Sentence::DateTime(time) => process_utc_timestamp(datapoint, *time),
        Sentence::Wind { speed, direction } => {
            if let Some(v) = speed {
                datapoint.windspeed = *v;
            }
            if let Some(d) = direction {
                datapoint.winddirection = *d;
            }
        },
        Sentence::WaterSpeed(speed) => {
            if let Some(v) = speed {
                datapoint.boatspeed = *v;
            }
        },
        Sentence::Other => {},
    }
}

/// Merges one sentence into the accumulator; when that completes a fix, returns
/// it and leaves the accumulator holding only the fix's timestamp.
pub fn process(sentence: &Sentence, accumulator: &mut DataPoint) -> (r: Option<DataPoint>)
    ensures
        (*final(accumulator), r) == step(*old(accumulator), *sentence),
{
    process_nmea(accumulator, sentence);
    if accumulator.is_complete() {
        let done = *accumulator;
        *accumulator = DataPoint { timestamp: done.timestamp, boatspeed: 0, windspeed: 0, winddirection: 0 };
        Some(done)
    } else {
        None
    }
}

/// The fixes of one log, in the order they were completed.
#[derive(Clone, Debug)]
pub struct Data {
    pub data: Vec<DataPoint>,
}

impl Data {
    pub fn new() -> (r: Data)
        ensures
            r.data@ == Seq::<DataPoint>::empty(),
    {
        Data { data: Vec::new() }
    }

    /// Assembles the fixes of a sequence of sentences, starting from an empty
    /// accumulator, and appends them.
    pub fn load_sentences(&mut self, sentences: &Vec<Sentence>)
        ensures
            final(self).data@ == old(self).data@ + assemble(empty_point(), sentences@).1,
    {
        let mut dp = DataPoint::new();
        let n = sentences.len();
        let mut i: usize = 0;
        while i < n
            invariant
                n == sentences.len(),
                i <= n,
                (dp, self.data@) == ({
                    let (a, out) = assemble(empty_point(), sentences@.take(i as int));
                    (a, old(self).data@ + out)
                }),
            decreases n - i,
        {
            proof {
                assert(sentences@.take(i + 1).drop_last() =~= sentences@.take(i as int));
            }
            if let Some(p) = process(&sentences[i], &mut dp) {
                self.data.push(p);
            }
            i = i + 1;
            proof {
                assert(old(self).data@ + assemble(empty_point(), sentences@.take(i as int)).1
                    =~= self.data@);
            }
        }
        proof {
            assert(sentences@.take(n as int) =~= sentences@);
        }
    }
}

/// Whatever the sentences, every fix that the assembler emits is complete.
pub proof fn assembled_points_are_complete(acc: DataPoint, ss: Seq<Sentence>)
    ensures
        forall|i: int|
            0 <= i < assemble(acc, ss).1.len() ==> is_complete(#[trigger] assemble(acc, ss).1[i]),
    decreases ss.len(),
{
    if ss.len() > 0 {
        assembled_points_are_complete(acc, ss.drop_last());
        let (a, out) = assemble(acc, ss.drop_last());
        let (a2, o) = step(a, ss.last());
        let all = out + option_seq(o);
        assert forall|i: int| 0 <= i < all.len() implies is_complete(#[trigger] all[i]) by {
            if i < out.len() {
                assert(all[i] == out[i]);
            } else {
                assert(all[i] == option_seq(o)[i - out.len()]);
            }
        }
    }
}

/// After a fix is emitted, the accumulator keeps the fix's timestamp for as
/// long as no further time sentence arrives.
pub proof fn emitted_timestamp_carried_forward(acc: DataPoint, s: Sentence, rest: Seq<Sentence>)
    requires
        step(acc, s).1 is Some,
        forall|j: int| 0 <= j < rest.len() ==> !is_time_sentence(#[trigger] rest[j]),
    ensures
        assemble(step(acc, s).0, rest).0.timestamp == step(acc, s).1->0.timestamp,
    decreases rest.len(),
{
    if rest.len() > 0 {
        let prefix = rest.drop_last();
        assert forall|j: int| 0 <= j < prefix.len() implies !is_time_sentence(#[trigger] prefix[j]) by {
            assert(prefix[j] == rest[j]);
        }
        emitted_timestamp_carried_forward(acc, s, prefix);
        assert(!is_time_sentence(rest[rest.len() - 1]));
    }
}

} // verus!
