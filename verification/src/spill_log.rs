//! The spill log of a run: one record for each time segment, with the counts
//! of the Chronobox channels in it.

use vstd::prelude::*;

verus! {

/// A time in seconds, held as the bit pattern of an IEEE 754 double so that
/// it passes through the library unchanged. The library only orders such
/// times, by [`Seconds::order_key`].
#[derive(Clone, Copy, Debug, PartialEq, Eq, Structural)]
pub struct Seconds {
    pub bits: u64,
}

/// The sign bit of a double.
pub const SIGN_BIT: u64 = 0x8000_0000_0000_0000;

/// The bit pattern of positive infinity; a larger magnitude is not a number.
pub const INFINITY_BITS: u64 = 0x7ff0_0000_0000_0000;

impl Seconds {
    /// The magnitude bits: the pattern without its sign.
    pub open spec fn spec_magnitude(self) -> u64 {
        if self.bits >= SIGN_BIT {
            (self.bits - SIGN_BIT) as u64
        } else {
            self.bits
        }
    }

    /// Whether the pattern stands for no number at all.
    pub open spec fn spec_is_nan(self) -> bool {
        self.spec_magnitude() > INFINITY_BITS
    }

    /// An integer that grows with the time: of two times that are numbers, the
    /// earlier has the smaller key, and the two zeros share one key.
    ///
    /// A negative time has its sign bit set and a magnitude that grows as the
    /// time falls, so its key counts down from the key of zero; a positive
    /// time keeps the order of its bits, above the key of zero.
    pub open spec fn spec_order_key(self) -> u64 {
        if self.bits >= SIGN_BIT {
            (SIGN_BIT - self.spec_magnitude()) as u64
        } else {
            (self.bits + SIGN_BIT) as u64
        }
    }

    /// The time with this bit pattern.
    pub fn from_bits(bits: u64) -> (time: Seconds)
        ensures
            time.bits == bits,
    {
        Seconds { bits }
    }

    /// The bit pattern of this time.
    pub fn to_bits(&self) -> (bits: u64)
        ensures
            bits == self.bits,
    {
        self.bits
    }

    /// Whether the pattern stands for no number at all.
    pub fn is_nan(&self) -> (nan: bool)
        ensures
            nan == self.spec_is_nan(),
    {
        let magnitude = if self.bits >= SIGN_BIT {
            self.bits - SIGN_BIT
        } else {
            self.bits
        };
        magnitude > INFINITY_BITS
    }

    /// The integer by which times are ordered.
    pub fn order_key(&self) -> (key: u64)
        ensures
            key == self.spec_order_key(),
    {
        if self.bits >= SIGN_BIT {
            SIGN_BIT - (self.bits - SIGN_BIT)
        } else {
            self.bits + SIGN_BIT
        }
    }
}

/// The keys of two patterns agree exactly when the patterns are the same or
/// are the two zeros.
pub proof fn lemma_order_key_equal(a: Seconds, b: Seconds)
    ensures
        a.spec_order_key() == b.spec_order_key() <==> (a.bits == b.bits || (a.spec_magnitude() == 0
            && b.spec_magnitude() == 0)),
{
}

/// Among the times of one sign the key follows the magnitude: upwards for the
/// positive ones, downwards for the negative ones, and every negative time
/// lies below every positive one.
pub proof fn lemma_order_key_monotone(a: Seconds, b: Seconds)
    ensures
        a.bits < SIGN_BIT && b.bits < SIGN_BIT ==> (a.spec_order_key() < b.spec_order_key() <==> a.bits
            < b.bits),
        a.bits >= SIGN_BIT && b.bits >= SIGN_BIT ==> (a.spec_order_key() < b.spec_order_key()
            <==> a.bits > b.bits),
        a.bits > SIGN_BIT && b.bits < SIGN_BIT ==> a.spec_order_key() < b.spec_order_key(),
{
}

/// One segment of the spill log.
#[derive(Debug)]
pub struct Record {
    pub sequencer_name: String,
    pub event_description: String,
    pub start_time: Seconds,
    pub stop_time: Seconds,
    /// The count of each Chronobox channel, by the channel's name. Where a
    /// name stands twice, the first entry counts.
    pub counts: Vec<(String, u32)>,
}

/// What a [`Record`] says.
pub ghost struct RecordView {
    pub sequencer_name: Seq<char>,
    pub event_description: Seq<char>,
    pub start_time: Seconds,
    pub stop_time: Seconds,
    pub counts: Seq<(Seq<char>, u32)>,
}

/// The count that `counts` holds for `channel`: that of the first entry with
/// this name.
pub open spec fn count_in(counts: Seq<(Seq<char>, u32)>, channel: Seq<char>) -> Option<u32>
    decreases counts.len(),
{
    if counts.len() == 0 {
        None
    } else if counts[0].0 == channel {
        Some(counts[0].1)
    } else {
        count_in(counts.drop_first(), channel)
    }
}

/// A channel has a count exactly when an entry bears its name, and the count
/// is that of the first such entry.
pub proof fn lemma_count_in(counts: Seq<(Seq<char>, u32)>, channel: Seq<char>)
    ensures
        match count_in(counts, channel) {
            Some(count) => exists|i: int|
                0 <= i < counts.len() && #[trigger] counts[i] == (channel, count) && forall|j: int|
                    0 <= j < i ==> (#[trigger] counts[j]).0 != channel,
            None => forall|i: int| 0 <= i < counts.len() ==> (#[trigger] counts[i]).0 != channel,
        },
    decreases counts.len(),
{
    if counts.len() == 0 {
    } else if counts[0].0 == channel {
        assert(counts[0] == (channel, counts[0].1));
    } else {
        let rest = counts.drop_first();
        lemma_count_in(rest, channel);
        match count_in(rest, channel) {
            Some(count) => {
                let i = choose|i: int|
                    0 <= i < rest.len() && #[trigger] rest[i] == (channel, count) && forall|j: int|
                        0 <= j < i ==> (#[trigger] rest[j]).0 != channel;
                assert(counts[i + 1] == rest[i]);
                assert forall|j: int| 0 <= j < i + 1 implies (#[trigger] counts[j]).0
                    != channel by {
                    if j > 0 {
                        assert(counts[j] == rest[j - 1]);
                    }
                }
            },
            None => {
                assert forall|i: int| 0 <= i < counts.len() implies (#[trigger] counts[i]).0
                    != channel by {
                    if i > 0 {
                        assert(counts[i] == rest[i - 1]);
                    }
                }
            },
        }
    }
}

impl View for Record {
    type V = RecordView;

    open spec fn view(&self) -> RecordView {
        RecordView {
            sequencer_name: self.sequencer_name@,
            event_description: self.event_description@,
            start_time: self.start_time,
            stop_time: self.stop_time,
            counts: self.counts.deep_view(),
        }
    }
}

impl RecordView {
    /// The count of `channel` in this record, if the log has one.
    pub open spec fn count(self, channel: Seq<char>) -> Option<u32> {
        count_in(self.counts, channel)
    }
}

impl RecordView {
    /// Whether the times of the record are in order: both are numbers, and
    /// the record does not stop before it starts.
    pub open spec fn has_ordered_times(self) -> bool {
        &&& !self.start_time.spec_is_nan()
        &&& !self.stop_time.spec_is_nan()
        &&& self.start_time.spec_order_key() <= self.stop_time.spec_order_key()
    }
}

impl Record {
    /// Whether the times of the record are in order: both are numbers, and
    /// the record does not stop before it starts.
    pub fn has_ordered_times(&self) -> (ordered: bool)
        ensures
            ordered == self@.has_ordered_times(),
    {
        !self.start_time.is_nan() && !self.stop_time.is_nan() && self.start_time.order_key()
            <= self.stop_time.order_key()
    }

    /// The count of `channel` in this record, if the log has one.
    pub fn count(&self, channel: &str) -> (count: Option<u32>)
        ensures
            count == self@.count(channel@),
    {
        let ghost all = self.counts.deep_view();
        let mut i: usize = 0;
        assert(all.skip(0) =~= all);
        while i < self.counts.len()
            invariant
                i <= self.counts.len(),
                all == self.counts.deep_view(),
                count_in(all, channel@) == count_in(all.skip(i as int), channel@),
            decreases self.counts.len() - i,
        {
            let ghost rest = all.skip(i as int);
            assert(rest[0] == all[i as int]);
            assert(all[i as int].0 == self.counts@[i as int].0@);
            assert(all[i as int].1 == self.counts@[i as int].1);
            assert(rest.drop_first() =~= all.skip(i + 1));
            if crate::text::str_eq(self.counts[i].0.as_str(), channel) {
                return Some(self.counts[i].1);
            }
            i += 1;
        }
        None
    }
}

impl Clone for Record {
    fn clone(&self) -> (copy: Self)
        ensures
            copy@ == self@,
    {
        let mut counts: Vec<(String, u32)> = Vec::new();
        let mut i: usize = 0;
        while i < self.counts.len()
            invariant
                i <= self.counts.len(),
                counts@.len() == i,
                forall|j: int|
                    0 <= j < i ==> (#[trigger] counts@[j]).0@ == self.counts@[j].0@ && counts@[j].1
                        == self.counts@[j].1,
            decreases self.counts.len() - i,
        {
            counts.push((self.counts[i].0.clone(), self.counts[i].1));
            i += 1;
        }
        assert(counts.deep_view() =~= self.counts.deep_view());
        Record {
            sequencer_name: self.sequencer_name.clone(),
            event_description: self.event_description.clone(),
            start_time: self.start_time,
            stop_time: self.stop_time,
            counts,
        }
    }
}

/// The spill log of one run, in the order in which the data handler gave it.
#[derive(Debug)]
pub struct SpillLog {
    pub records: Vec<Record>,
}

} // verus!
