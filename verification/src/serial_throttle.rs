//! Throttling of frames written to a serial line: the shortest interval between frames
//! that the line's baud rate can carry, and whether a frame may go out now.
use vstd::prelude::*;

verus! {

/// Bits on the line per byte: a start bit, eight data bits and a stop bit.
pub const BITS_PER_BYTE: u64 = 10;

/// Nanoseconds in a second.
pub const NANOS_PER_SECOND: u64 = 1_000_000_000;

/// Frames per second that are safe to send: one less than the whole frames the line
/// carries per second, and at least one.
pub open spec fn safe_fps(baud_rate: int, frame_size: int) -> int {
    let theoretical = baud_rate / (BITS_PER_BYTE as int) / frame_size;
    if theoretical - 1 > 1 {
        theoretical - 1
    } else {
        1
    }
}

/// The shortest interval between frames, in nanoseconds. An empty frame costs no time
/// on a running line; on a line without a baud rate it goes out once a second.
pub open spec fn min_interval_spec(baud_rate: int, frame_size: int) -> int {
    if frame_size == 0 {
        if baud_rate > 0 {
            0
        } else {
            NANOS_PER_SECOND as int
        }
    } else {
        NANOS_PER_SECOND as int / safe_fps(baud_rate, frame_size)
    }
}

/// The shortest interval between frames of `frame_size` bytes at `baud_rate`, in
/// nanoseconds.
pub fn min_interval_nanos(baud_rate: u32, frame_size: usize) -> (n: u64)
    ensures
        n == min_interval_spec(baud_rate as int, frame_size as int),
{
    if frame_size == 0 {
        return if baud_rate > 0 { 0 } else { NANOS_PER_SECOND };
    }
    let theoretical: u64 = (baud_rate as u64) / BITS_PER_BYTE / (frame_size as u64);
    let fps: u64 = if theoretical > 2 { theoretical - 1 } else { 1 };
    NANOS_PER_SECOND / fps
}

/// The throttle of one serial line: its interval and when the last frame went out.
#[derive(Clone, Copy, Debug)]
pub struct SendThrottle {
    pub baud_rate: u32,
    /// The shortest interval between frames, in nanoseconds.
    pub min_interval_nanos: u64,
    /// When the last frame was written, in nanoseconds on the caller's clock.
    pub last_send_nanos: Option<u128>,
}

/// Nanoseconds from `last` to `now`, and none where the clock reads earlier.
pub open spec fn elapsed(last: u128, now: u128) -> int {
    if now >= last { now - last } else { 0 }
}

/// Whether a frame may go out at `now`: before the first frame always, otherwise once
/// the interval has passed since the last one.
pub open spec fn admits_at_spec(t: SendThrottle, now: u128) -> bool {
    match t.last_send_nanos {
        None => true,
        Some(last) => elapsed(last, now) >= t.min_interval_nanos,
    }
}

/// A write attempted at `now` whose write to the line succeeds where `written`: the
/// last send time moves to `now` exactly when the frame was admitted and written.
pub open spec fn after_attempt(t: SendThrottle, now: u128, written: bool) -> SendThrottle {
    if admits_at_spec(t, now) && written {
        SendThrottle { last_send_nanos: Some(now), ..t }
    } else {
        t
    }
}

impl SendThrottle {
    /// The throttle of a line at `baud_rate` carrying frames of `frame_size` bytes, before
    /// any frame.
    pub fn new(baud_rate: u32, frame_size: usize) -> (t: SendThrottle)
        ensures
            t.baud_rate == baud_rate,
            t.min_interval_nanos == min_interval_spec(baud_rate as int, frame_size as int),
            t.last_send_nanos is None,
    {
        SendThrottle { baud_rate, min_interval_nanos: min_interval_nanos(baud_rate, frame_size), last_send_nanos: None }
    }

    /// Recomputes the interval for frames of `frame_size` bytes.
    pub fn set_frame_size(&mut self, frame_size: usize)
        ensures
            final(self).baud_rate == old(self).baud_rate,
            final(self).min_interval_nanos == min_interval_spec(old(self).baud_rate as int, frame_size as int),
            final(self).last_send_nanos == old(self).last_send_nanos,
    {
        self.min_interval_nanos = min_interval_nanos(self.baud_rate, frame_size);
    }

    /// Whether a frame may be sent, given the nanoseconds since the last frame was sent
    /// (`None` before the first): only once the interval has passed.
    pub fn admits(&self, since_last_send_nanos: Option<u128>) -> (b: bool)
        ensures
            b == match since_last_send_nanos {
                None => true,
                Some(e) => e >= self.min_interval_nanos,
            },
    {
        match since_last_send_nanos {
            None => true,
            Some(e) => e >= self.min_interval_nanos as u128,
        }
    }

    /// Whether a frame may go out at `now` (nanoseconds on the caller's clock).
    pub fn admits_at(&self, now: u128) -> (b: bool)
        ensures
            b == admits_at_spec(*self, now),
    {
        match self.last_send_nanos {
            None => true,
            Some(last) => {
                let e: u128 = if now >= last { now - last } else { 0 };
                self.admits(Some(e))
            },
        }
    }

    /// Records the outcome of a write attempted at `now`: where the frame was admitted and
    /// the line took it, `now` becomes the last send time; a dropped frame or a failed
    /// write keeps the one before.
    pub fn record_attempt(&mut self, now: u128, written: bool)
        ensures
            *final(self) == after_attempt(*old(self), now, written),
    {
        if written && self.admits_at(now) {
            self.last_send_nanos = Some(now);
        }
    }
}

/// Whether the attempt at step `i` wrote a frame to the line.
pub open spec fn sent_at(ts: Seq<SendThrottle>, times: Seq<u128>, written: Seq<bool>, i: int) -> bool {
    admits_at_spec(ts[i], times[i]) && written[i]
}

/// The throttle states `ts` follow one another by write attempts at `times` (never going
/// back), with the interval unchanged.
pub open spec fn attempt_run(ts: Seq<SendThrottle>, times: Seq<u128>, written: Seq<bool>) -> bool {
    &&& ts.len() == times.len() + 1
    &&& written.len() == times.len()
    &&& forall|i: int| 0 <= i < times.len() ==> #[trigger] ts[i + 1] == after_attempt(ts[i], times[i], written[i])
    &&& forall|i: int, j: int| 0 <= i <= j < times.len() ==> times[i] <= times[j]
}

proof fn lemma_last_send_after(ts: Seq<SendThrottle>, times: Seq<u128>, written: Seq<bool>, i: int, k: int)
    requires
        attempt_run(ts, times, written),
        0 <= i < k <= times.len(),
        sent_at(ts, times, written, i),
    ensures
        exists|m: int| i <= m < k && #[trigger] ts[k].last_send_nanos == Some(times[m]),
    decreases k - i,
{
    assert(ts[i + 1] == after_attempt(ts[i], times[i], written[i]));
    if k > i + 1 {
        lemma_last_send_after(ts, times, written, i, k - 1);
        let m = choose|m: int| i <= m < k - 1 && #[trigger] ts[k - 1].last_send_nanos == Some(times[m]);
        let km = k - 1;
        assert(ts[km + 1] == after_attempt(ts[km], times[km], written[km]));
        assert(km + 1 == k);
        if sent_at(ts, times, written, k - 1) {
            assert(ts[k].last_send_nanos == Some(times[k - 1]));
        } else {
            assert(ts[k].last_send_nanos == Some(times[m]));
        }
    } else {
        assert(ts[k].last_send_nanos == Some(times[i]));
    }
}

/// Frames written to the line at non-decreasing times are at least the interval apart.
pub proof fn law_sends_are_spaced(ts: Seq<SendThrottle>, times: Seq<u128>, written: Seq<bool>, i: int, j: int)
    requires
        attempt_run(ts, times, written),
        forall|k: int| 0 <= k < ts.len() ==> (#[trigger] ts[k]).min_interval_nanos == ts[0].min_interval_nanos,
        0 <= i < j < times.len(),
        sent_at(ts, times, written, i),
        sent_at(ts, times, written, j),
    ensures
        times[j] - times[i] >= ts[0].min_interval_nanos,
{
    lemma_last_send_after(ts, times, written, i, j);
    let m = choose|m: int| i <= m < j && #[trigger] ts[j].last_send_nanos == Some(times[m]);
    assert(times[i] <= times[m] && times[m] <= times[j]);
    assert(ts[j].min_interval_nanos == ts[0].min_interval_nanos);
}

} // verus!
