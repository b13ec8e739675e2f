//! Audio capture: the combined device list and the ring buffer of recent samples.
use vstd::prelude::*;
use crate::text::{append_decimal, owned};

verus! {

/// Kind of audio device.
#[derive(Clone, Copy, Debug, PartialEq, Eq, Structural)]
pub enum AudioDeviceKind {
    Input,
    Output,
}

/// An audio device as offered for selection.
#[derive(Debug)]
pub struct AudioDevice {
    pub index: usize,
    pub name: String,
    pub kind: AudioDeviceKind,
}

/// The name shown for a device: its own, or "Input Device {i}" / "Output Device {i}".
pub open spec fn device_label(name: Option<String>, kind: AudioDeviceKind, i: int) -> Seq<char> {
    match name {
        Some(n) => n@,
        None => match kind {
            AudioDeviceKind::Input => "Input Device "@ + crate::text::decimal(i as nat),
            AudioDeviceKind::Output => "Output Device "@ + crate::text::decimal(i as nat),
        },
    }
}

fn label(name: &Option<String>, kind: AudioDeviceKind, i: usize) -> (s: String)
    ensures
        s@ == device_label(*name, kind, i as int),
{
    match name {
        Some(n) => n.clone(),
        None => {
            let mut s = match kind {
                AudioDeviceKind::Input => owned("Input Device "),
                AudioDeviceKind::Output => owned("Output Device "),
            };
            append_decimal(&mut s, i);
            s
        },
    }
}

/// The devices offered for selection: inputs first, then outputs, numbered through.
/// Each name is the device's own where it could be read.
pub fn list_audio_devices(input_names: &Vec<Option<String>>, output_names: &Vec<Option<String>>) -> (r: Vec<AudioDevice>)
    requires
        input_names@.len() + output_names@.len() <= usize::MAX,
    ensures
        r@.len() == input_names@.len() + output_names@.len(),
        forall|i: int| 0 <= i < input_names@.len() ==> (#[trigger] r@[i]).index == i && r@[i].kind == AudioDeviceKind::Input
            && r@[i].name@ == device_label(input_names@[i], AudioDeviceKind::Input, i),
        forall|i: int| 0 <= i < output_names@.len() ==> {
            let d = #[trigger] r@[input_names@.len() + i];
            d.index == input_names@.len() + i && d.kind == AudioDeviceKind::Output
                && d.name@ == device_label(output_names@[i], AudioDeviceKind::Output, i)
        },
{
    let mut devices: Vec<AudioDevice> = Vec::new();
    let mut i: usize = 0;
    while i < input_names.len()
        invariant
            i <= input_names@.len(),
            devices@.len() == i,
            forall|a: int| 0 <= a < i ==> (#[trigger] devices@[a]).index == a && devices@[a].kind == AudioDeviceKind::Input
                && devices@[a].name@ == device_label(input_names@[a], AudioDeviceKind::Input, a),
        decreases input_names.len() - i,
    {
        devices.push(AudioDevice { index: i, name: label(&input_names[i], AudioDeviceKind::Input, i), kind: AudioDeviceKind::Input });
        i = i + 1;
    }
    let n = input_names.len();
    let mut j: usize = 0;
    while j < output_names.len()
        invariant
            n == input_names@.len(),
            n + output_names@.len() <= usize::MAX,
            j <= output_names@.len(),
            devices@.len() == n + j,
            forall|a: int| 0 <= a < n ==> (#[trigger] devices@[a]).index == a && devices@[a].kind == AudioDeviceKind::Input
                && devices@[a].name@ == device_label(input_names@[a], AudioDeviceKind::Input, a),
            forall|a: int| 0 <= a < j ==> {
                let d = #[trigger] devices@[n + a];
                d.index == n + a && d.kind == AudioDeviceKind::Output
                    && d.name@ == device_label(output_names@[a], AudioDeviceKind::Output, a)
            },
        decreases output_names.len() - j,
    {
        devices.push(AudioDevice { index: n + j, name: label(&output_names[j], AudioDeviceKind::Output, j), kind: AudioDeviceKind::Output });
        j = j + 1;
    }
    devices
}

/// The device a combined index names: an input index, or an output index after the inputs.
pub fn device_by_index(input_count: usize, output_count: usize, index: usize) -> (r: Option<(usize, AudioDeviceKind)>)
    ensures
        r == (if index < input_count {
            Some((index, AudioDeviceKind::Input))
        } else if index - input_count < output_count {
            Some(((index - input_count) as usize, AudioDeviceKind::Output))
        } else {
            None
        }),
{
    if index < input_count {
        Some((index, AudioDeviceKind::Input))
    } else if index - input_count < output_count {
        Some((index - input_count, AudioDeviceKind::Output))
    } else {
        None
    }
}

/// The device a capture starts on, or the error "Invalid audio device index: {index}".
pub fn capture_device(input_count: usize, output_count: usize, index: usize) -> (r: Result<(usize, AudioDeviceKind), String>)
    ensures
        match r {
            Ok(d) => device_by_index_spec(input_count, output_count, index) == Some(d),
            Err(e) => device_by_index_spec(input_count, output_count, index) is None
                && e@ == "Invalid audio device index: "@ + crate::text::decimal(index as nat),
        },
{
    match device_by_index(input_count, output_count, index) {
        Some(d) => Ok(d),
        None => {
            let mut e = owned("Invalid audio device index: ");
            proof {
                reveal_strlit("Invalid audio device index: ");
            }
            append_decimal(&mut e, index);
            Err(e)
        },
    }
}

/// The device a combined index names (as `device_by_index` finds it).
pub open spec fn device_by_index_spec(input_count: usize, output_count: usize, index: usize) -> Option<(usize, AudioDeviceKind)> {
    if index < input_count {
        Some((index, AudioDeviceKind::Input))
    } else if index - input_count < output_count {
        Some(((index - input_count) as usize, AudioDeviceKind::Output))
    } else {
        None
    }
}

/// Samples the capture buffer holds: about 100 ms of mono audio at `sample_rate`, and at
/// least 4096.
pub fn capture_buffer_size(sample_rate: u32) -> (n: usize)
    ensures
        n == (if sample_rate / 10 > 4096 { sample_rate / 10 } else { 4096 }),
{
    let tenth: usize = (sample_rate / 10) as usize;
    if tenth > 4096 { tenth } else { 4096 }
}

/// A fixed-size ring of the most recent samples.
#[derive(Debug)]
pub struct AudioRingBuffer<T> {
    pub buffer: Vec<T>,
    pub write_pos: usize,
    pub capacity: usize,
}

impl<T: Copy> AudioRingBuffer<T> {
    pub open spec fn wf(&self) -> bool {
        &&& self.capacity > 0
        &&& self.buffer@.len() == self.capacity
        &&& self.write_pos < self.capacity
    }

    /// The held samples, oldest first.
    pub open spec fn recent(&self) -> Seq<T> {
        Seq::new(self.capacity as nat, |i: int| self.buffer@[(self.write_pos + i) % (self.capacity as int)])
    }

    /// A ring of `capacity` samples, all `fill`.
    pub fn new(capacity: usize, fill: T) -> (r: AudioRingBuffer<T>)
        requires
            capacity > 0,
        ensures
            r.wf(),
            r.capacity == capacity,
            r.recent() == Seq::new(capacity as nat, |i: int| fill),
    {
        let mut buffer: Vec<T> = Vec::new();
        let mut i: usize = 0;
        while i < capacity
            invariant
                i <= capacity,
                buffer@ == Seq::new(i as nat, |k: int| fill),
            decreases capacity - i,
        {
            buffer.push(fill);
            proof {
                assert(buffer@ =~= Seq::new((i + 1) as nat, |k: int| fill));
            }
            i = i + 1;
        }
        let r = AudioRingBuffer { buffer, write_pos: 0, capacity };
        proof {
            assert forall|k: int| 0 <= k < capacity implies #[trigger] r.recent()[k] == fill by {
                vstd::arithmetic::div_mod::lemma_small_mod(k as nat, capacity as nat);
            }
            assert(r.recent() =~= Seq::new(capacity as nat, |i: int| fill));
        }
        r
    }

    /// Appends samples, dropping the oldest.
    pub fn write(&mut self, samples: &[T])
        requires
            old(self).wf(),
        ensures
            final(self).wf(),
            final(self).capacity == old(self).capacity,
            final(self).recent() == (old(self).recent() + samples@).skip(samples@.len() as int),
    {
        let ghost start = self.recent();
        let mut k: usize = 0;
        while k < samples.len()
            invariant
                self.wf(),
                self.capacity == old(self).capacity,
                k <= samples@.len(),
                self.recent() == (start + samples@.take(k as int)).skip(k as int),
            decreases samples.len() - k,
        {
            let ghost before = self.recent();
            let ghost old_buf = self.buffer@;
            let wp = self.write_pos;
            let x = samples[k];
            self.buffer.set(wp, x);
            self.write_pos = (wp + 1) % self.capacity;
            proof {
                let cap = self.capacity as int;
                assert forall|i: int| 0 <= i < cap implies #[trigger] self.recent()[i] == before.drop_first().push(x)[i] by {
                    lemma_wrap(wp + 1, cap);
                    lemma_wrap(self.write_pos + i, cap);
                    lemma_wrap(wp + 1 + i, cap);
                    lemma_wrap(wp + i + 1, cap);
                    if i < cap - 1 {
                        assert(before[i + 1] == old_buf[(wp + (i + 1)) % cap]);
                    }
                }
                let a = (start + samples@.take(k as int)).skip(k as int);
                let b = (start + samples@.take(k + 1)).skip(k + 1);
                assert(b =~= a.drop_first().push(samples@[k as int]));
                assert(self.recent() =~= before.drop_first().push(x));
            }
            k = k + 1;
        }
        proof {
            assert(samples@.take(k as int) =~= samples@);
        }
    }

    /// The most recent `dest.len()` samples (at most the whole ring), oldest first, into
    /// the front of `dest`; the rest of `dest` stays as it was.
    pub fn read_recent(&self, dest: &mut Vec<T>)
        requires
            self.wf(),
            2 * self.capacity <= usize::MAX,
        ensures
            ({
                let count = if old(dest)@.len() < self.capacity { old(dest)@.len() as int } else { self.capacity as int };
                &&& final(dest)@.len() == old(dest)@.len()
                &&& final(dest)@.take(count) == self.recent().skip(self.capacity - count)
                &&& final(dest)@.skip(count) == old(dest)@.skip(count)
            }),
    {
        let count = if dest.len() < self.capacity { dest.len() } else { self.capacity };
        let start = if self.write_pos >= count {
            self.write_pos - count
        } else {
            self.capacity - (count - self.write_pos)
        };
        let ghost initial = dest@;
        let mut i: usize = 0;
        while i < count
            invariant
                self.wf(),
                2 * self.capacity <= usize::MAX,
                count <= self.capacity,
                count <= initial.len(),
                start < self.capacity,
                start as int == if self.write_pos >= count { self.write_pos - count } else { self.capacity - (count - self.write_pos) },
                i <= count,
                dest@.len() == initial.len(),
                forall|j: int| 0 <= j < i ==> #[trigger] dest@[j] == self.recent()[self.capacity - count + j],
                forall|j: int| i <= j < dest@.len() ==> #[trigger] dest@[j] == initial[j],
            decreases count - i,
        {
            let idx = (start + i) % self.capacity;
            proof {
                let cap = self.capacity as int;
                lemma_wrap(start + i, cap);
                lemma_wrap(self.write_pos + (cap - count + i), cap);
            }
            dest.set(i, self.buffer[idx]);
            i = i + 1;
        }
        proof {
            let c = count as int;
            assert(dest@.take(c) =~= self.recent().skip(self.capacity - c));
            assert(dest@.skip(c) =~= initial.skip(c));
        }
    }
}

/// `a % m` for `0 <= a < 2m`.
proof fn lemma_wrap(a: int, m: int)
    requires
        0 <= a < 2 * m,
        m > 0,
    ensures
        a % m == if a < m { a } else { a - m },
{
    if a < m {
        vstd::arithmetic::div_mod::lemma_small_mod(a as nat, m as nat);
    } else {
        vstd::arithmetic::div_mod::lemma_small_mod((a - m) as nat, m as nat);
        vstd::arithmetic::div_mod::lemma_mod_add_multiples_vanish(a - m, m);
    }
}

/// A read after a write of at least `n` samples returns the last `n` samples written,
/// oldest first (for `n` up to the ring's capacity).
pub proof fn law_read_returns_latest_writes<T>(before: Seq<T>, samples: Seq<T>, n: int)
    requires
        0 <= n <= before.len(),
        n <= samples.len(),
    ensures
        ({
            let after = (before + samples).skip(samples.len() as int);
            after.skip(after.len() - n) == samples.skip(samples.len() - n)
        }),
{
    let after = (before + samples).skip(samples.len() as int);
    assert(after.skip(after.len() - n) =~= samples.skip(samples.len() - n));
}

} // verus!
