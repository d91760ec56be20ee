//! The capture buffer: what the input callback appends to and what the
//! level meter, the streaming loop and the stop path read from.

use vstd::prelude::*;
use crate::audio::processing::{energy, resample};
use crate::engine::AudioBuffer;

verus! {

/// Sample rate that a finished buffer has.
pub const TARGET_SAMPLE_RATE: u32 = 16000;

/// Samples that the level meter looks at: 100 ms at the target rate.
pub const LEVEL_WINDOW: usize = 1600;

/// The level of a full-scale signal.
pub const FULL_SCALE: u16 = 32767;

/// The samples of the first channel of interleaved frames of `channels` samples.
pub open spec fn first_channel<T>(data: Seq<T>, channels: int) -> Seq<T> {
    Seq::new(((data.len() + channels - 1) / channels) as nat, |i: int| data[i * channels])
}

/// Keeps the first channel of interleaved audio.
pub fn downmix<T: Copy>(data: &[T], channels: u16) -> (mono: Vec<T>)
    requires
        channels >= 1,
    ensures
        mono@ == first_channel(data@, channels as int),
{
    let len: usize = data.len();
    let step: usize = channels as usize;
    let mut mono: Vec<T> = Vec::new();
    let mut at: usize = 0;
    let mut done: bool = false;
    assert(0 * step == 0) by (nonlinear_arith);
    while !done && at < len
        invariant
            len == data@.len(),
            step == channels,
            step >= 1,
            at <= len,
            !done ==> at == mono@.len() * step,
            done ==> mono@.len() >= 1 && (mono@.len() - 1) * step < len <= mono@.len() * step,
            forall|k: int| 0 <= k < mono@.len() ==> (#[trigger] mono@[k]) == data@[k * step],
        decreases
                (if done {
                    0
                } else {
                    1 + len - at
                }),
    {
        let ghost count = mono@.len() as int;
        mono.push(data[at]);
        proof {
            assert((count + 1) * step == count * step + step) by (nonlinear_arith);
            assert((count + 1 - 1) * step == count * step) by (nonlinear_arith);
        }
        if len - at > step {
            at = at + step;
        } else {
            done = true;
        }
    }
    proof {
        let count = mono@.len() as int;
        let c = step as int;
        let n = len as int;
        if !done {
            if count >= 1 {
                assert((count - 1) * c < count * c) by (nonlinear_arith)
                    requires
                        c >= 1,
                ;
            } else {
                assert(0 * c == 0) by (nonlinear_arith);
            }
        }
        assert((n + c - 1) / c == count) by (nonlinear_arith)
            requires
                c >= 1,
                count >= 0,
                n >= 0,
                n <= count * c,
                count == 0 ==> n == 0,
                count > 0 ==> (count - 1) * c < n,
        ;
    }
    assert(mono@ =~= first_channel(data@, channels as int));
    mono
}

/// `r` is the integer square root of `n`.
pub open spec fn is_sqrt(r: int, n: int) -> bool {
    0 <= r && r * r <= n < (r + 1) * (r + 1)
}

/// The integer square root.
pub fn isqrt(n: u64) -> (r: u64)
    ensures
        is_sqrt(r as int, n as int),
        r <= 0xffff_ffff,
{
    let mut lo: u64 = 0;
    let mut hi: u64 = 0x1_0000_0000;
    while hi - lo > 1
        invariant
            lo < hi <= 0x1_0000_0000,
            lo * lo <= n < hi * hi,
        decreases hi - lo,
    {
        let mid: u64 = lo + (hi - lo) / 2;
        assert(mid * mid <= 0xffff_ffff * 0xffff_ffff) by (nonlinear_arith)
            requires
                0 <= mid <= 0xffff_ffff,
        ;
        if mid * mid <= n {
            lo = mid;
        } else {
            hi = mid;
        }
    }
    lo
}

/// The level that a meter shows for the end of `samples`: the root of the
/// mean square of the last `LEVEL_WINDOW` samples, or of all where there
/// are fewer, and never above `FULL_SCALE`. Nothing buffered shows 0.
pub open spec fn level_of(samples: Seq<i16>, level: int) -> bool {
    if samples.len() == 0 {
        level == 0
    } else {
        let window = if samples.len() < LEVEL_WINDOW {
            samples.len() as int
        } else {
            LEVEL_WINDOW as int
        };
        let mean = energy(samples, samples.len() - window, window) / window;
        if is_sqrt(FULL_SCALE as int + 1, mean) {
            level == FULL_SCALE
        } else {
            is_sqrt(level, mean)
        }
    }
}

/// The samples captured since the last drain, and whether capture runs.
#[derive(Debug, Clone, PartialEq, Eq)]
pub struct AudioCapture {
    /// The samples not yet handed out, mono.
    pub samples: Vec<i16>,
    /// Whether the input callback appends.
    pub is_recording: bool,
    /// The rate at which the device delivers samples.
    pub device_sample_rate: u32,
}

impl AudioCapture {
    /// A capture that holds nothing, is not recording, and expects the
    /// target rate.
    pub fn new() -> (capture: Self)
        ensures
            capture.samples@.len() == 0,
            !capture.is_recording,
            capture.device_sample_rate == TARGET_SAMPLE_RATE,
    {
        AudioCapture { samples: Vec::new(), is_recording: false, device_sample_rate: TARGET_SAMPLE_RATE }
    }

    /// Starts capturing at the rate that the device was found to have:
    /// what an earlier session left is dropped.
    pub fn start(&mut self, device_sample_rate: u32)
        ensures
            final(self).samples@.len() == 0,
            final(self).is_recording,
            final(self).device_sample_rate == device_sample_rate,
    {
        self.device_sample_rate = device_sample_rate;
        self.samples.clear();
        self.is_recording = true;
    }

    /// Takes in one block of interleaved samples from the device: while
    /// recording its first channel is appended, otherwise it is dropped.
    pub fn push_interleaved(&mut self, data: &[i16], channels: u16)
        requires
            channels >= 1,
        ensures
            final(self).is_recording == old(self).is_recording,
            final(self).device_sample_rate == old(self).device_sample_rate,
            final(self).samples@ == (if old(self).is_recording {
                old(self).samples@ + first_channel(data@, channels as int)
            } else {
                old(self).samples@
            }),
    {
        if self.is_recording {
            let mut mono: Vec<i16> = downmix(data, channels);
            self.samples.append(&mut mono);
        }
    }

    /// Number of samples waiting to be drained.
    pub fn available_samples(&self) -> (n: usize)
        ensures
            n == self.samples@.len(),
    {
        self.samples.len()
    }

    /// Hands out every sample captured since the last drain and leaves the
    /// buffer empty for the next interval.
    pub fn drain(&mut self) -> (taken: Vec<i16>)
        ensures
            taken@ == old(self).samples@,
            final(self).samples@.len() == 0,
            final(self).is_recording == old(self).is_recording,
            final(self).device_sample_rate == old(self).device_sample_rate,
    {
        let mut taken: Vec<i16> = Vec::new();
        taken.append(&mut self.samples);
        assert(taken@ =~= old(self).samples@);
        taken
    }

    /// Stops capturing and hands out what is left as a finished buffer at
    /// the target rate.
    ///
    /// Samples captured at the target rate are handed out as they are. At
    /// any other rate they go through `interpolate`, whose result is the
    /// buffer and whose error is the error. Either way the capture holds
    /// nothing afterwards and no longer records.
    pub fn stop<E, F: Fn(&[i16], u32, u32) -> Result<Vec<i16>, E>>(&mut self, interpolate: F) -> (
    finished: Result<AudioBuffer, E>)
        requires
            forall|s: &[i16], from: u32, to: u32| #[trigger] call_requires(interpolate, (s, from, to)),
        ensures
            !final(self).is_recording,
            final(self).samples@.len() == 0,
            final(self).device_sample_rate == old(self).device_sample_rate,
            old(self).device_sample_rate == TARGET_SAMPLE_RATE ==> (finished matches Ok(buffer)
                && buffer.samples@ == old(self).samples@ && buffer.sample_rate
                == TARGET_SAMPLE_RATE && buffer.channels == 1),
            finished matches Ok(buffer) ==> buffer.sample_rate == TARGET_SAMPLE_RATE
                && buffer.channels == 1,
            old(self).device_sample_rate != TARGET_SAMPLE_RATE ==> exists|
                raw: &[i16],
                made: Result<Vec<i16>, E>,
            |
                raw@ == old(self).samples@ && #[trigger] call_ensures(
                    interpolate,
                    (raw, old(self).device_sample_rate, TARGET_SAMPLE_RATE),
                    made,
                ) && (match made {
                    Ok(samples) => finished matches Ok(buffer) && buffer.samples == samples,
                    Err(e) => finished == Err::<AudioBuffer, E>(e),
                }),
    {
        self.is_recording = false;
        let raw: Vec<i16> = self.drain();
        let slice: &[i16] = raw.as_slice();
        let made: Result<Vec<i16>, E> = resample(
            slice,
            self.device_sample_rate,
            TARGET_SAMPLE_RATE,
            interpolate,
        );
        let ghost witness = made;
        let finished: Result<AudioBuffer, E> = match made {
            Ok(samples) => Ok(AudioBuffer { samples, sample_rate: TARGET_SAMPLE_RATE, channels: 1 }),
            Err(e) => Err(e),
        };
        proof {
            if old(self).device_sample_rate != TARGET_SAMPLE_RATE {
                assert(call_ensures(
                    interpolate,
                    (slice, old(self).device_sample_rate, TARGET_SAMPLE_RATE),
                    witness,
                ));
            }
        }
        finished
    }

    /// The level of the most recent audio, from 0 to `FULL_SCALE`.
    pub fn current_level(&self) -> (level: u16)
        ensures
            level_of(self.samples@, level as int),
            level <= FULL_SCALE,
    {
        let len: usize = self.samples.len();
        if len == 0 {
            return 0;
        }
        let window: usize = if len < LEVEL_WINDOW {
            len
        } else {
            LEVEL_WINDOW
        };
        let start: usize = len - window;
        let mut sum: u64 = 0;
        let mut i: usize = 0;
        while i < window
            invariant
                len == self.samples@.len(),
                start + window == len,
                window <= LEVEL_WINDOW,
                i <= window,
                sum == energy(self.samples@, start as int, i as int),
                sum <= i * 0x4000_0000,
            decreases window - i,
        {
            let s: i32 = self.samples[start + i] as i32;
            assert(0 <= s * s <= 0x4000_0000) by (nonlinear_arith)
                requires
                    -0x8000 <= s <= 0x7fff,
            ;
            let sq: i32 = s * s;
            sum = sum + sq as u64;
            i = i + 1;
        }
        let mean: u64 = sum / window as u64;
        assert(mean <= 0x4000_0000) by (nonlinear_arith)
            requires
                mean == sum / (window as u64),
                sum <= window * 0x4000_0000,
                window >= 1,
        ;
        let root: u64 = isqrt(mean);
        proof {
            let r = root as int;
            if r > 32768 {
                assert(r * r > 0x4000_0000) by (nonlinear_arith)
                    requires
                        r >= 32769,
                ;
            }
        }
        if root > FULL_SCALE as u64 {
            FULL_SCALE
        } else {
            proof {
                if is_sqrt(FULL_SCALE as int + 1, mean as int) {
                    let r = root as int;
                    assert(false) by (nonlinear_arith)
                        requires
                            0 <= r <= 32767,
                            r * r <= mean < (r + 1) * (r + 1),
                            32768 * 32768 <= mean,
                    ;
                }
            }
            root as u16
        }
    }

    /// Whether the capture is recording.
    pub fn is_recording(&self) -> (recording: bool)
        ensures
            recording == self.is_recording,
    {
        self.is_recording
    }
}

} // verus!
