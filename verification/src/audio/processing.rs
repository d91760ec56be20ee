//! Silence-aware chunking and the index arithmetic of feature extraction.

use vstd::prelude::*;

verus! {

/// A half-open range `[start_sample, end_sample)` of a sample buffer.
#[derive(Debug, Clone, Copy, PartialEq, Eq)]
pub struct ChunkBoundary {
    pub start_sample: usize,
    pub end_sample: usize,
}

/// Number of whole samples that `duration_ms` milliseconds hold at `sample_rate`.
pub open spec fn samples_in(duration_ms: int, sample_rate: int) -> int {
    duration_ms * sample_rate / 1000
}

/// Length in samples of one energy window: at least one sample.
pub open spec fn window_len(rms_window_ms: int, sample_rate: int) -> int {
    if samples_in(rms_window_ms, sample_rate) < 1 {
        1
    } else {
        samples_in(rms_window_ms, sample_rate)
    }
}

/// Sum of the squares of `samples[start .. start + len]`.
pub open spec fn energy(samples: Seq<i16>, start: int, len: int) -> int
    decreases len,
{
    if len <= 0 {
        0
    } else {
        energy(samples, start, len - 1) + (samples[start + len - 1] as int) * (samples[start + len
            - 1] as int)
    }
}

/// Energy of window number `w`, the windows being `window` samples long and
/// laid end to end from the start of the buffer.
pub open spec fn window_energy(samples: Seq<i16>, window: int, w: int) -> int {
    energy(samples, w * window, window)
}

/// The first window of least energy among the windows `lo .. hi`; `lo` when
/// that range is empty.
pub open spec fn quietest_window(samples: Seq<i16>, window: int, lo: int, hi: int) -> int
    decreases hi - lo,
{
    if hi <= lo + 1 {
        lo
    } else {
        let best = quietest_window(samples, window, lo, hi - 1);
        if window_energy(samples, window, hi - 1) < window_energy(samples, window, best) {
            hi - 1
        } else {
            best
        }
    }
}

/// Where the chunk that starts at `start` is cut: the centre of the quietest
/// window within `search` samples of `start + target`, never past the end.
pub open spec fn cut_point(
    samples: Seq<i16>,
    target: int,
    search: int,
    window: int,
    start: int,
) -> int {
    let total = samples.len() as int;
    let ideal = start + target;
    let search_lo = if ideal >= search {
        ideal - search
    } else {
        0
    };
    let search_hi = if ideal + search <= total {
        ideal + search
    } else {
        total
    };
    let num_windows = total / window;
    let win_lo = search_lo / window;
    let win_hi = if search_hi / window <= num_windows {
        search_hi / window
    } else {
        num_windows
    };
    let best = quietest_window(samples, window, win_lo, win_hi);
    if best * window + window / 2 <= total {
        best * window + window / 2
    } else {
        total
    }
}

/// The chunks that cover `samples[start ..]`.
///
/// A remainder of at most `max_chunk` samples is one chunk. A longer one is
/// cut at `cut_point`; a cut that would not leave a non-empty chunk on both
/// sides ends the splitting, and the whole remainder is the last chunk.
pub open spec fn chunks_from(
    samples: Seq<i16>,
    max_chunk: int,
    target: int,
    search: int,
    window: int,
    start: int,
) -> Seq<ChunkBoundary>
    decreases samples.len() - start,
{
    let total = samples.len() as int;
    let cut = cut_point(samples, target, search, window, start);
    if total - start <= max_chunk || cut <= start || cut >= total {
        seq![ChunkBoundary { start_sample: start as usize, end_sample: total as usize }]
    } else {
        seq![ChunkBoundary { start_sample: start as usize, end_sample: cut as usize }]
            + chunks_from(samples, max_chunk, target, search, window, cut)
    }
}

/// The chunks of a whole buffer, for durations given in milliseconds.
pub open spec fn split_points(
    samples: Seq<i16>,
    sample_rate: int,
    target_duration_ms: int,
    search_window_ms: int,
    rms_window_ms: int,
) -> Seq<ChunkBoundary> {
    chunks_from(
        samples,
        samples_in(target_duration_ms + search_window_ms, sample_rate),
        samples_in(target_duration_ms, sample_rate),
        samples_in(search_window_ms, sample_rate),
        window_len(rms_window_ms, sample_rate),
        0,
    )
}

/// `chunks` are ordered, contiguous, non-overlapping ranges whose union is
/// `[start, total)`. Only a buffer with nothing left yields an empty range.
pub open spec fn covers(chunks: Seq<ChunkBoundary>, start: int, total: int) -> bool {
    &&& chunks.len() >= 1
    &&& chunks[0].start_sample == start
    &&& chunks[chunks.len() - 1].end_sample == total
    &&& forall|i: int|
        0 <= i < chunks.len() ==> (#[trigger] chunks[i]).start_sample <= chunks[i].end_sample
    &&& forall|i: int|
        0 <= i < chunks.len() - 1 ==> (#[trigger] chunks[i]).start_sample < chunks[i].end_sample
            && chunks[i].end_sample == chunks[i + 1].start_sample
}

/// The chunks of any remainder cover it exactly.
pub proof fn lemma_chunks_cover(
    samples: Seq<i16>,
    max_chunk: int,
    target: int,
    search: int,
    window: int,
    start: int,
)
    requires
        samples.len() <= usize::MAX,
        0 <= start <= samples.len(),
    ensures
        covers(
            chunks_from(samples, max_chunk, target, search, window, start),
            start,
            samples.len() as int,
        ),
    decreases samples.len() - start,
{
    let total = samples.len() as int;
    let cut = cut_point(samples, target, search, window, start);
    let chunks = chunks_from(samples, max_chunk, target, search, window, start);
    if total - start <= max_chunk || cut <= start || cut >= total {
    } else {
        let rest = chunks_from(samples, max_chunk, target, search, window, cut);
        lemma_chunks_cover(samples, max_chunk, target, search, window, cut);
        let head = seq![ChunkBoundary { start_sample: start as usize, end_sample: cut as usize }];
        assert(chunks == head + rest);
        assert(chunks[0] == head[0]);
        assert forall|i: int| 1 <= i < chunks.len() implies #[trigger] chunks[i] == rest[i - 1] by {}
        assert forall|i: int| 0 <= i < chunks.len() implies (#[trigger] chunks[i]).start_sample
            <= chunks[i].end_sample by {
            if i >= 1 {
                assert(chunks[i] == rest[i - 1]);
            }
        }
        assert forall|i: int| 0 <= i < chunks.len() - 1 implies (#[trigger] chunks[i]).start_sample
            < chunks[i].end_sample && chunks[i].end_sample == chunks[i + 1].start_sample by {
            assert(chunks[i + 1] == rest[i]);
            if i >= 1 {
                assert(chunks[i] == rest[i - 1]);
            }
        }
    }
}

/// Every chunk of a cover lies within the buffer.
pub proof fn lemma_chunk_in_buffer(chunks: Seq<ChunkBoundary>, total: int, k: int)
    requires
        covers(chunks, 0, total),
        0 <= k < chunks.len(),
    ensures
        0 <= chunks[k].start_sample <= chunks[k].end_sample <= total,
    decreases chunks.len() - k,
{
    if k < chunks.len() - 1 {
        lemma_chunk_in_buffer(chunks, total, k + 1);
        assert(chunks[k].end_sample == chunks[k + 1].start_sample);
    }
}

/// A buffer no longer than the target and the search window together is
/// never split.
pub proof fn lemma_short_buffer_is_one_chunk(
    samples: Seq<i16>,
    sample_rate: int,
    target_duration_ms: int,
    search_window_ms: int,
    rms_window_ms: int,
)
    requires
        samples.len() <= samples_in(target_duration_ms + search_window_ms, sample_rate),
    ensures
        split_points(samples, sample_rate, target_duration_ms, search_window_ms, rms_window_ms)
            == seq![ChunkBoundary { start_sample: 0, end_sample: samples.len() as usize }],
{
}

/// The chunks of every buffer are ordered, contiguous, non-overlapping, and
/// their union is the whole buffer.
pub proof fn lemma_split_covers_buffer(
    samples: Seq<i16>,
    sample_rate: int,
    target_duration_ms: int,
    search_window_ms: int,
    rms_window_ms: int,
)
    requires
        samples.len() <= usize::MAX,
    ensures
        covers(
            split_points(samples, sample_rate, target_duration_ms, search_window_ms, rms_window_ms),
            0,
            samples.len() as int,
        ),
{
    lemma_chunks_cover(
        samples,
        samples_in(target_duration_ms + search_window_ms, sample_rate),
        samples_in(target_duration_ms, sample_rate),
        samples_in(search_window_ms, sample_rate),
        window_len(rms_window_ms, sample_rate),
        0,
    );
}


/// The quietest window of a range that is not empty lies in the range, no
/// window of the range is quieter, and every window before it is louder.
pub proof fn lemma_quietest_window(samples: Seq<i16>, window: int, lo: int, hi: int)
    requires
        lo < hi,
    ensures
        lo <= quietest_window(samples, window, lo, hi) < hi,
        forall|w: int|
            lo <= w < hi ==> window_energy(samples, window, quietest_window(samples, window, lo, hi))
                <= #[trigger] window_energy(samples, window, w),
        forall|w: int|
            lo <= w < quietest_window(samples, window, lo, hi) ==> window_energy(
                samples,
                window,
                quietest_window(samples, window, lo, hi),
            ) < #[trigger] window_energy(samples, window, w),
    decreases hi - lo,
{
    if hi > lo + 1 {
        lemma_quietest_window(samples, window, lo, hi - 1);
    }
}

/// Each window's energy lies under `window` times the square of the loudest sample.
proof fn lemma_energy_bound(samples: Seq<i16>, start: int, len: int)
    requires
        0 <= start,
        0 <= len,
        start + len <= samples.len(),
    ensures
        0 <= energy(samples, start, len) <= len * 0x4000_0000,
    decreases len,
{
    if len > 0 {
        lemma_energy_bound(samples, start, len - 1);
        let s = samples[start + len - 1] as int;
        assert(0 <= s * s <= 0x4000_0000) by (nonlinear_arith)
            requires
                -0x8000 <= s <= 0x7fff,
        ;
    }
}

/// The energy of every complete window, in order.
fn window_energies(samples: &[i16], window: usize) -> (energies: Vec<u128>)
    requires
        window >= 1,
    ensures
        energies@.len() == samples@.len() / (window as nat),
        forall|w: int|
            0 <= w < energies@.len() ==> #[trigger] energies@[w] == window_energy(
                samples@,
                window as int,
                w,
            ),
{
    let total: usize = samples.len();
    let num_windows: usize = total / window;
    let mut energies: Vec<u128> = Vec::new();
    let mut w: usize = 0;
    while w < num_windows
        invariant
            window >= 1,
            total == samples@.len(),
            num_windows == total / window,
            w <= num_windows,
            energies@.len() == w,
            forall|k: int|
                0 <= k < w ==> #[trigger] energies@[k] == window_energy(
                    samples@,
                    window as int,
                    k,
                ),
        decreases num_windows - w,
    {
        proof {
            assert((w + 1) * window <= total) by (nonlinear_arith)
                requires
                    w + 1 <= num_windows,
                    num_windows == total / window,
                    window >= 1,
            ;
            assert(w * window + window == (w + 1) * window) by (nonlinear_arith);
        }
        let base: usize = w * window;
        let mut acc: u128 = 0;
        let mut i: usize = 0;
        while i < window
            invariant
                base == w * window,
                base + window <= total,
                total == samples@.len(),
                i <= window,
                acc == energy(samples@, base as int, i as int),
            decreases window - i,
        {
            proof {
                lemma_energy_bound(samples@, base as int, i as int);
                let s = samples@[base + i] as int;
                assert(0 <= s * s <= 0x4000_0000) by (nonlinear_arith)
                    requires
                        -0x8000 <= s <= 0x7fff,
                ;
                assert(i * 0x4000_0000 <= usize::MAX * 0x4000_0000) by (nonlinear_arith)
                    requires
                        i <= usize::MAX,
                ;
            }
            let s: i32 = samples[base + i] as i32;
            let sq: i32 = s * s;
            acc = acc + sq as u128;
            i = i + 1;
        }
        energies.push(acc);
        w = w + 1;
    }
    energies
}

/// The first window of least energy among `lo .. hi`, read from the table.
fn find_quietest(energies: &Vec<u128>, lo: usize, hi: usize, Ghost(samples): Ghost<Seq<i16>>, Ghost(
    window,
): Ghost<int>) -> (best: usize)
    requires
        hi <= energies@.len(),
        forall|w: int|
            0 <= w < energies@.len() ==> #[trigger] energies@[w] == window_energy(
                samples,
                window,
                w,
            ),
    ensures
        best == quietest_window(samples, window, lo as int, hi as int),
        lo < hi ==> lo <= best < hi,
        lo >= hi ==> best == lo,
{
    let mut best: usize = lo;
    if lo >= hi {
        return best;
    }
    let mut w: usize = lo + 1;
    while w < hi
        invariant
            lo < w <= hi,
            hi <= energies@.len(),
            lo <= best < w,
            best == quietest_window(samples, window, lo as int, w as int),
            forall|k: int|
                0 <= k < energies@.len() ==> #[trigger] energies@[k] == window_energy(
                    samples,
                    window,
                    k,
                ),
        decreases hi - w,
    {
        if energies[w] < energies[best] {
            best = w;
        }
        w = w + 1;
    }
    best
}

/// `samples_in`, computed without overflow.
fn samples_for(duration_ms: u64, sample_rate: u32) -> (n: u128)
    ensures
        n == samples_in(duration_ms as int, sample_rate as int),
{
    proof {
        assert(0 <= duration_ms * sample_rate <= 0xffff_ffff_ffff_ffff * 0xffff_ffff)
            by (nonlinear_arith)
            requires
                0 <= duration_ms <= 0xffff_ffff_ffff_ffff,
                0 <= sample_rate <= 0xffff_ffff,
        ;
    }
    duration_ms as u128 * sample_rate as u128 / 1000
}

/// Splits a buffer into chunks cut at quiet points.
///
/// A buffer of at most `target_duration_ms + search_window_ms` is returned
/// whole. A longer one is cut, chunk after chunk, at the centre of the
/// quietest window of `rms_window_ms` found within `search_window_ms` of the
/// point `target_duration_ms` after the chunk's start; the first such window
/// wins a tie. The chunks always cover the buffer: a cut that would leave an
/// empty chunk ends the splitting instead.
pub fn split_at_silence(
    samples: &[i16],
    sample_rate: u32,
    target_duration_ms: u32,
    search_window_ms: u32,
    rms_window_ms: u32,
) -> (chunks: Vec<ChunkBoundary>)
    ensures
        chunks@ == split_points(
            samples@,
            sample_rate as int,
            target_duration_ms as int,
            search_window_ms as int,
            rms_window_ms as int,
        ),
        covers(chunks@, 0, samples@.len() as int),
        samples@.len() <= samples_in(
            target_duration_ms + search_window_ms,
            sample_rate as int,
        ) ==> chunks@ == seq![
            ChunkBoundary { start_sample: 0, end_sample: samples@.len() as usize },
        ],
{
    let total: usize = samples.len();
    let max_chunk: u128 = samples_for(
        target_duration_ms as u64 + search_window_ms as u64,
        sample_rate,
    );
    let ghost max_chunk_i = samples_in(target_duration_ms + search_window_ms, sample_rate as int);
    let ghost target_i = samples_in(target_duration_ms as int, sample_rate as int);
    let ghost search_i = samples_in(search_window_ms as int, sample_rate as int);
    let ghost window_i = window_len(rms_window_ms as int, sample_rate as int);
    let ghost full = chunks_from(samples@, max_chunk_i, target_i, search_i, window_i, 0);
    proof {
        lemma_chunks_cover(samples@, max_chunk_i, target_i, search_i, window_i, 0);
    }
    let mut chunks: Vec<ChunkBoundary> = Vec::new();
    if total as u128 <= max_chunk {
        chunks.push(ChunkBoundary { start_sample: 0, end_sample: total });
        assert(chunks@ =~= full);
        return chunks;
    }
    let target128: u128 = samples_for(target_duration_ms as u64, sample_rate);
    let search128: u128 = samples_for(search_window_ms as u64, sample_rate);
    let window_raw: u128 = samples_for(rms_window_ms as u64, sample_rate);
    let window128: u128 = if window_raw < 1 {
        1
    } else {
        window_raw
    };
    proof {
        assert(target_duration_ms * sample_rate <= (target_duration_ms + search_window_ms)
            * sample_rate) by (nonlinear_arith);
        assert(search_window_ms * sample_rate <= (target_duration_ms + search_window_ms)
            * sample_rate) by (nonlinear_arith);
        assert(target_duration_ms * sample_rate + search_window_ms * sample_rate == (
        target_duration_ms + search_window_ms) * sample_rate) by (nonlinear_arith);
        assert(0 <= target_duration_ms * sample_rate) by (nonlinear_arith);
        assert(0 <= search_window_ms * sample_rate) by (nonlinear_arith);
    }
    assert(target128 + search128 <= max_chunk);
    let target: usize = target128 as usize;
    let search: usize = search128 as usize;
    let energies: Vec<u128> = if window128 <= total as u128 {
        window_energies(samples, window128 as usize)
    } else {
        proof {
            assert(samples@.len() as int / window_i == 0) by (nonlinear_arith)
                requires
                    0 <= samples@.len() < window_i,
            ;
        }
        Vec::new()
    };
    let num_windows: usize = energies.len();
    let mut chunk_start: usize = 0;
    let mut done: bool = false;
    while !done
        invariant
            total == samples@.len(),
            chunk_start <= total,
            max_chunk == max_chunk_i,
            target == target_i,
            search == search_i,
            window128 == window_i,
            window128 >= 1,
            target + search <= max_chunk,
            max_chunk < total,
            num_windows == energies@.len(),
            num_windows == total as int / window_i,
            forall|w: int|
                0 <= w < energies@.len() ==> #[trigger] energies@[w] == window_energy(
                    samples@,
                    window_i,
                    w,
                ),
            full == chunks_from(samples@, max_chunk_i, target_i, search_i, window_i, 0),
            !done ==> chunks@ + chunks_from(
                samples@,
                max_chunk_i,
                target_i,
                search_i,
                window_i,
                chunk_start as int,
            ) =~= full,
            done ==> chunks@ =~= full,
        decreases
                (if done {
                    0
                } else {
                    1 + total - chunk_start
                }),
    {
        let remaining: usize = total - chunk_start;
        if remaining as u128 <= max_chunk {
            chunks.push(ChunkBoundary { start_sample: chunk_start, end_sample: total });
            done = true;
        } else {
            let ideal: usize = chunk_start + target;
            let search_lo: usize = if ideal >= search {
                ideal - search
            } else {
                0
            };
            let search_hi: usize = ideal + search;
            let win_lo: usize = (search_lo as u128 / window128) as usize;
            let win_hi_raw: usize = (search_hi as u128 / window128) as usize;
            let win_hi: usize = if win_hi_raw <= num_windows {
                win_hi_raw
            } else {
                num_windows
            };
            let best: usize = find_quietest(
                &energies,
                win_lo,
                win_hi,
                Ghost(samples@),
                Ghost(window_i),
            );
            proof {
                assert(best <= total as int / window_i) by {
                    if win_lo < win_hi {
                    } else {
                        assert(search_lo as int / window_i <= total as int / window_i)
                            by (nonlinear_arith)
                            requires
                                0 <= search_lo <= total,
                                window_i >= 1,
                        ;
                    }
                }
                assert(best * window_i <= total) by (nonlinear_arith)
                    requires
                        0 <= best <= total as int / window_i,
                        window_i >= 1,
                        0 <= total,
                ;
            }
            let centre: u128 = best as u128 * window128 + window128 / 2;
            let cut: usize = if centre <= total as u128 {
                centre as usize
            } else {
                total
            };
            assert(cut == cut_point(samples@, target_i, search_i, window_i, chunk_start as int));
            if cut <= chunk_start || cut >= total {
                chunks.push(ChunkBoundary { start_sample: chunk_start, end_sample: total });
                done = true;
            } else {
                chunks.push(ChunkBoundary { start_sample: chunk_start, end_sample: cut });
                chunk_start = cut;
            }
        }
    }
    chunks
}


/// Brings samples from one rate to another.
///
/// Equal rates leave the samples as they are, and `interpolate` is not
/// called. For different rates the result is whatever `interpolate`, the
/// band-limited interpolation, makes of the samples and the two rates.
pub fn resample<E, F: Fn(&[i16], u32, u32) -> Result<Vec<i16>, E>>(
    samples: &[i16],
    from_rate: u32,
    to_rate: u32,
    interpolate: F,
) -> (resampled: Result<Vec<i16>, E>)
    requires
        forall|s: &[i16], from: u32, to: u32| #[trigger] call_requires(interpolate, (s, from, to)),
    ensures
        from_rate == to_rate ==> (resampled matches Ok(out) && out@ == samples@),
        from_rate != to_rate ==> call_ensures(interpolate, (samples, from_rate, to_rate), resampled),
{
    if from_rate == to_rate {
        let mut out: Vec<i16> = Vec::new();
        let mut i: usize = 0;
        while i < samples.len()
            invariant
                i <= samples@.len(),
                out@ == samples@.take(i as int),
            decreases samples@.len() - i,
        {
            out.push(samples[i]);
            assert(samples@.take(i + 1) =~= samples@.take(i as int).push(samples@[i as int]));
            i = i + 1;
        }
        assert(samples@.take(i as int) =~= samples@);
        Ok(out)
    } else {
        interpolate(samples, from_rate, to_rate)
    }
}

/// The kernel of the band-limited interpolation that `resample` is used
/// with: a windowed sinc.
#[derive(Debug, Clone, Copy, PartialEq, Eq, Structural)]
pub struct SincKernel {
    /// Length of the sinc, in taps.
    pub sinc_len: usize,
    /// Cutoff, in percent of the Nyquist frequency.
    pub cutoff_percent: u32,
    /// Number of interpolated positions between two taps.
    pub oversampling_factor: usize,
    /// The largest change of the ratio that the kernel is sized for, as a
    /// factor.
    pub max_ratio_change: u32,
    /// Number of channels handed over at once.
    pub channels: usize,
}

/// The kernel used for speech: 256 taps cut off at 95 % of Nyquist, 256
/// times oversampled, for one channel.
pub fn speech_kernel() -> (kernel: SincKernel)
    ensures
        kernel == (SincKernel {
            sinc_len: 256,
            cutoff_percent: 95,
            oversampling_factor: 256,
            max_ratio_change: 2,
            channels: 1,
        }),
{
    SincKernel {
        sinc_len: 256,
        cutoff_percent: 95,
        oversampling_factor: 256,
        max_ratio_change: 2,
        channels: 1,
    }
}

/// The magnitude of a sample.
pub open spec fn magnitude(s: i16) -> int {
    if s < 0 {
        -(s as int)
    } else {
        s as int
    }
}

/// `peak` is the greatest magnitude among `samples`, 0 for none.
pub open spec fn is_peak(samples: Seq<i16>, peak: int) -> bool {
    &&& forall|i: int| 0 <= i < samples.len() ==> magnitude(#[trigger] samples[i]) <= peak
    &&& if samples.len() == 0 {
        peak == 0
    } else {
        exists|i: int| 0 <= i < samples.len() && magnitude(#[trigger] samples[i]) == peak
    }
}

/// A sample scaled so that a magnitude of `peak` becomes full scale; the
/// scaled magnitude is rounded towards zero.
pub open spec fn scaled(s: i16, peak: int) -> int {
    if s < 0 {
        -(magnitude(s) * 32767 / peak)
    } else {
        magnitude(s) * 32767 / peak
    }
}

/// The greatest magnitude among the samples.
pub fn peak_of(samples: &Vec<i16>) -> (peak: u16)
    ensures
        is_peak(samples@, peak as int),
        peak <= 32768,
{
    let mut peak: u16 = 0;
    let mut i: usize = 0;
    let ghost mut at: int = 0;
    while i < samples.len()
        invariant
            i <= samples@.len(),
            peak <= 32768,
            forall|k: int| 0 <= k < i ==> magnitude(#[trigger] samples@[k]) <= peak,
            i == 0 ==> peak == 0,
            i > 0 ==> 0 <= at < i && magnitude(samples@[at]) == peak,
        decreases samples@.len() - i,
    {
        let s: i32 = samples[i] as i32;
        let m: u16 = if s < 0 {
            (-s) as u16
        } else {
            s as u16
        };
        if i == 0 || m > peak {
            peak = m;
            proof {
                at = i as int;
            }
        }
        i = i + 1;
    }
    peak
}

/// Scales the samples so that the loudest one is at full scale.
///
/// Silence, and a signal whose peak already is full scale, are left as
/// they are.
pub fn normalize(samples: &mut Vec<i16>)
    ensures
        final(samples)@.len() == old(samples)@.len(),
        forall|peak: int| #[trigger]
            is_peak(old(samples)@, peak) ==> (if peak == 0 || peak == 32767 {
                final(samples)@ == old(samples)@
            } else {
                forall|i: int|
                    0 <= i < old(samples)@.len() ==> (#[trigger] final(samples)@[i]) == scaled(
                        old(samples)@[i],
                        peak,
                    )
            }),
{
    let peak: u16 = peak_of(samples);
    proof {
        assert forall|other: int| is_peak(samples@, other) implies other == peak by {
            if samples@.len() > 0 {
                let i = choose|i: int| 0 <= i < samples@.len() && magnitude(samples@[i]) == peak;
                let j = choose|j: int| 0 <= j < samples@.len() && magnitude(samples@[j]) == other;
                assert(magnitude(samples@[i]) <= other);
                assert(magnitude(samples@[j]) <= peak);
            }
        }
    }
    if peak == 0 || peak == 32767 {
        return ;
    }
    let len: usize = samples.len();
    let mut i: usize = 0;
    while i < len
        invariant
            len == samples@.len(),
            len == old(samples)@.len(),
            i <= len,
            1 <= peak <= 32768,
            forall|k: int| 0 <= k < len ==> magnitude(#[trigger] old(samples)@[k]) <= peak,
            forall|k: int| 0 <= k < i ==> (#[trigger] samples@[k]) == scaled(old(samples)@[k], peak as int),
            forall|k: int| i <= k < len ==> samples@[k] == old(samples)@[k],
        decreases len - i,
    {
        let s: i32 = samples[i] as i32;
        let m: u32 = if s < 0 {
            (-s) as u32
        } else {
            s as u32
        };
        assert(m == magnitude(old(samples)@[i as int]));
        assert(m * 32767 / (peak as int) <= 32767) by (nonlinear_arith)
            requires
                0 <= m <= peak,
                peak >= 1,
        ;
        let q: u32 = m * 32767 / (peak as u32);
        let out: i16 = if s < 0 {
            (-(q as i32)) as i16
        } else {
            q as i16
        };
        samples.set(i, out);
        i = i + 1;
    }
}

/// Shape of the mel-spectrogram features of one model family.
///
/// Frequencies are whole hertz; an `fmax` of 0 stands for half the sample rate.
#[derive(Debug, Clone, Copy, PartialEq, Eq)]
pub struct MelConfig {
    pub sample_rate: u32,
    pub n_fft: usize,
    pub hop_length: usize,
    pub win_length: usize,
    pub n_mels: usize,
    pub fmin: u32,
    pub fmax: u32,
    pub log_scale: bool,
    pub normalize_per_feature: bool,
}

/// `n` is 1, 2, 4, 8, ...
pub open spec fn is_power_of_two(n: int) -> bool
    decreases n,
{
    n == 1 || (n >= 2 && n % 2 == 0 && is_power_of_two(n / 2))
}

impl MelConfig {
    /// The transform size is a power of two, the window fits in it, and
    /// frames advance.
    pub open spec fn wf(&self) -> bool {
        &&& is_power_of_two(self.n_fft as int)
        &&& 1 <= self.win_length <= self.n_fft
        &&& self.hop_length >= 1
    }

    /// The highest frequency of the filterbank, in hertz.
    pub open spec fn upper_frequency(&self) -> int {
        if self.fmax == 0 {
            self.sample_rate as int / 2
        } else {
            self.fmax as int
        }
    }

    /// Whether the configuration is well formed.
    pub fn is_valid(&self) -> (ok: bool)
        ensures
            ok == self.wf(),
    {
        if self.hop_length < 1 || self.win_length < 1 || self.win_length > self.n_fft {
            return false;
        }
        let mut n: usize = self.n_fft;
        while n >= 2 && n % 2 == 0
            invariant
                n >= 1,
                is_power_of_two(n as int) == is_power_of_two(self.n_fft as int),
            decreases n,
        {
            n = n / 2;
        }
        n == 1
    }

    /// The highest frequency of the filterbank: `fmax`, or half the sample
    /// rate when `fmax` is 0.
    pub fn effective_fmax(&self) -> (hz: u32)
        ensures
            hz == self.upper_frequency(),
    {
        if self.fmax == 0 {
            self.sample_rate / 2
        } else {
            self.fmax
        }
    }
}

impl Default for MelConfig {
    /// 16 kHz audio, 512-point transform, 10 ms hop, 25 ms window, 80 mel
    /// bands over the full band, log-scaled and normalised per band.
    fn default() -> (config: Self)
        ensures
            config == (MelConfig {
                sample_rate: 16000,
                n_fft: 512,
                hop_length: 160,
                win_length: 400,
                n_mels: 80,
                fmin: 0,
                fmax: 0,
                log_scale: true,
                normalize_per_feature: true,
            }),
    {
        MelConfig {
            sample_rate: 16000,
            n_fft: 512,
            hop_length: 160,
            win_length: 400,
            n_mels: 80,
            fmin: 0,
            fmax: 0,
            log_scale: true,
            normalize_per_feature: true,
        }
    }
}

/// Length of a signal of `num_samples` after reflect-padding by half a
/// transform on each side. An empty signal is not padded.
pub open spec fn padded_len(num_samples: int, n_fft: int) -> int {
    if num_samples <= 0 {
        0
    } else {
        num_samples + 2 * (n_fft / 2)
    }
}

/// Number of frames of `n_fft` samples, `hop` apart, that fit in `padded`
/// samples; nothing fits in no samples.
pub open spec fn frame_count(padded: int, n_fft: int, hop: int) -> int {
    if padded <= 0 || padded < n_fft {
        0
    } else {
        (padded - n_fft) / hop + 1
    }
}

/// Number of spectrogram frames of a signal of `num_samples`: none for an
/// empty signal, and otherwise as many transforms as fit in the padded one.
pub open spec fn mel_frame_count(num_samples: int, config: MelConfig) -> int {
    frame_count(
        padded_len(num_samples, config.n_fft as int),
        config.n_fft as int,
        config.hop_length as int,
    )
}

/// The frame count is the number of whole transforms that the padded
/// signal holds: every frame counted lies within it, and, where there is a
/// signal at all, one more would not.
pub proof fn lemma_frame_count_fits(num_samples: int, config: MelConfig)
    requires
        num_samples >= 0,
        config.hop_length >= 1,
    ensures
        mel_frame_count(num_samples, config) >= 0,
        num_samples == 0 ==> mel_frame_count(num_samples, config) == 0,
        num_samples > 0 ==> mel_frame_count(num_samples, config) >= 1,
        forall|f: int|
            0 <= f < mel_frame_count(num_samples, config) ==> #[trigger] (f * config.hop_length)
                + config.n_fft <= padded_len(num_samples, config.n_fft as int),
        num_samples > 0 ==> mel_frame_count(num_samples, config) * config.hop_length
            + config.n_fft > padded_len(num_samples, config.n_fft as int),
{
    let hop = config.hop_length as int;
    let n_fft = config.n_fft as int;
    let padded = padded_len(num_samples, n_fft);
    let count = mel_frame_count(num_samples, config);
    if num_samples > 0 {
        let room = padded - n_fft;
        assert(room >= 0);
        assert(count == room / hop + 1);
        assert((room / hop) * hop <= room < (room / hop + 1) * hop) by (nonlinear_arith)
            requires
                room >= 0,
                hop >= 1,
        ;
        assert(room / hop >= 0) by (nonlinear_arith)
            requires
                room >= 0,
                hop >= 1,
        ;
        assert forall|f: int| 0 <= f < count implies #[trigger] (f * hop) + n_fft <= padded by {
            assert(f * hop <= (room / hop) * hop) by (nonlinear_arith)
                requires
                    0 <= f <= room / hop,
                    hop >= 1,
            ;
        }
    }
}

/// Number of frames that the spectrogram of `num_samples` samples has: none
/// for an empty signal.
pub fn mel_num_frames(num_samples: usize, config: &MelConfig) -> (frames: usize)
    requires
        config.hop_length >= 1,
        num_samples + config.n_fft < usize::MAX,
    ensures
        frames == mel_frame_count(num_samples as int, *config),
        num_samples == 0 ==> frames == 0,
{
    if num_samples == 0 {
        return 0;
    }
    let pad_len: usize = config.n_fft / 2;
    let padded: usize = num_samples + 2 * pad_len;
    (padded - config.n_fft) / config.hop_length + 1
}

/// The sample that position `i` of a reflect-padded signal repeats, for a
/// signal of `n >= 1` samples padded by `pad` on each side. Where the
/// reflection would leave the signal, the nearest end is repeated.
pub open spec fn reflect_index(i: int, n: int, pad: int) -> int {
    if i < pad {
        if pad - i < n {
            pad - i
        } else {
            n - 1
        }
    } else if i < pad + n {
        i - pad
    } else {
        let k = i - pad - n + 1;
        if n > k + 1 {
            n - 1 - k
        } else {
            0
        }
    }
}

/// A signal reflect-padded by `pad` samples on each side; an empty signal
/// stays empty.
pub open spec fn reflect_padded<T>(samples: Seq<T>, pad: int) -> Seq<T> {
    if samples.len() == 0 {
        Seq::empty()
    } else {
        Seq::new(
            (samples.len() + 2 * pad) as nat,
            |i: int| samples[reflect_index(i, samples.len() as int, pad)],
        )
    }
}

/// Pads a signal on both sides with its own mirror image. There is nothing
/// to mirror in an empty signal: it is returned as it is.
pub fn reflect_pad<T: Copy>(samples: &[T], pad_len: usize) -> (padded: Vec<T>)
    requires
        samples@.len() + 2 * pad_len <= usize::MAX,
    ensures
        padded@ == reflect_padded(samples@, pad_len as int),
        padded@.len() == padded_len(samples@.len() as int, 2 * pad_len),
{
    let n: usize = samples.len();
    let mut padded: Vec<T> = Vec::new();
    if n == 0 {
        assert(padded@ =~= reflect_padded(samples@, pad_len as int));
        return padded;
    }
    let total: usize = n + 2 * pad_len;
    let mut i: usize = 0;
    while i < total
        invariant
            n == samples@.len(),
            n >= 1,
            total == n + 2 * pad_len,
            i <= total,
            padded@.len() == i,
            forall|k: int|
                0 <= k < i ==> padded@[k] == samples@[reflect_index(k, n as int, pad_len as int)],
        decreases total - i,
    {
        let idx: usize = if i < pad_len {
            if pad_len - i < n {
                pad_len - i
            } else {
                n - 1
            }
        } else if i - pad_len < n {
            i - pad_len
        } else {
            let k: usize = i - pad_len - n + 1;
            if n > k + 1 {
                n - 1 - k
            } else {
                0
            }
        };
        padded.push(samples[idx]);
        i = i + 1;
    }
    assert(padded@ =~= reflect_padded(samples@, pad_len as int));
    padded
}

/// The frames that the spectrogram of `samples` is computed from: as many
/// as fit in the reflect-padded signal, frame `f` being the `win_length`
/// samples of it that start `f * hop_length` in.
pub open spec fn signal_frames<T>(samples: Seq<T>, config: MelConfig) -> Seq<Seq<T>> {
    let padded = reflect_padded(samples, config.n_fft as int / 2);
    Seq::new(
        frame_count(padded.len() as int, config.n_fft as int, config.hop_length as int) as nat,
        |f: int|
            padded.subrange(
                f * (config.hop_length as int),
                f * (config.hop_length as int) + config.win_length as int,
            ),
    )
}

/// The frame count of a signal is the number of frames that are cut from
/// it: for a signal of any length, the empty one included.
pub proof fn lemma_frame_count_equals_frames<T>(samples: Seq<T>, config: MelConfig)
    requires
        config.hop_length >= 1,
    ensures
        signal_frames(samples, config).len() == mel_frame_count(samples.len() as int, config),
        samples.len() == 0 ==> signal_frames(samples, config).len() == 0,
{
    lemma_frame_count_fits(samples.len() as int, config);
    let padded = reflect_padded(samples, config.n_fft as int / 2);
    assert(padded.len() == padded_len(samples.len() as int, config.n_fft as int));
}

/// Cuts a signal into the overlapping frames of its spectrogram.
///
/// There are exactly `mel_num_frames` of them, and none for an empty signal.
pub fn frame_signal<T: Copy>(samples: &[T], config: &MelConfig) -> (frames: Vec<Vec<T>>)
    requires
        config.wf(),
        samples@.len() + config.n_fft < usize::MAX,
    ensures
        frames@.len() == mel_frame_count(samples@.len() as int, *config),
        frames@.len() == signal_frames(samples@, *config).len(),
        forall|f: int|
            0 <= f < frames@.len() ==> (#[trigger] frames@[f])@ == signal_frames(
                samples@,
                *config,
            )[f],
{
    proof {
        lemma_frame_count_equals_frames(samples@, *config);
    }
    let padded: Vec<T> = reflect_pad(samples, config.n_fft / 2);
    let n_frames: usize = mel_num_frames(samples.len(), config);
    let mut frames: Vec<Vec<T>> = Vec::new();
    let mut f: usize = 0;
    while f < n_frames
        invariant
            config.wf(),
            padded@ == reflect_padded(samples@, config.n_fft as int / 2),
            padded@.len() == padded_len(samples@.len() as int, config.n_fft as int),
            padded@.len() <= usize::MAX,
            n_frames == mel_frame_count(samples@.len() as int, *config),
            n_frames == signal_frames(samples@, *config).len(),
            f <= n_frames,
            frames@.len() == f,
            forall|k: int|
                0 <= k < f ==> (#[trigger] frames@[k])@ == signal_frames(samples@, *config)[k],
        decreases n_frames - f,
    {
        proof {
            lemma_frame_count_fits(samples@.len() as int, *config);
            assert((f * config.hop_length) + config.n_fft <= padded@.len());
        }
        let start: usize = f * config.hop_length;
        let mut frame: Vec<T> = Vec::new();
        let mut i: usize = 0;
        while i < config.win_length
            invariant
                start + config.win_length <= padded@.len(),
                padded@.len() <= usize::MAX,
                i <= config.win_length,
                frame@.len() == i,
                forall|k: int| 0 <= k < i ==> frame@[k] == padded@[start + k],
            decreases config.win_length - i,
        {
            frame.push(padded[start + i]);
            i = i + 1;
        }
        assert(frame@ =~= padded@.subrange(start as int, start + config.win_length));
        frames.push(frame);
        f = f + 1;
    }
    frames
}

/// `2` to the power `bits`.
pub open spec fn pow2(bits: nat) -> int
    decreases bits,
{
    if bits == 0 {
        1
    } else {
        2 * pow2((bits - 1) as nat)
    }
}

/// The number whose `bits` binary digits are those of `i` in reverse order.
pub open spec fn bit_reversed(i: int, bits: nat) -> int
    decreases bits,
{
    if bits == 0 {
        0
    } else {
        (i % 2) * pow2((bits - 1) as nat) + bit_reversed(i / 2, (bits - 1) as nat)
    }
}

/// A number of `bits` digits reversed is a number of `bits` digits.
pub proof fn lemma_bit_reversed_bound(i: int, bits: nat)
    requires
        0 <= i,
    ensures
        0 <= bit_reversed(i, bits) < pow2(bits),
    decreases bits,
{
    if bits > 0 {
        lemma_bit_reversed_bound(i / 2, (bits - 1) as nat);
        lemma_pow2_positive((bits - 1) as nat);
        let p = pow2((bits - 1) as nat);
        let d = i % 2;
        assert(0 <= d * p <= p) by (nonlinear_arith)
            requires
                0 <= d <= 1,
                p >= 1,
        ;
    }
}

/// The number of binary digits of the indices of a transform of `n`
/// points: `n` is 2 to that power.
pub fn transform_bits(n: usize) -> (bits: u32)
    requires
        is_power_of_two(n as int),
    ensures
        pow2(bits as nat) == n,
        bits < usize::BITS,
{
    let mut bits: u32 = 0;
    let mut m: usize = n;
    while m > 1
        invariant
            m >= 1,
            is_power_of_two(m as int),
            m * pow2(bits as nat) == n,
            bits < usize::BITS,
        decreases m,
    {
        proof {
            let p = pow2(bits as nat);
            assert((m / 2) * (2 * p) == m * p) by (nonlinear_arith)
                requires
                    m % 2 == 0,
            ;
            lemma_pow2_positive(bits as nat);
            if bits + 1 >= usize::BITS {
                lemma_pow2_grows(usize::BITS as nat, (bits + 1) as nat);
                lemma_pow2_word();
                assert(pow2((bits + 1) as nat) == 2 * p);
                assert(m * p >= 2 * p) by (nonlinear_arith)
                    requires
                        m >= 2,
                        p >= 1,
                ;
            }
        }
        m = m / 2;
        bits = bits + 1;
    }
    bits
}

/// Powers of two are positive.
pub proof fn lemma_pow2_positive(bits: nat)
    ensures
        pow2(bits) >= 1,
    decreases bits,
{
    if bits > 0 {
        lemma_pow2_positive((bits - 1) as nat);
    }
}

/// A greater power of two is a greater number.
pub proof fn lemma_pow2_grows(a: nat, b: nat)
    requires
        a <= b,
    ensures
        pow2(a) <= pow2(b),
    decreases b,
{
    if a < b {
        lemma_pow2_grows(a, (b - 1) as nat);
        lemma_pow2_positive((b - 1) as nat);
    }
}

/// 2 to the number of bits of a machine word is one past the greatest index.
proof fn lemma_pow2_word()
    ensures
        pow2(usize::BITS as nat) == usize::MAX + 1,
        pow2((usize::BITS - 1) as nat) <= usize::MAX,
{
    reveal_with_fuel(pow2, 65);
    assert(pow2(31) == 0x8000_0000);
    assert(pow2(32) == 0x1_0000_0000);
    assert(pow2(63) == 0x8000_0000_0000_0000);
    assert(pow2(64) == 0x1_0000_0000_0000_0000);
}

/// The index whose `bits` binary digits are those of `i` in reverse order.
pub fn reverse_bits(i: usize, bits: u32) -> (r: usize)
    requires
        bits < usize::BITS,
    ensures
        r == bit_reversed(i as int, bits as nat),
        r < pow2(bits as nat),
{
    let mut r: usize = 0;
    let mut rest: usize = i;
    let mut k: u32 = 0;
    proof {
        lemma_pow2_word();
        lemma_pow2_grows(bits as nat, (usize::BITS - 1) as nat);
    }
    while k < bits
        invariant
            k <= bits,
            bits < usize::BITS,
            pow2(bits as nat) <= usize::MAX,
            0 <= r < pow2(k as nat),
            bit_reversed(i as int, bits as nat) == r * pow2((bits - k) as nat) + bit_reversed(
                rest as int,
                (bits - k) as nat,
            ),
        decreases bits - k,
    {
        proof {
            let left = (bits - k) as nat;
            let p = pow2((left - 1) as nat);
            lemma_pow2_grows((k + 1) as nat, bits as nat);
            assert(pow2((k + 1) as nat) == 2 * pow2(k as nat));
            assert((2 * r + rest % 2) * p == r * (2 * p) + (rest % 2) * p) by (nonlinear_arith);
        }
        r = 2 * r + rest % 2;
        rest = rest / 2;
        k = k + 1;
    }
    proof {
        assert(r * pow2(0) == r) by (nonlinear_arith)
            requires
                pow2(0) == 1,
        ;
    }
    r
}

/// The complex points of `buf`, re and im interleaved, in the order of
/// their bit-reversed indices: what the butterflies of a radix-2 transform
/// of `n` points start from.
pub open spec fn bit_reversed_order<T>(buf: Seq<T>, n: int, bits: nat) -> Seq<T> {
    Seq::new(
        (2 * n) as nat,
        |k: int| buf[2 * bit_reversed(k / 2, bits) + k % 2],
    )
}

/// Puts the `n` complex points of a transform into bit-reversed order.
pub fn bit_reverse_permute<T: Copy>(buf: &[T], n: usize) -> (out: Vec<T>)
    requires
        is_power_of_two(n as int),
        buf@.len() == 2 * n,
    ensures
        exists|bits: nat| pow2(bits) == n && out@ == #[trigger] bit_reversed_order(
            buf@,
            n as int,
            bits,
        ),
        out@.len() == buf@.len(),
{
    let bits: u32 = transform_bits(n);
    let len: usize = buf.len();
    let mut out: Vec<T> = Vec::new();
    let mut i: usize = 0;
    while i < n
        invariant
            i <= n,
            buf@.len() == 2 * n,
            2 * n <= usize::MAX,
            bits < usize::BITS,
            pow2(bits as nat) == n,
            out@.len() == 2 * i,
            forall|k: int|
                0 <= k < out@.len() ==> (#[trigger] out@[k]) == buf@[2 * bit_reversed(
                    k / 2,
                    bits as nat,
                ) + k % 2],
        decreases n - i,
    {
        let j: usize = reverse_bits(i, bits);
        out.push(buf[2 * j]);
        out.push(buf[2 * j + 1]);
        i = i + 1;
    }
    assert(out@ =~= bit_reversed_order(buf@, n as int, bits as nat));
    out
}

} // verus!
