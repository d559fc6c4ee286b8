use vstd::prelude::*;

verus! {

/// A source of 16-bit audio samples.
pub trait Waveform: Sized {
    /// The generator's parameters allow it to run.
    spec fn ready(&self) -> bool;

    /// The `i`th sample that the generator produces from this state.
    spec fn sample_at(&self, i: int) -> u16;

    /// The generator's state after it has produced `n` samples.
    spec fn advanced(&self, n: int) -> Self;

    /// Produce the next samples and write them out to `out_samples`.
    fn next_samples(&mut self, out_samples: &mut [u16])
        requires
            old(self).ready(),
        ensures
            final(self).ready(),
            final(out_samples)@.len() == old(out_samples)@.len(),
            forall|i: int|
                0 <= i < old(out_samples)@.len() ==> #[trigger] final(out_samples)@[i] == old(self).sample_at(i),
            *final(self) == old(self).advanced(old(out_samples)@.len() as int);
}

/// A rising ramp that drops back to zero once per wave.
#[derive(Clone, Copy, Debug, PartialEq, Eq, Structural)]
pub struct SawtoothWaveform {
    /// Counter
    pub t: u32,
    /// Samples per second
    pub sample_freq: u32,
    /// Waveforms per second
    pub wave_freq: u32,
}

/// Samples in one wave.
pub open spec fn wave_width(sample_freq: u32, wave_freq: u32) -> int {
    (sample_freq as int) / (wave_freq as int)
}

/// How much the sawtooth's counter grows per sample.
pub open spec fn saw_step(w: SawtoothWaveform) -> int {
    0xffffint / wave_width(w.sample_freq, w.wave_freq)
}

/// The sawtooth's counter after `i` samples from `t`, wrapping at 2^32.
pub open spec fn saw_counter(t: int, step: int, i: int) -> int {
    (t + i * step) % 0x1_0000_0000
}

impl SawtoothWaveform {
    pub open spec fn spec_ready(self) -> bool {
        self.wave_freq > 0 && self.sample_freq >= self.wave_freq
    }

    pub fn new(sample_freq: u32, wave_freq: u32) -> (r: SawtoothWaveform)
        ensures
            r == (SawtoothWaveform { t: 0, sample_freq, wave_freq }),
    {
        SawtoothWaveform { t: 0, sample_freq, wave_freq }
    }

    /// Writes the next samples: sample `i` is the low 16 bits of the counter,
    /// which grows by `0xffff / (sample_freq / wave_freq)` per sample.
    fn fill(&mut self, out_samples: &mut [u16])
        requires
            old(self).spec_ready(),
        ensures
            final(out_samples)@.len() == old(out_samples)@.len(),
            forall|i: int|
                0 <= i < old(out_samples)@.len() ==> #[trigger] final(out_samples)@[i] as int == saw_counter(
                    old(self).t as int,
                    saw_step(*old(self)),
                    i,
                ) % 0x10000,
            final(self).t == saw_counter(old(self).t as int, saw_step(*old(self)), old(out_samples)@.len() as int),
            final(self).sample_freq == old(self).sample_freq,
            final(self).wave_freq == old(self).wave_freq,
    {
        let width = self.sample_freq / self.wave_freq;
        assert(width >= 1) by (nonlinear_arith)
            requires
                width == self.sample_freq / self.wave_freq,
                self.sample_freq >= self.wave_freq > 0,
        ;
        let step = 0xffffu32 / width;
        let ghost t0 = self.t as int;
        let n = out_samples.len();
        let mut i: usize = 0;
        while i < n
            invariant
                n == out_samples@.len(),
                n == old(out_samples)@.len(),
                i <= n,
                step == saw_step(*old(self)),
                self.sample_freq == old(self).sample_freq,
                self.wave_freq == old(self).wave_freq,
                self.t == saw_counter(t0, step as int, i as int),
                t0 == old(self).t,
                forall|k: int| 0 <= k < i ==> #[trigger] out_samples@[k] as int == saw_counter(t0, step as int, k) % 0x10000,
            decreases n - i,
        {
            let t = self.t;
            let sample = t as u16;
            assert(sample == t % 0x10000) by (bit_vector)
                requires
                    sample == t as u16,
            ;
            out_samples[i] = sample;
            proof {
                assert(saw_counter(t0, step as int, i + 1) == (self.t + step) % 0x1_0000_0000) by (nonlinear_arith)
                    requires
                        self.t == (t0 + i * step) % 0x1_0000_0000,
                ;
            }
            self.t = self.t.wrapping_add(step);
            i += 1;
        }
    }
}

impl Waveform for SawtoothWaveform {
    open spec fn ready(&self) -> bool {
        self.spec_ready()
    }

    /// The low 16 bits of the counter after `i` steps.
    open spec fn sample_at(&self, i: int) -> u16 {
        (saw_counter(self.t as int, saw_step(*self), i) % 0x10000) as u16
    }

    /// The counter moved on by `n` steps.
    open spec fn advanced(&self, n: int) -> SawtoothWaveform {
        SawtoothWaveform { t: saw_counter(self.t as int, saw_step(*self), n) as u32, ..*self }
    }

    fn next_samples(&mut self, out_samples: &mut [u16]) {
        self.fill(out_samples);
    }
}

/// A square wave: silent for the first `duty` thousandths of each wave, then high.
#[derive(Clone, Copy, Debug, PartialEq, Eq, Structural)]
pub struct SquareWaveform {
    /// Counter
    pub t: u32,
    /// Samples per second
    pub sample_freq: u32,
    /// Waveforms per second
    pub wave_freq: u32,
    /// The silent part of each wave, in thousandths (at most 1000).
    pub duty: u32,
}

/// The high level of the square wave.
pub const SQUARE_HIGH: u16 = 32767;

/// The square wave's sample at counter value `t`.
pub open spec fn square_sample(w: SquareWaveform, t: int) -> u16 {
    let width = wave_width(w.sample_freq, w.wave_freq);
    if t % width < (w.duty as int * width) / 1000 {
        0
    } else {
        SQUARE_HIGH
    }
}

impl SquareWaveform {
    pub open spec fn spec_ready(self) -> bool {
        self.wave_freq > 0 && self.sample_freq >= self.wave_freq && self.duty <= 1000
    }

    /// A square wave, silent for the first half of each wave.
    pub fn new(sample_freq: u32, wave_freq: u32) -> (r: SquareWaveform)
        ensures
            r == (SquareWaveform { t: 0, sample_freq, wave_freq, duty: 500 }),
    {
        SquareWaveform { t: 0, sample_freq, wave_freq, duty: 500 }
    }

    /// Writes the next samples: sample `i` is low while the counter, which
    /// grows by one per sample, lies in the first `duty` thousandths of a wave.
    fn fill(&mut self, out_samples: &mut [u16])
        requires
            old(self).spec_ready(),
        ensures
            final(out_samples)@.len() == old(out_samples)@.len(),
            forall|i: int|
                0 <= i < old(out_samples)@.len() ==> #[trigger] final(out_samples)@[i] == square_sample(
                    *old(self),
                    (old(self).t + i) % 0x1_0000_0000,
                ),
            final(self).t == (old(self).t + old(out_samples)@.len()) % 0x1_0000_0000,
            final(self).sample_freq == old(self).sample_freq,
            final(self).wave_freq == old(self).wave_freq,
            final(self).duty == old(self).duty,
    {
        let width = self.sample_freq / self.wave_freq;
        assert(width >= 1) by (nonlinear_arith)
            requires
                width == self.sample_freq / self.wave_freq,
                self.sample_freq >= self.wave_freq > 0,
        ;
        assert(self.duty as int * width <= 1000 * 0xffff_ffff) by (nonlinear_arith)
            requires
                self.duty <= 1000,
                0 <= width <= 0xffff_ffff,
        ;
        let threshold = ((self.duty as u64) * (width as u64) / 1000) as u32;
        assert(threshold == (self.duty as int * width) / 1000);
        let ghost t0 = self.t as int;
        let n = out_samples.len();
        let mut i: usize = 0;
        while i < n
            invariant
                n == out_samples@.len(),
                n == old(out_samples)@.len(),
                i <= n,
                width == wave_width(old(self).sample_freq, old(self).wave_freq),
                width > 0,
                threshold == (old(self).duty as int * width) / 1000,
                self.sample_freq == old(self).sample_freq,
                self.wave_freq == old(self).wave_freq,
                self.duty == old(self).duty,
                self.t == (t0 + i) % 0x1_0000_0000,
                t0 == old(self).t,
                forall|k: int| 0 <= k < i ==> #[trigger] out_samples@[k] == square_sample(*old(self), (t0 + k) % 0x1_0000_0000),
            decreases n - i,
        {
            let t = self.t % width;
            if t < threshold {
                out_samples[i] = 0;
            } else {
                out_samples[i] = SQUARE_HIGH;
            }
            self.t = self.t.wrapping_add(1);
            i += 1;
        }
    }
}

impl Waveform for SquareWaveform {
    open spec fn ready(&self) -> bool {
        self.spec_ready()
    }

    /// The square wave at the counter moved on by `i`.
    open spec fn sample_at(&self, i: int) -> u16 {
        square_sample(*self, (self.t + i) % 0x1_0000_0000)
    }

    /// The counter moved on by `n`.
    open spec fn advanced(&self, n: int) -> SquareWaveform {
        SquareWaveform { t: ((self.t + n) % 0x1_0000_0000) as u32, ..*self }
    }

    fn next_samples(&mut self, out_samples: &mut [u16]) {
        self.fill(out_samples);
    }
}

} // verus!
