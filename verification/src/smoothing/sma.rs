//! The sliding window of the simple moving average.
//!
//! The average keeps a running sum of the samples under its window. This
//! module tracks which samples those are: when a full window is averaged and
//! emitted, and which samples leave the sum as the window slides on.

use vstd::prelude::*;
use vstd::arithmetic::div_mod::lemma_fundamental_div_mod_converse;

verus! {

/// The window as a mathematical state.
pub struct WindowState {
    /// Length of a full window.
    pub range: nat,
    /// Distance between the starts of two successive windows.
    pub slide: nat,
    /// Position of the oldest sample in the running sum.
    pub start: nat,
    /// Number of samples taken in so far; the running sum holds the samples
    /// at `start..end`.
    pub end: nat,
    /// Number of averages emitted so far.
    pub emitted: nat,
}

impl WindowState {
    /// The window in front of the first sample.
    pub open spec fn empty(range: nat, slide: nat) -> WindowState {
        WindowState { range, slide, start: 0, end: 0, emitted: 0 }
    }

    /// Number of samples in the running sum.
    pub open spec fn count(self) -> nat {
        (self.end - self.start) as nat
    }

    /// The running sum holds a whole window.
    pub open spec fn full(self) -> bool {
        self.count() >= self.range
    }

    /// The window after the next sample has arrived. A full window is emitted
    /// first and loses its `slide` oldest samples; then the sample joins.
    pub open spec fn step(self) -> WindowState {
        if self.full() {
            WindowState {
                start: self.start + self.slide,
                end: self.end + 1,
                emitted: self.emitted + 1,
                ..self
            }
        } else {
            WindowState { end: self.end + 1, ..self }
        }
    }

    /// The window after `n` more samples have arrived.
    pub open spec fn after(self, n: nat) -> WindowState
        decreases n,
    {
        if n == 0 {
            self
        } else {
            self.after((n - 1) as nat).step()
        }
    }

    /// The signal ends here: whether the samples left in the running sum are
    /// exactly one window, which is then averaged and emitted as the last
    /// output.
    pub open spec fn closes_full(self) -> bool {
        self.count() == self.range
    }

    /// Number of averages once the signal has ended.
    pub open spec fn outputs(self) -> nat {
        if self.closes_full() {
            self.emitted + 1
        } else {
            self.emitted
        }
    }

    /// What holds of a window that started empty, whatever has arrived.
    ///
    /// A window slides by no more than its length, so that the samples that
    /// leave have arrived. Every window starts a whole number of slides into
    /// the signal. With a slide of at least one sample the running sum never
    /// holds more than a window, and once it has been full it stays within
    /// one slide of full.
    pub open spec fn valid(self) -> bool {
        &&& self.slide <= self.range
        &&& self.start <= self.end
        &&& self.emitted <= self.end
        &&& self.start == self.emitted * self.slide
        &&& self.end <= self.range ==> self.emitted == 0 && self.start == 0
        &&& self.slide == 0 ==> self.start == 0
        &&& self.end > self.range && self.slide >= 1 ==> self.range + 1 <= self.count()
            + self.slide && self.count() <= self.range
        &&& self.end > self.range && self.slide == 0 ==> self.emitted == self.end - self.range
    }
}

/// What the arrival of one sample does to the running sum.
#[derive(Clone, Copy, Debug, PartialEq, Eq)]
pub struct Step {
    /// `Some(count)` where the window was full: the running sum, which holds
    /// `count` samples, is averaged and emitted before anything else happens.
    pub emit: Option<usize>,
    /// After an emission the samples at `evict_from..evict_to` leave the
    /// running sum. Empty where nothing was emitted.
    pub evict_from: usize,
    pub evict_to: usize,
}

/// A window of `range` samples that moves over a signal `slide` samples at a
/// time. It tracks which samples the running sum holds, not their values.
pub struct SlidingWindow {
    range: usize,
    slide: usize,
    start: usize,
    end: usize,
    emitted: usize,
}

impl View for SlidingWindow {
    type V = WindowState;

    closed spec fn view(&self) -> WindowState {
        WindowState {
            range: self.range as nat,
            slide: self.slide as nat,
            start: self.start as nat,
            end: self.end as nat,
            emitted: self.emitted as nat,
        }
    }
}

impl SlidingWindow {
    /// An empty window in front of the first sample.
    ///
    /// A window cannot slide further than its own length: the samples that
    /// leave must have arrived.
    pub fn new(range: usize, slide: usize) -> (w: Self)
        requires
            slide <= range,
        ensures
            w@ == WindowState::empty(range as nat, slide as nat),
            w@.valid(),
    {
        assert(0 == 0 * slide) by (nonlinear_arith);
        SlidingWindow { range, slide, start: 0, end: 0, emitted: 0 }
    }

    /// Takes in the next sample of the signal.
    pub fn step(&mut self) -> (a: Step)
        requires
            old(self)@.valid(),
            old(self)@.end < usize::MAX,
        ensures
            final(self)@ == old(self)@.step(),
            final(self)@.valid(),
            a.emit == (if old(self)@.full() {
                Some(old(self)@.count() as usize)
            } else {
                None
            }),
            a.evict_from == old(self)@.start,
            a.evict_to == final(self)@.start,
    {
        proof {
            lemma_step_valid(self@);
        }
        let count = self.end - self.start;
        let evict_from = self.start;
        let mut emit: Option<usize> = None;
        if count >= self.range {
            emit = Some(count);
            self.start = self.start + self.slide;
            self.emitted = self.emitted + 1;
        }
        self.end = self.end + 1;
        Step { emit, evict_from, evict_to: self.start }
    }

    /// Closes the signal: `Some(count)` where the samples left in the running
    /// sum are exactly one window, which is then averaged and emitted as the
    /// last output.
    pub fn finish(&self) -> (last: Option<usize>)
        requires
            self@.valid(),
        ensures
            last == (if self@.closes_full() {
                Some(self@.range as usize)
            } else {
                None
            }),
    {
        let count = self.end - self.start;
        if count == self.range {
            Some(count)
        } else {
            None
        }
    }
}

/// The arrival of a sample leaves the window in order.
pub proof fn lemma_step_valid(w: WindowState)
    requires
        w.valid(),
    ensures
        w.step().valid(),
{
    assert((w.emitted + 1) * w.slide == w.emitted * w.slide + w.slide) by (nonlinear_arith);
}

/// A window that started empty is in order after any number of samples, and
/// has taken in just those.
pub proof fn lemma_after_valid(range: nat, slide: nat, n: nat)
    requires
        slide <= range,
    ensures
        WindowState::empty(range, slide).after(n).valid(),
        WindowState::empty(range, slide).after(n).end == n,
        WindowState::empty(range, slide).after(n).range == range,
        WindowState::empty(range, slide).after(n).slide == slide,
    decreases n,
{
    if n == 0 {
        assert(0 == 0 * slide) by (nonlinear_arith);
    } else {
        lemma_after_valid(range, slide, (n - 1) as nat);
        lemma_step_valid(WindowState::empty(range, slide).after((n - 1) as nat));
    }
}

/// With a slide of at least one sample, the window that is emitted as output
/// `k` holds the `range` samples from position `k * slide` on.
pub proof fn lemma_emitted_window(w: WindowState)
    requires
        w.valid(),
        w.slide >= 1,
        w.full() || w.closes_full(),
    ensures
        w.start == w.emitted * w.slide,
        w.end == w.start + w.range,
{
}

/// A signal of `n` samples that is shorter than the window yields nothing;
/// any other yields `(n - range) / slide + 1` averages.
pub proof fn lemma_output_count(range: nat, slide: nat, n: nat)
    requires
        1 <= slide <= range,
    ensures
        WindowState::empty(range, slide).after(n).outputs() == (if n < range {
            0
        } else {
            (n - range) / (slide as int) + 1
        }),
{
    let w = WindowState::empty(range, slide).after(n);
    lemma_after_valid(range, slide, n);
    let e = w.emitted as int;
    let c = w.count() as int;
    if n == range {
        assert(0 == 0 * slide) by (nonlinear_arith);
        lemma_fundamental_div_mod_converse(0, slide as int, 0, 0);
    } else if n > range {
        if c == range {
            lemma_fundamental_div_mod_converse(n - range, slide as int, e, 0);
        } else {
            assert(e >= 1) by (nonlinear_arith)
                requires
                    n == e * slide + c,
                    c < n,
                    e >= 0,
                    slide >= 1,
            ;
            assert((e - 1) * slide == e * slide - slide) by (nonlinear_arith);
            lemma_fundamental_div_mod_converse(
                n - range,
                slide as int,
                e - 1,
                slide - (range - c),
            );
        }
    }
}

/// A window of one sample that slides by one sample emits every sample by
/// itself: the moving average of window 1 returns the signal.
pub proof fn lemma_window_of_one(n: nat)
    ensures
        WindowState::empty(1, 1).after(n).outputs() == n,
{
    lemma_output_count(1, 1, n);
}

} // verus!
