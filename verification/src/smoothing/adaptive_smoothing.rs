//! The search for the window of the moving average.
//!
//! The search proposes one window size at a time. Whoever drives it smooths
//! the signal with that window, measures the result and reports back; the
//! search decides what to try next and which window wins.

use vstd::prelude::*;
use vstd::arithmetic::div_mod::{lemma_fundamental_div_mod, lemma_fundamental_div_mod_converse};
use crate::statistics::rank::Rank;

verus! {

/// The window of the averaging that shortens a long signal before the
/// search: `len / resolution` where the signal has at least `2 * resolution`
/// samples, none where it is shorter.
pub fn reduction_window(len: usize, resolution: usize) -> (window: Option<usize>)
    requires
        resolution >= 1,
    ensures
        window == (if len >= 2 * resolution {
            Some(len / resolution)
        } else {
            None
        }),
{
    if len / 2 >= resolution {
        Some(len / resolution)
    } else {
        None
    }
}

/// The averaging that shortens a long signal takes `len / window` averages
/// of `window` samples each, window after window without overlap, and leaves
/// at least `resolution` and fewer than `2 * resolution` of them.
pub proof fn lemma_reduced_length(len: nat, resolution: nat)
    requires
        resolution >= 1,
        len >= 2 * resolution,
    ensures
        len / resolution >= 2,
        (len - len / resolution) / (len / resolution) as int + 1 == len / (len / resolution),
        resolution <= len / (len / resolution) < 2 * resolution,
{
    let w = (len / resolution) as int;
    let n = len as int;
    let res = resolution as int;
    lemma_fundamental_div_mod(n, res);
    assert(w >= 2) by (nonlinear_arith)
        requires
            n == res * w + n % res,
            n % res < res,
            n >= 2 * res,
            res >= 1,
    ;
    let q = n / w;
    lemma_fundamental_div_mod(n, w);
    assert(q >= 1) by (nonlinear_arith)
        requires
            n == w * q + n % w,
            n % w < w,
            n >= w,
            w >= 2,
    ;
    assert(w * (q - 1) == w * q - w) by (nonlinear_arith);
    assert((q - 1) * w == w * (q - 1)) by (nonlinear_arith);
    lemma_fundamental_div_mod_converse(n - w, w, q - 1, n % w);
    assert(res <= q) by (nonlinear_arith)
        requires
            n == w * q + n % w,
            n % w < w,
            n == res * w + n % res,
            0 <= n % res,
            w >= 2,
            q >= 1,
    ;
    assert(q < 2 * res) by (nonlinear_arith)
        requires
            n == w * q + n % w,
            0 <= n % w,
            n == res * w + n % res,
            n % res < res,
            w >= 2,
            res >= 1,
    ;
}

/// One more than the largest lag that is examined in a signal of `len`
/// samples, and the largest window that the bisection tries unless a peak
/// says otherwise: a tenth of the length, but at least 1.
pub open spec fn lag_limit_of(len: nat) -> nat {
    if len / 10 >= 1 {
        len / 10
    } else {
        1
    }
}

/// Computes `lag_limit_of`.
pub fn lag_limit(len: usize) -> (limit: usize)
    ensures
        limit == lag_limit_of(len as nat),
{
    if len / 10 >= 1 {
        len / 10
    } else {
        1
    }
}

/// The stages of the search.
#[derive(Clone, Copy, Debug, PartialEq, Eq)]
pub enum Phase {
    /// Walking the autocorrelation peaks from the largest lag down.
    Peaks,
    /// Bisecting the window sizes between the lower bound and the tail.
    Bisection,
    /// A window has been settled on.
    Done,
}

/// What the search asks for next.
#[derive(Clone, Copy, Debug, PartialEq, Eq)]
pub enum Probe {
    /// Judge the peak at `lag` against the window in hand, `window_size`:
    /// report it as redundant, or smooth with it and report the measures.
    Peak { lag: usize, window_size: usize },
    /// Smooth with a window of `size` samples and report the measures.
    Window { size: usize },
    /// Nothing: `window_size` is the answer.
    Settled { window_size: usize },
}

/// What is reported back on a probe.
#[derive(Clone, Copy, Debug, PartialEq, Eq)]
pub enum Finding {
    /// The peak's correlation falls off no slower, lag for lag, than that of
    /// the window in hand, so the peak is passed over unmeasured.
    Redundant,
    /// Kurtosis and roughness of the signal smoothed with the probed window,
    /// and the lower bound on further windows that the correlation at the
    /// probed lag implies. The bound plays no part in the bisection.
    Measured { kurtosis: Rank, roughness: Rank, bound: usize },
}

/// The search as a mathematical state.
pub struct SearchState {
    /// The candidate lags, in the order in which they were found.
    pub peaks: Seq<usize>,
    pub phase: Phase,
    /// How many peaks, counted from the last, have been dealt with.
    pub walked: nat,
    /// Kurtosis of the unsmoothed signal, which no accepted window may undercut.
    pub original_kurtosis: Rank,
    /// Roughness reached by the window in hand.
    pub min_obj: Rank,
    /// The window in hand.
    pub window_size: nat,
    /// No window below this is tried any more.
    pub lb: nat,
    /// The first peak of the walk that kept the kurtosis, by its count from
    /// the last peak.
    pub largest_feasible: Option<nat>,
    /// Bounds of the bisection.
    pub head: nat,
    pub tail: nat,
}

impl SearchState {
    /// The search over `peaks` in a signal of `len` samples, before anything
    /// has been looked at: the window in hand is 1.
    pub open spec fn initial(
        len: nat,
        peaks: Seq<usize>,
        original_kurtosis: Rank,
        roughness: Rank,
    ) -> SearchState {
        SearchState {
            peaks,
            phase: Phase::Peaks,
            walked: 0,
            original_kurtosis,
            min_obj: roughness,
            window_size: 1,
            lb: 1,
            largest_feasible: None,
            head: 1,
            tail: lag_limit_of(len),
        }
    }

    /// The peak that is reached after `walked` others; the walk runs from
    /// the last peak to the first.
    pub open spec fn peak_at(self, walked: nat) -> nat {
        self.peaks[self.peaks.len() - 1 - walked] as nat
    }

    /// The walk over the peaks is over: none is left, or the next one lies
    /// below the lower bound or is 1.
    pub open spec fn walk_stops(self) -> bool {
        ||| self.walked >= self.peaks.len()
        ||| self.peak_at(self.walked) < self.lb
        ||| self.peak_at(self.walked) == 1
    }

    /// The window size in the middle of the bisection's bounds.
    pub open spec fn midpoint(self) -> nat {
        (self.head + self.tail) / 2
    }

    /// The window size that the search wants measured next; once it is done,
    /// the window it settled on.
    pub open spec fn candidate(self) -> nat {
        match self.phase {
            Phase::Peaks => self.peak_at(self.walked),
            Phase::Bisection => self.midpoint(),
            Phase::Done => self.window_size,
        }
    }

    /// Where the walk found a peak that kept the kurtosis, the bisection
    /// starts one past the first such peak at the earliest, and ends at the
    /// peak that followed it in the walk; where no peak followed, and where
    /// none kept the kurtosis, the tail stays as it was.
    pub open spec fn bisect(self) -> SearchState {
        match self.largest_feasible {
            Some(f) => {
                let lb = if self.lb >= self.peak_at(f) + 1 {
                    self.lb
                } else {
                    self.peak_at(f) + 1
                };
                let tail = if f + 1 < self.peaks.len() {
                    self.peak_at(f + 1)
                } else {
                    self.tail
                };
                SearchState { phase: Phase::Bisection, lb, head: lb, tail, ..self }
            },
            None => SearchState { phase: Phase::Bisection, head: self.lb, ..self },
        }
    }

    /// The bisection ends when its bounds have crossed.
    pub open spec fn close(self) -> SearchState {
        if self.phase == Phase::Bisection && self.head > self.tail {
            SearchState { phase: Phase::Done, ..self }
        } else {
            self
        }
    }

    /// Moves on to the next stage where the current one has nothing left.
    pub open spec fn settle(self) -> SearchState {
        if self.phase == Phase::Peaks && self.walk_stops() {
            self.bisect().close()
        } else {
            self.close()
        }
    }

    /// The search at its first probe.
    pub open spec fn start(
        len: nat,
        peaks: Seq<usize>,
        original_kurtosis: Rank,
        roughness: Rank,
    ) -> SearchState {
        Self::initial(len, peaks, original_kurtosis, roughness).settle()
    }

    /// Takes window `w` in hand if it is smoother than the one in hand.
    pub open spec fn accept(self, w: nat, roughness: Rank) -> SearchState {
        if self.min_obj.above(roughness) {
            SearchState { window_size: w, min_obj: roughness, ..self }
        } else {
            self
        }
    }

    /// The search after a peak has been measured.
    ///
    /// A peak that keeps the kurtosis is taken in hand if it is smoother,
    /// raises the lower bound to `bound`, and is remembered if it is the
    /// first such peak. A peak that loses kurtosis changes nothing.
    pub open spec fn judge_peak(self, kurtosis: Rank, roughness: Rank, bound: nat) -> SearchState {
        if kurtosis.not_below(self.original_kurtosis) {
            let taken = self.accept(self.peak_at(self.walked), roughness);
            SearchState {
                lb: if bound > taken.lb {
                    bound
                } else {
                    taken.lb
                },
                largest_feasible: if taken.largest_feasible is None {
                    Some(self.walked)
                } else {
                    taken.largest_feasible
                },
                ..taken
            }
        } else {
            self
        }
    }

    /// The search after the midpoint has been measured.
    ///
    /// A window that keeps the kurtosis is taken in hand if it is smoother,
    /// and the search goes on among the larger windows; otherwise it goes on
    /// among the smaller ones.
    pub open spec fn judge_window(self, kurtosis: Rank, roughness: Rank) -> SearchState {
        let w = self.midpoint();
        if kurtosis.not_below(self.original_kurtosis) {
            SearchState { head: w + 1, ..self.accept(w, roughness) }
        } else {
            SearchState {
                tail: if w >= 1 {
                    (w - 1) as nat
                } else {
                    0
                },
                ..self
            }
        }
    }

    /// The finding is an answer to the probe that is open.
    pub open spec fn answers(self, finding: Finding) -> bool {
        match self.phase {
            Phase::Peaks => true,
            Phase::Bisection => finding is Measured,
            Phase::Done => false,
        }
    }

    /// The search after `finding` has been reported on its open probe. A
    /// finding that does not answer the probe changes nothing.
    pub open spec fn advance(self, finding: Finding) -> SearchState {
        match (self.phase, finding) {
            (Phase::Peaks, Finding::Redundant) => (SearchState {
                walked: self.walked + 1,
                ..self
            }).settle(),
            (Phase::Peaks, Finding::Measured { kurtosis, roughness, bound }) => {
                let judged = self.judge_peak(kurtosis, roughness, bound as nat);
                (SearchState { walked: self.walked + 1, ..judged }).settle()
            },
            (Phase::Bisection, Finding::Measured { kurtosis, roughness, bound }) => self.judge_window(
                kurtosis,
                roughness,
            ).settle(),
            _ => self,
        }
    }

    /// The search after a series of findings, each reported on the probe
    /// that the one before it had opened.
    pub open spec fn run(self, findings: Seq<Finding>) -> SearchState
        decreases findings.len(),
    {
        if findings.len() == 0 {
            self
        } else {
            self.run(findings.drop_last()).advance(findings.last())
        }
    }

    /// What holds of the search between two findings, whatever was reported.
    pub open spec fn bounded(self) -> bool {
        &&& forall|k: int| 0 <= k < self.peaks.len() ==> #[trigger] self.peaks[k] < usize::MAX
        &&& self.walked <= self.peaks.len()
        &&& self.tail < usize::MAX
        &&& self.lb >= 1
        &&& self.window_size >= 1
        &&& self.head >= 1
        &&& self.largest_feasible matches Some(f) ==> f < self.peaks.len()
        &&& self.phase == Phase::Peaks ==> self.window_size == 1 || self.among_walked(
            self.window_size,
        )
    }

    /// What holds of the search whenever a probe is open or it is done.
    pub open spec fn valid(self) -> bool {
        &&& self.bounded()
        &&& self.phase == Phase::Peaks ==> !self.walk_stops()
        &&& self.phase == Phase::Bisection ==> self.head <= self.tail
    }

    /// `w` is one of the peaks that the walk has dealt with.
    pub open spec fn among_walked(self, w: nat) -> bool {
        exists|j: nat| j < self.walked && j < self.peaks.len() && #[trigger] self.peak_at(j) == w
    }

    /// How far the search is from its end: first by its stage, then by what
    /// the stage has left, the peaks not yet walked or the windows still
    /// between the bounds.
    pub open spec fn stage(self) -> nat {
        match self.phase {
            Phase::Peaks => 2,
            Phase::Bisection => 1,
            Phase::Done => 0,
        }
    }

    pub open spec fn span(self) -> nat {
        match self.phase {
            Phase::Peaks => (self.peaks.len() - self.walked) as nat,
            Phase::Bisection => (self.tail + 1 - self.head) as nat,
            Phase::Done => 0,
        }
    }
}

/// The search itself: it opens one probe after another and takes a finding
/// on each, until it has settled on a window.
pub struct Search {
    peaks: Vec<usize>,
    phase: Phase,
    walked: usize,
    original_kurtosis: Rank,
    min_obj: Rank,
    window_size: usize,
    lb: usize,
    largest_feasible: Option<usize>,
    head: usize,
    tail: usize,
}

impl View for Search {
    type V = SearchState;

    closed spec fn view(&self) -> SearchState {
        SearchState {
            peaks: self.peaks@,
            phase: self.phase,
            walked: self.walked as nat,
            original_kurtosis: self.original_kurtosis,
            min_obj: self.min_obj,
            window_size: self.window_size as nat,
            lb: self.lb as nat,
            largest_feasible: match self.largest_feasible {
                Some(f) => Some(f as nat),
                None => None,
            },
            head: self.head as nat,
            tail: self.tail as nat,
        }
    }
}

impl Search {
    /// Opens the search for a signal of `len` samples whose autocorrelation
    /// proposes `peaks`, given the kurtosis and the roughness of the signal
    /// as it is.
    ///
    /// One is added to a peak, so none may be the largest number of all.
    pub fn new(len: usize, peaks: Vec<usize>, original_kurtosis: Rank, roughness: Rank) -> (s:
        Search)
        requires
            forall|k: int| 0 <= k < peaks@.len() ==> #[trigger] peaks@[k] < usize::MAX,
        ensures
            s@ == SearchState::start(len as nat, peaks@, original_kurtosis, roughness),
            s@.valid(),
    {
        let mut s = Search {
            peaks,
            phase: Phase::Peaks,
            walked: 0,
            original_kurtosis,
            min_obj: roughness,
            window_size: 1,
            lb: 1,
            largest_feasible: None,
            head: 1,
            tail: lag_limit(len),
        };
        s.settle();
        s
    }

    fn settle(&mut self)
        requires
            old(self)@.bounded(),
        ensures
            final(self)@ == old(self)@.settle(),
            final(self)@.valid(),
    {
        let n = self.peaks.len();
        let walking = match self.phase {
            Phase::Peaks => true,
            _ => false,
        };
        if walking {
            let stops = if self.walked >= n {
                true
            } else {
                let w = self.peaks[n - 1 - self.walked];
                w < self.lb || w == 1
            };
            if stops {
                match self.largest_feasible {
                    Some(f) => {
                        let first = self.peaks[n - 1 - f];
                        if self.lb < first + 1 {
                            self.lb = first + 1;
                        }
                        if f + 1 < n {
                            self.tail = self.peaks[n - 2 - f];
                        }
                    },
                    None => {},
                }
                self.head = self.lb;
                self.phase = Phase::Bisection;
            }
        }
        let bisecting = match self.phase {
            Phase::Bisection => true,
            _ => false,
        };
        if bisecting && self.head > self.tail {
            self.phase = Phase::Done;
        }
    }

    /// The probe that is open.
    pub fn probe(&self) -> (p: Probe)
        requires
            self@.valid(),
        ensures
            p == (match self@.phase {
                Phase::Peaks => Probe::Peak {
                    lag: self@.candidate() as usize,
                    window_size: self@.window_size as usize,
                },
                Phase::Bisection => Probe::Window { size: self@.candidate() as usize },
                Phase::Done => Probe::Settled { window_size: self@.window_size as usize },
            }),
            self@.candidate() >= 1,
            self@.candidate() <= usize::MAX,
            self@.window_size <= usize::MAX,
    {
        match self.phase {
            Phase::Peaks => Probe::Peak {
                lag: self.peaks[self.peaks.len() - 1 - self.walked],
                window_size: self.window_size,
            },
            Phase::Bisection => Probe::Window { size: self.head + (self.tail - self.head) / 2 },
            Phase::Done => Probe::Settled { window_size: self.window_size },
        }
    }

    /// Takes the finding on the open probe and opens the next.
    pub fn advance(&mut self, finding: Finding)
        requires
            old(self)@.valid(),
        ensures
            final(self)@ == old(self)@.advance(finding),
            final(self)@.valid(),
    {
        match self.phase {
            Phase::Peaks => {
                let n = self.peaks.len();
                assert(!self@.walk_stops());
                match finding {
                    Finding::Redundant => {},
                    Finding::Measured { kurtosis, roughness, bound } => {
                        if kurtosis.at_least(self.original_kurtosis) {
                            if roughness.is_below(self.min_obj) {
                                self.min_obj = roughness;
                                self.window_size = self.peaks[n - 1 - self.walked];
                            }
                            if bound > self.lb {
                                self.lb = bound;
                            }
                            if self.largest_feasible.is_none() {
                                self.largest_feasible = Some(self.walked);
                            }
                        }
                    },
                }
                self.walked = self.walked + 1;
                proof {
                    let before = old(self)@;
                    lemma_walk_grows(before, self@);
                }
                self.settle();
            },
            Phase::Bisection => {
                match finding {
                    Finding::Redundant => {},
                    Finding::Measured { kurtosis, roughness, bound } => {
                        let w = self.head + (self.tail - self.head) / 2;
                        if kurtosis.at_least(self.original_kurtosis) {
                            if roughness.is_below(self.min_obj) {
                                self.min_obj = roughness;
                                self.window_size = w;
                            }
                            self.head = w + 1;
                        } else {
                            self.tail = w - 1;
                        }
                        self.settle();
                    },
                }
            },
            Phase::Done => {},
        }
    }

    /// The window in hand; once the search is done, the window it settled on.
    pub fn window_size(&self) -> (w: usize)
        ensures
            w == self@.window_size,
    {
        self.window_size
    }
}

/// A finding leaves the kurtosis to keep and the peaks as they were and never
/// lowers the lower bound. It changes the window in hand only to the window
/// that was probed, and only where that window was measured to keep the
/// kurtosis and to be smoother than the window in hand.
pub proof fn lemma_takes_feasible_only(s: SearchState, finding: Finding)
    ensures
        s.advance(finding).original_kurtosis == s.original_kurtosis,
        s.advance(finding).peaks == s.peaks,
        s.advance(finding).lb >= s.lb,
        s.advance(finding).window_size != s.window_size ==> {
            &&& finding matches Finding::Measured { kurtosis, roughness, .. }
            &&& kurtosis.not_below(s.original_kurtosis)
            &&& s.min_obj.above(roughness)
            &&& s.advance(finding).window_size == s.candidate()
            &&& s.advance(finding).min_obj == roughness
        },
{
}

/// Finding `k` of a series is a measurement of window `w` that kept the
/// kurtosis of the unsmoothed signal.
pub open spec fn kept_kurtosis(s: SearchState, findings: Seq<Finding>, k: int, w: nat) -> bool {
    &&& 0 <= k < findings.len()
    &&& findings[k] matches Finding::Measured { kurtosis, .. }
    &&& kurtosis.not_below(s.original_kurtosis)
    &&& s.run(findings.take(k)).candidate() == w
}

/// Whatever is reported, the window in hand at the end is the one from the
/// beginning, or one that was probed and measured to keep the kurtosis of the
/// unsmoothed signal: a window that loses kurtosis is never taken.
pub proof fn lemma_window_keeps_kurtosis(s: SearchState, findings: Seq<Finding>)
    ensures
        s.run(findings).original_kurtosis == s.original_kurtosis,
        s.run(findings).window_size == s.window_size || exists|k: int|
            kept_kurtosis(s, findings, k, s.run(findings).window_size),
    decreases findings.len(),
{
    if findings.len() > 0 {
        let front = findings.drop_last();
        let before = s.run(front);
        let after = s.run(findings);
        lemma_window_keeps_kurtosis(s, front);
        lemma_takes_feasible_only(before, findings.last());
        if after.window_size != before.window_size {
            let k = findings.len() - 1;
            assert(findings.take(k) =~= front);
            assert(kept_kurtosis(s, findings, k, after.window_size));
        } else if after.window_size != s.window_size {
            let k = choose|k: int| kept_kurtosis(s, front, k, before.window_size);
            assert(findings.take(k) =~= front.take(k));
            assert(kept_kurtosis(s, findings, k, after.window_size));
        }
    }
}

/// Where the kurtosis of the unsmoothed signal is not a number, as it is for
/// a constant signal, no window keeps it, and the window in hand never
/// changes.
pub proof fn lemma_undefined_kurtosis_keeps_window(s: SearchState, findings: Seq<Finding>)
    requires
        s.original_kurtosis is Nan,
    ensures
        s.run(findings).window_size == s.window_size,
{
    lemma_window_keeps_kurtosis(s, findings);
}

/// One more peak dealt with, and the window in hand is still 1 or among
/// the peaks dealt with, whether it was kept or the peak was taken.
proof fn lemma_walk_grows(before: SearchState, after: SearchState)
    requires
        before.phase == Phase::Peaks,
        before.bounded(),
        before.walked < before.peaks.len(),
        after.phase == Phase::Peaks,
        after.peaks == before.peaks,
        after.walked == before.walked + 1,
        after.window_size == before.window_size || after.window_size == before.peak_at(
            before.walked,
        ),
    ensures
        after.window_size == 1 || after.among_walked(after.window_size),
{
    if after.window_size == before.peak_at(before.walked) {
        assert(after.peak_at(before.walked) == after.window_size);
    } else if after.window_size != 1 {
        let j = choose|j: nat|
            j < before.walked && j < before.peaks.len() && #[trigger] before.peak_at(j)
                == before.window_size;
        assert(after.peak_at(j) == after.window_size);
    }
}

/// A finding leaves the search in order.
pub proof fn lemma_advance_valid(s: SearchState, finding: Finding)
    requires
        s.valid(),
    ensures
        s.advance(finding).valid(),
{
    if s.phase == Phase::Peaks {
        let judged = match finding {
            Finding::Redundant => s,
            Finding::Measured { kurtosis, roughness, bound } => s.judge_peak(
                kurtosis,
                roughness,
                bound as nat,
            ),
        };
        lemma_walk_grows(s, SearchState { walked: s.walked + 1, ..judged });
    }
}

/// Every finding that answers the open probe brings the search closer to
/// its end: it moves on to a later stage, or leaves less of the current one.
pub proof fn lemma_advance_progress(s: SearchState, finding: Finding)
    requires
        s.valid(),
        s.answers(finding),
    ensures
        s.advance(finding).stage() < s.stage() || (s.advance(finding).stage() == s.stage()
            && s.advance(finding).span() < s.span()),
{
}

/// Every measurement during the bisection leaves at most half of the window
/// sizes that were still between the bounds.
pub proof fn lemma_bisection_halves(s: SearchState, finding: Finding)
    requires
        s.valid(),
        s.phase == Phase::Bisection,
        finding is Measured,
    ensures
        s.advance(finding).span() <= s.span() / 2,
{
}

} // verus!
