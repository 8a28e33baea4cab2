//! Peaks of an autocorrelation sequence.

use vstd::prelude::*;
use crate::statistics::rank::Rank;

verus! {

/// Order key of 0.2, the correlation that a peak has to exceed.
pub const PEAK_THRESHOLD_KEY: i64 = 4596373779694328218;

/// The state of a scan over the lags of a correlation sequence.
pub struct Scan {
    /// The correlation was last seen to rise.
    pub rising: bool,
    /// Lag of the highest correlation of the current rise.
    pub top: int,
    /// Peaks recorded so far.
    pub peaks: Seq<usize>,
    /// Highest correlation among the recorded peaks.
    pub max_acf: Rank,
}

/// The scan before it has looked at any lag beyond 1.
pub open spec fn scan_start(c: Seq<Rank>, max_acf: Rank) -> Scan {
    Scan { rising: c[1].above(c[0]), top: 1, peaks: Seq::empty(), max_acf }
}

/// The scan after it has looked at lag `i`.
///
/// A rise after a fall opens a new region with its top at `i`. During a rise
/// a correlation above the top becomes the top. A fall after a rise closes
/// the region: its top is recorded as a peak if it lies beyond lag 1 and
/// exceeds the threshold.
pub open spec fn scan_step(c: Seq<Rank>, threshold: Rank, s: Scan, i: int) -> Scan {
    if !s.rising && c[i].above(c[i - 1]) {
        Scan { rising: true, top: i, ..s }
    } else if s.rising && c[i].above(c[s.top]) {
        Scan { top: i, ..s }
    } else if s.rising && c[i - 1].above(c[i]) {
        if s.top > 1 && c[s.top].above(threshold) {
            Scan {
                rising: false,
                peaks: s.peaks.push(s.top as usize),
                max_acf: if c[s.top].above(s.max_acf) {
                    c[s.top]
                } else {
                    s.max_acf
                },
                ..s
            }
        } else {
            Scan { rising: false, ..s }
        }
    } else {
        s
    }
}

/// The scan after it has looked at every lag below `upto`.
pub open spec fn scan(c: Seq<Rank>, threshold: Rank, max_acf: Rank, upto: int) -> Scan
    decreases upto,
{
    if upto <= 2 {
        scan_start(c, max_acf)
    } else {
        scan_step(c, threshold, scan(c, threshold, max_acf, upto - 1), upto - 1)
    }
}

/// The scan over all of a correlation sequence; one with fewer than two
/// entries has nothing to scan.
pub open spec fn full_scan(c: Seq<Rank>, threshold: Rank, max_acf: Rank) -> Scan {
    if c.len() > 1 {
        scan(c, threshold, max_acf, c.len() as int)
    } else {
        Scan { rising: false, top: 1, peaks: Seq::empty(), max_acf }
    }
}

/// Every lag from 2 up to, but not including, `len`.
pub open spec fn all_lags(len: nat) -> Seq<usize> {
    if len < 2 {
        Seq::empty()
    } else {
        Seq::new((len - 2) as nat, |k: int| (k + 2) as usize)
    }
}

/// The window sizes that a correlation sequence proposes: its peaks, or
/// every lag from 2 on where it has fewer than two peaks.
pub open spec fn candidates(c: Seq<Rank>, threshold: Rank, max_acf: Rank) -> Seq<usize> {
    let found = full_scan(c, threshold, max_acf).peaks;
    if found.len() <= 1 {
        all_lags(c.len())
    } else {
        found
    }
}

/// Each entry is greater than the one before.
pub open spec fn ascending(s: Seq<usize>) -> bool {
    forall|a: int, b: int| 0 <= a < b < s.len() ==> s[a] < s[b]
}

/// The correlation at each of the lags in `found` exceeds `floor` and does
/// not exceed `ceiling`.
pub open spec fn crests_between(c: Seq<Rank>, found: Seq<usize>, floor: Rank, ceiling: Rank) -> bool {
    forall|k: int|
        0 <= k < found.len() ==> {
            &&& 0 <= #[trigger] found[k] < c.len()
            &&& c[found[k] as int].above(floor)
            &&& !c[found[k] as int].above(ceiling)
        }
}

/// An autocorrelation sequence, lag by lag, with the strongest peak found in it.
pub struct ACF {
    /// Correlation at each lag.
    pub correlations: Vec<Rank>,
    /// Highest correlation among the peaks recorded so far; zero before any.
    pub max_acf: Rank,
    /// What a correlation has to exceed to count as a peak.
    pub corr_thresh: Rank,
}

impl ACF {
    /// Takes the correlations at lags `0..correlations.len()`.
    pub fn new(correlations: Vec<Rank>) -> (acf: Self)
        ensures
            acf.correlations@ == correlations@,
            acf.max_acf == Rank::Number(0),
            acf.corr_thresh == Rank::Number(PEAK_THRESHOLD_KEY),
    {
        ACF { correlations, max_acf: Rank::Number(0), corr_thresh: Rank::Number(PEAK_THRESHOLD_KEY) }
    }

    /// Finds the lags at which the correlation peaks, in ascending order, and
    /// raises `max_acf` to the highest of those peaks. Where fewer than two
    /// peaks are found, every lag from 2 on is returned instead.
    pub fn find_peaks(&mut self) -> (peaks: Vec<usize>)
        ensures
            final(self).correlations@ == old(self).correlations@,
            final(self).corr_thresh == old(self).corr_thresh,
            final(self).max_acf == full_scan(
                old(self).correlations@,
                old(self).corr_thresh,
                old(self).max_acf,
            ).max_acf,
            peaks@ == candidates(old(self).correlations@, old(self).corr_thresh, old(self).max_acf),
            ascending(peaks@),
            forall|k: int| 0 <= k < peaks@.len() ==> 2 <= #[trigger] peaks@[k] < old(
                self,
            ).correlations@.len(),
            crests_between(
                old(self).correlations@,
                full_scan(old(self).correlations@, old(self).corr_thresh, old(self).max_acf).peaks,
                old(self).corr_thresh,
                final(self).max_acf,
            ),
    {
        let mut peaks: Vec<usize> = Vec::new();
        let n = self.correlations.len();
        let ghost c = self.correlations@;
        let ghost threshold = self.corr_thresh;
        let ghost max0 = self.max_acf;
        if n > 1 {
            let mut rising = self.correlations[1].exceeds(self.correlations[0]);
            let mut top: usize = 1;
            let mut i: usize = 2;
            while i < n
                invariant
                    2 <= i <= n,
                    n == c.len(),
                    self.correlations@ == c,
                    self.corr_thresh == threshold,
                    1 <= top < i,
                    scan(c, threshold, max0, i as int) == (Scan {
                        rising,
                        top: top as int,
                        peaks: peaks@,
                        max_acf: self.max_acf,
                    }),
                    ascending(peaks@),
                    forall|k: int|
                        0 <= k < peaks@.len() ==> 2 <= #[trigger] peaks@[k] <= top && (rising
                            ==> peaks@[k] < top),
                    crests_between(c, peaks@, threshold, self.max_acf),
                decreases n - i,
            {
                let ghost before = scan(c, threshold, max0, i as int);
                let here = self.correlations[i];
                if !rising && here.exceeds(self.correlations[i - 1]) {
                    top = i;
                    rising = true;
                } else if rising && here.exceeds(self.correlations[top]) {
                    top = i;
                } else if rising && here.is_below(self.correlations[i - 1]) {
                    let crest = self.correlations[top];
                    if top > 1 && crest.exceeds(self.corr_thresh) {
                        peaks.push(top);
                        if crest.exceeds(self.max_acf) {
                            self.max_acf = crest;
                        }
                    }
                    rising = false;
                }
                i = i + 1;
                assert(scan(c, threshold, max0, i as int) == scan_step(
                    c,
                    threshold,
                    before,
                    i - 1,
                ));
            }
        }
        if peaks.len() <= 1 {
            let mut all: Vec<usize> = Vec::new();
            let mut lag: usize = 2;
            while lag < n
                invariant
                    2 <= lag,
                    lag <= n || n < 2,
                    all@.len() == (if n < 2 {
                        0
                    } else {
                        lag - 2
                    }),
                    forall|k: int| 0 <= k < all@.len() ==> #[trigger] all@[k] == k + 2,
                decreases n - lag,
            {
                all.push(lag);
                lag = lag + 1;
            }
            assert(all@ =~= all_lags(n as nat));
            return all;
        }
        peaks
    }
}

} // verus!
