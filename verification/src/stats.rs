//! Per-fit event counters: outer iterations, line-search trials, shortcut probes
//! and inner solves.

use vstd::prelude::*;

use crate::text::{decimal, decimal_text};

verus! {

/// Counters of one fit. Read through [`FitStats::snapshot`].
pub struct FitStats {
    outer_iterations: usize,
    line_search_trials: usize,
    no_refresh_attempts: usize,
    no_refresh_hits: usize,
    inner_pirls_calls: usize,
    inner_pirls_iterations_total: usize,
}

/// The values of all counters at one moment.
#[derive(Debug, Default, Clone, Copy, PartialEq, Eq, Structural)]
pub struct FitStatsSnapshot {
    /// Outer iterations executed.
    pub outer_iterations: usize,
    /// Line-search trial points evaluated, the accepted ones among them.
    pub line_search_trials: usize,
    /// Shortcut probes attempted.
    pub no_refresh_attempts: usize,
    /// Shortcut probes that gave a value.
    pub no_refresh_hits: usize,
    /// Full inner solves.
    pub inner_pirls_calls: usize,
    /// Iterations of all full inner solves together.
    pub inner_pirls_iterations_total: usize,
}

/// All counters at zero.
pub open spec fn no_counts() -> FitStatsSnapshot {
    FitStatsSnapshot {
        outer_iterations: 0,
        line_search_trials: 0,
        no_refresh_attempts: 0,
        no_refresh_hits: 0,
        inner_pirls_calls: 0,
        inner_pirls_iterations_total: 0,
    }
}

impl View for FitStats {
    type V = FitStatsSnapshot;

    closed spec fn view(&self) -> FitStatsSnapshot {
        FitStatsSnapshot {
            outer_iterations: self.outer_iterations,
            line_search_trials: self.line_search_trials,
            no_refresh_attempts: self.no_refresh_attempts,
            no_refresh_hits: self.no_refresh_hits,
            inner_pirls_calls: self.inner_pirls_calls,
            inner_pirls_iterations_total: self.inner_pirls_iterations_total,
        }
    }
}

impl Default for FitStats {
    fn default() -> (s: FitStats)
        ensures
            s@ == no_counts(),
    {
        FitStats::new()
    }
}

/// A counter after `by` more events. It starts over beyond the largest count.
pub open spec fn count_up(n: usize, by: usize) -> usize {
    if n + by > usize::MAX {
        (n + by - usize::MAX - 1) as usize
    } else {
        (n + by) as usize
    }
}

/// Counts `by` more events.
pub fn add_count(n: usize, by: usize) -> (r: usize)
    ensures
        r == count_up(n, by),
{
    if by > usize::MAX - n {
        by - (usize::MAX - n) - 1
    } else {
        n + by
    }
}

impl FitStats {
    /// Counters at zero.
    pub fn new() -> (s: FitStats)
        ensures
            s@ == no_counts(),
    {
        FitStats {
            outer_iterations: 0,
            line_search_trials: 0,
            no_refresh_attempts: 0,
            no_refresh_hits: 0,
            inner_pirls_calls: 0,
            inner_pirls_iterations_total: 0,
        }
    }

    /// Counts an outer iteration.
    pub fn bump_outer(&mut self)
        ensures
            final(self)@ == (FitStatsSnapshot {
                outer_iterations: count_up(old(self)@.outer_iterations, 1),
                ..old(self)@
            }),
    {
        self.outer_iterations = add_count(self.outer_iterations, 1);
    }

    /// Counts a line-search trial point.
    pub fn bump_line_search_trial(&mut self)
        ensures
            final(self)@ == (FitStatsSnapshot {
                line_search_trials: count_up(old(self)@.line_search_trials, 1),
                ..old(self)@
            }),
    {
        self.line_search_trials = add_count(self.line_search_trials, 1);
    }

    /// Counts an attempted shortcut probe.
    pub fn bump_no_refresh_attempt(&mut self)
        ensures
            final(self)@ == (FitStatsSnapshot {
                no_refresh_attempts: count_up(old(self)@.no_refresh_attempts, 1),
                ..old(self)@
            }),
    {
        self.no_refresh_attempts = add_count(self.no_refresh_attempts, 1);
    }

    /// Counts a shortcut probe that gave a value.
    pub fn bump_no_refresh_hit(&mut self)
        ensures
            final(self)@ == (FitStatsSnapshot {
                no_refresh_hits: count_up(old(self)@.no_refresh_hits, 1),
                ..old(self)@
            }),
    {
        self.no_refresh_hits = add_count(self.no_refresh_hits, 1);
    }

    /// Counts a full inner solve of `iters` iterations.
    pub fn record_pirls_call(&mut self, iters: usize)
        ensures
            final(self)@ == (FitStatsSnapshot {
                inner_pirls_calls: count_up(old(self)@.inner_pirls_calls, 1),
                inner_pirls_iterations_total: count_up(
                    old(self)@.inner_pirls_iterations_total,
                    iters,
                ),
                ..old(self)@
            }),
    {
        self.inner_pirls_calls = add_count(self.inner_pirls_calls, 1);
        self.inner_pirls_iterations_total = add_count(self.inner_pirls_iterations_total, iters);
    }

    /// The current values.
    pub fn snapshot(&self) -> (s: FitStatsSnapshot)
        ensures
            s == self@,
    {
        FitStatsSnapshot {
            outer_iterations: self.outer_iterations,
            line_search_trials: self.line_search_trials,
            no_refresh_attempts: self.no_refresh_attempts,
            no_refresh_hits: self.no_refresh_hits,
            inner_pirls_calls: self.inner_pirls_calls,
            inner_pirls_iterations_total: self.inner_pirls_iterations_total,
        }
    }

    /// Sets every counter to zero.
    pub fn reset(&mut self)
        ensures
            final(self)@ == no_counts(),
    {
        self.outer_iterations = 0;
        self.line_search_trials = 0;
        self.no_refresh_attempts = 0;
        self.no_refresh_hits = 0;
        self.inner_pirls_calls = 0;
        self.inner_pirls_iterations_total = 0;
    }
}

/// A quotient of counters, left undivided.
#[derive(Clone, Copy, Debug, PartialEq, Eq, Structural)]
pub struct Quotient {
    /// Dividend.
    pub num: usize,
    /// Divisor, never zero.
    pub den: usize,
}

/// `num / den`, or `0 / 1` where there is nothing to divide by.
pub open spec fn quotient_of(num: usize, den: usize) -> Quotient {
    if den == 0 {
        Quotient { num: 0, den: 1 }
    } else {
        Quotient { num, den }
    }
}

impl FitStatsSnapshot {
    /// Mean inner iterations per full inner solve; zero where there was none.
    pub fn pirls_iters_per_call(&self) -> (q: Quotient)
        ensures
            q == quotient_of(self.inner_pirls_iterations_total, self.inner_pirls_calls),
            q.den > 0,
    {
        if self.inner_pirls_calls == 0 {
            Quotient { num: 0, den: 1 }
        } else {
            Quotient { num: self.inner_pirls_iterations_total, den: self.inner_pirls_calls }
        }
    }

    /// Share of shortcut probes that gave a value; zero where none was attempted.
    pub fn no_refresh_hit_rate(&self) -> (q: Quotient)
        ensures
            q == quotient_of(self.no_refresh_hits, self.no_refresh_attempts),
            q.den > 0,
    {
        if self.no_refresh_attempts == 0 {
            Quotient { num: 0, den: 1 }
        } else {
            Quotient { num: self.no_refresh_hits, den: self.no_refresh_attempts }
        }
    }

    /// The text of [`FitStatsSnapshot::summary`].
    pub open spec fn summary_spec(self, per_call: Seq<char>, percent: Seq<char>) -> Seq<char> {
        "outer="@ + decimal(self.outer_iterations as nat) + " ls_trials="@ + decimal(
            self.line_search_trials as nat,
        ) + " pirls_calls="@ + decimal(self.inner_pirls_calls as nat) + " pirls_iters="@ + decimal(
            self.inner_pirls_iterations_total as nat,
        ) + " (≈"@ + per_call + "/call) no_refresh="@ + decimal(self.no_refresh_hits as nat) + "/"@
            + decimal(self.no_refresh_attempts as nat) + " ("@ + percent + "%)"@
    }

    /// One line that shows every counter. `per_call` and `percent` are the
    /// rendered quotients: iterations per inner solve and hits in percent.
    pub fn summary(&self, per_call: &str, percent: &str) -> (s: String)
        ensures
            s@ == self.summary_spec(per_call@, percent@),
    {
        let mut out: String = "outer=".to_owned();
        out.append(decimal_text(self.outer_iterations).as_str());
        out.append(" ls_trials=");
        out.append(decimal_text(self.line_search_trials).as_str());
        out.append(" pirls_calls=");
        out.append(decimal_text(self.inner_pirls_calls).as_str());
        out.append(" pirls_iters=");
        out.append(decimal_text(self.inner_pirls_iterations_total).as_str());
        out.append(" (≈");
        out.append(per_call);
        out.append("/call) no_refresh=");
        out.append(decimal_text(self.no_refresh_hits).as_str());
        out.append("/");
        out.append(decimal_text(self.no_refresh_attempts).as_str());
        out.append(" (");
        out.append(percent);
        out.append("%)");
        out
    }
}

} // verus!
