//! Running a provider chain: which provider to try next, when to wait and
//! retry, when to fall back, and which result ends the request. The caller
//! performs each action (forwarding, sleeping) and reports each outcome.
use vstd::prelude::*;
use crate::fallback::ProviderChain;
use crate::retry::{
    AttemptOutcome, backoff_cap_ms, backoff_ceiling, fallback_allowed, matches_fallback_trigger,
    outcome_of_status, retryable_status,
};

verus! {

/// Which result the request ends with.
#[derive(Debug, Clone, Copy, PartialEq, Eq, Structural)]
pub enum ChainEnd {
    /// The result of the attempt just reported.
    Current,
    /// The last response kept from an entry that ran out of attempts.
    KeptResponse,
    /// The last error kept from an entry that ran out of attempts (no
    /// response was kept).
    KeptError,
    /// The chain has no entries: an internal error.
    Empty,
}

#[derive(Debug, Clone, Copy, PartialEq, Eq, Structural)]
pub enum ChainAction {
    /// Send the request to `entries[entry]`.
    Forward { entry: usize },
    /// Wait a random time below `cap_ms` milliseconds, then send the request
    /// to `entries[entry]` again.
    Retry { entry: usize, cap_ms: u64 },
    /// Stop with the named result.
    Finish(ChainEnd),
}

/// The decision after an attempt. `keep_current` asks the caller to keep the
/// reported result (as the last response when it is one, else as the last
/// error), replacing the one kept before.
#[derive(Debug, Clone, Copy, PartialEq, Eq, Structural)]
pub struct ChainStep {
    pub keep_current: bool,
    pub action: ChainAction,
}

/// Where a chain run stands.
#[derive(Debug, Clone, Copy, PartialEq, Eq, Structural)]
pub struct ChainRun {
    /// The entry being tried.
    pub entry: usize,
    /// Attempts made on that entry, the current one included.
    pub attempt: u32,
    /// The fallback entry in use, if the chain moved past the primary.
    pub fallback_used: Option<usize>,
    pub kept_response: bool,
    pub kept_error: bool,
    pub finished: bool,
}

/// Whether an outcome ends the request at once: a success, or a failure that
/// is neither retried nor an upstream 5xx.
pub open spec fn terminal(o: AttemptOutcome) -> bool {
    o is Success || (o matches AttemptOutcome::NonRetryable(s) && !(500 <= s < 600))
}

/// A 5xx that is not worth retrying: the entry's attempts end with it, and the
/// chain goes on to the next entry when that entry's triggers allow it.
pub open spec fn unretried_5xx(o: AttemptOutcome) -> bool {
    o matches AttemptOutcome::NonRetryable(s) && 500 <= s < 600
}

/// The run after reporting `outcome` (`ok`: the attempt produced a response
/// rather than an error), and the decision.
pub open spec fn chain_next(run: ChainRun, chain: ProviderChain, outcome: AttemptOutcome, ok: bool) -> (ChainRun, ChainStep) {
    if terminal(outcome) {
        (ChainRun { finished: true, ..run }, ChainStep { keep_current: false, action: ChainAction::Finish(ChainEnd::Current) })
    } else if unretried_5xx(outcome) || run.attempt >= chain.retry.max_attempts {
        let kr = run.kept_response || ok;
        let ke = run.kept_error || !ok;
        let nxt = run.entry + 1;
        if nxt < chain.entries@.len() && fallback_allowed(outcome, chain.entries@[nxt].trigger@) {
            (
                ChainRun { entry: nxt as usize, attempt: 1, fallback_used: Some(nxt as usize), kept_response: kr, kept_error: ke, finished: false },
                ChainStep { keep_current: true, action: ChainAction::Forward { entry: nxt as usize } },
            )
        } else if unretried_5xx(outcome) {
            (ChainRun { finished: true, ..run }, ChainStep { keep_current: false, action: ChainAction::Finish(ChainEnd::Current) })
        } else {
            (
                ChainRun { kept_response: kr, kept_error: ke, finished: true, ..run },
                ChainStep {
                    keep_current: true,
                    action: ChainAction::Finish(if kr { ChainEnd::KeptResponse } else { ChainEnd::KeptError }),
                },
            )
        }
    } else {
        (
            ChainRun { attempt: (run.attempt + 1) as u32, ..run },
            ChainStep {
                keep_current: false,
                action: ChainAction::Retry {
                    entry: run.entry,
                    cap_ms: backoff_ceiling(chain.retry.initial_backoff_ms, (run.attempt - 1) as u32),
                },
            },
        )
    }
}

/// Attempts an entry gets: `max_attempts`, and at least one.
pub open spec fn attempts_cap(chain: ProviderChain) -> nat {
    if chain.retry.max_attempts == 0 {
        1
    } else {
        chain.retry.max_attempts as nat
    }
}

/// What holds of a run that is not finished.
pub open spec fn run_inv(run: ChainRun, chain: ProviderChain) -> bool {
    &&& chain.entries@.len() <= usize::MAX
    &&& !run.finished ==> {
        &&& run.entry < chain.entries@.len()
        &&& 1 <= run.attempt <= attempts_cap(chain)
        &&& run.fallback_used == (if run.entry == 0 { None } else { Some(run.entry) })
        &&& run.entry > 0 ==> run.kept_response || run.kept_error
    }
}

/// Attempts made so far, counting each entry's full share for the entries left
/// behind.
pub open spec fn progress(run: ChainRun, chain: ProviderChain) -> nat {
    run.entry as nat * attempts_cap(chain) + run.attempt as nat
}

impl ChainRun {
    /// Starts a run: the primary is tried first; an empty chain ends at once.
    pub fn begin(chain: &ProviderChain) -> (r: (ChainRun, ChainAction))
        ensures
            chain.entries@.len() == 0 ==> (r.0.finished && r.0.fallback_used is None
                && r.1 == ChainAction::Finish(ChainEnd::Empty)),
            r.0 == start_run(*chain),
            chain.entries@.len() > 0 ==> (!r.0.finished && r.0.entry == 0 && r.0.attempt == 1
                && r.0.fallback_used is None && !r.0.kept_response && !r.0.kept_error
                && r.1 == (ChainAction::Forward { entry: 0 })),
            run_inv(r.0, *chain),
    {
        let len = chain.entries.len();
        let empty = len == 0;
        let run = ChainRun {
            entry: 0,
            attempt: 1,
            fallback_used: None,
            kept_response: false,
            kept_error: false,
            finished: empty,
        };
        if empty {
            (run, ChainAction::Finish(ChainEnd::Empty))
        } else {
            (run, ChainAction::Forward { entry: 0 })
        }
    }

    /// Reports the outcome of the attempt just made and decides what comes
    /// next: a success or a non-retryable outcome other than a 5xx ends the
    /// request with it; a retryable one is retried on the same entry after a
    /// backoff until the entry has had `max_attempts` attempts; then the result
    /// is kept and the next entry is tried if the outcome matches its triggers,
    /// else the run ends with the kept response (or, if none, the kept error).
    /// A non-retryable 5xx is not retried but goes on to the next entry when
    /// its triggers match, and otherwise ends the request with it.
    pub fn on_result(&mut self, chain: &ProviderChain, outcome: AttemptOutcome, ok: bool) -> (r: ChainStep)
        requires
            !old(self).finished,
            run_inv(*old(self), *chain),
        ensures
            (*final(self), r) == chain_next(*old(self), *chain, outcome, ok),
            run_inv(*final(self), *chain),
    {
        let len = chain.entries.len();
        let (terminal, five_xx) = match outcome {
            AttemptOutcome::Success => (true, false),
            AttemptOutcome::NonRetryable(s) => {
                let f = 500 <= s && s < 600;
                (!f, f)
            },
            _ => (false, false),
        };
        if terminal {
            self.finished = true;
            return ChainStep { keep_current: false, action: ChainAction::Finish(ChainEnd::Current) };
        }
        if five_xx || self.attempt >= chain.retry.max_attempts {
            let nxt = self.entry + 1;
            if nxt < len && matches_fallback_trigger(outcome, chain.entries[nxt].trigger.as_slice()) {
                self.kept_response = self.kept_response || ok;
                self.kept_error = self.kept_error || !ok;
                self.entry = nxt;
                self.attempt = 1;
                self.fallback_used = Some(nxt);
                ChainStep { keep_current: true, action: ChainAction::Forward { entry: nxt } }
            } else if five_xx {
                self.finished = true;
                ChainStep { keep_current: false, action: ChainAction::Finish(ChainEnd::Current) }
            } else {
                self.kept_response = self.kept_response || ok;
                self.kept_error = self.kept_error || !ok;
                self.finished = true;
                let end = if self.kept_response {
                    ChainEnd::KeptResponse
                } else {
                    ChainEnd::KeptError
                };
                ChainStep { keep_current: true, action: ChainAction::Finish(end) }
            }
        } else {
            let cap = backoff_cap_ms(chain.retry.initial_backoff_ms, self.attempt - 1);
            self.attempt = self.attempt + 1;
            ChainStep { keep_current: false, action: ChainAction::Retry { entry: self.entry, cap_ms: cap } }
        }
    }
}

/// Every decision that sends the request again counts at least one more
/// attempt (a retry exactly one), names the entry the run is now on, and no
/// run makes more than `entries * max(1, max_attempts)` attempts.
pub proof fn lemma_chain_progress(run: ChainRun, chain: ProviderChain, outcome: AttemptOutcome, ok: bool)
    requires
        !run.finished,
        run_inv(run, chain),
    ensures
        ({
            let (next, step) = chain_next(run, chain, outcome, ok);
            &&& progress(run, chain) <= chain.entries@.len() * attempts_cap(chain)
            &&& (step.action is Forward || step.action is Retry) ==> !next.finished
                && progress(next, chain) > progress(run, chain)
            &&& step.action is Retry ==> progress(next, chain) == progress(run, chain) + 1
            &&& step.action matches ChainAction::Forward { entry } ==> entry == next.entry
            &&& step.action matches ChainAction::Retry { entry, .. } ==> entry == next.entry
            &&& step.action is Finish <==> next.finished
            &&& run_inv(next, chain)
        }),
{
    let cap = attempts_cap(chain);
    assert(progress(run, chain) <= chain.entries@.len() * cap) by (nonlinear_arith)
        requires
            run.entry < chain.entries@.len(),
            run.attempt <= cap,
            progress(run, chain) == run.entry as nat * cap + run.attempt as nat,
    ;
    let (next, step) = chain_next(run, chain, outcome, ok);
    if step.action is Forward {
        assert(progress(next, chain) == (run.entry as nat + 1) * cap + 1);
        assert((run.entry as nat + 1) * cap == run.entry as nat * cap + cap) by (nonlinear_arith);
    }
}

/// The chain moves on to entry `k > 0` only when entry `k - 1` ran out of
/// attempts, or failed with a 5xx that is not retried, with an outcome that
/// matches entry `k`'s triggers.
pub proof fn lemma_fallback_only_on_trigger(run: ChainRun, chain: ProviderChain, outcome: AttemptOutcome, ok: bool)
    requires
        !run.finished,
        run_inv(run, chain),
    ensures
        ({
            let (next, step) = chain_next(run, chain, outcome, ok);
            step.action matches ChainAction::Forward { entry: k } ==> {
                &&& k == run.entry + 1
                &&& run.attempt >= chain.retry.max_attempts || unretried_5xx(outcome)
                &&& !terminal(outcome)
                &&& fallback_allowed(outcome, chain.entries@[k as int].trigger@)
                &&& step.keep_current
                &&& next.fallback_used == Some(k)
            }
        }),
{
}

/// An upstream 5xx, retried or not, moves the chain on to the next entry once
/// the current entry's attempts are spent, whenever that entry's triggers
/// allow it.
pub proof fn lemma_5xx_falls_back(run: ChainRun, chain: ProviderChain, status: u16, ok: bool)
    requires
        !run.finished,
        run_inv(run, chain),
        500 <= status < 600,
        run.attempt >= chain.retry.max_attempts || !retryable_status(status),
        run.entry + 1 < chain.entries@.len(),
        fallback_allowed(outcome_of_status(status), chain.entries@[run.entry + 1].trigger@),
    ensures
        ({
            let (next, step) = chain_next(run, chain, outcome_of_status(status), ok);
            &&& step.action == (ChainAction::Forward { entry: (run.entry + 1) as usize })
            &&& next.fallback_used == Some((run.entry + 1) as usize)
        }),
{
}

/// The run a chain starts in.
pub open spec fn start_run(chain: ProviderChain) -> ChainRun {
    ChainRun {
        entry: 0,
        attempt: 1,
        fallback_used: None,
        kept_response: false,
        kept_error: false,
        finished: chain.entries@.len() == 0,
    }
}

/// The runs met when the reports are made in order: the one before each
/// report, then the one after the last.
pub open spec fn runs_of(chain: ProviderChain, reports: Seq<(AttemptOutcome, bool)>) -> Seq<ChainRun>
    decreases reports.len(),
{
    if reports.len() == 0 {
        seq![start_run(chain)]
    } else {
        let prev = runs_of(chain, reports.drop_last());
        prev.push(chain_next(prev.last(), chain, reports.last().0, reports.last().1).0)
    }
}

/// Each report comes while the run is not finished, as a caller makes them.
pub open spec fn reports_fit(chain: ProviderChain, reports: Seq<(AttemptOutcome, bool)>) -> bool {
    forall|k: int| 0 <= k < reports.len() ==> !(#[trigger] runs_of(chain, reports)[k]).finished
}

/// A whole run: call `k` goes to entry `runs[k].entry`. The first call goes
/// to the primary, the calls go through the entries in index order without
/// skipping one, and no entry is called more than `max(1, max_attempts)`
/// times.
pub proof fn lemma_chain_run(chain: ProviderChain, reports: Seq<(AttemptOutcome, bool)>)
    requires
        chain.entries@.len() <= usize::MAX,
        reports_fit(chain, reports),
    ensures
        ({
            let runs = runs_of(chain, reports);
            &&& runs.len() == reports.len() + 1
            &&& reports.len() > 0 ==> runs[0].entry == 0
            &&& forall|k: int| 0 <= k < reports.len() ==> (#[trigger] runs[k]).entry < chain.entries@.len()
            &&& forall|k: int|
                0 <= k < reports.len() ==> (#[trigger] runs[k + 1]).entry == runs[k].entry || runs[k + 1].entry
                    == runs[k].entry + 1
            &&& forall|i: int, j: int|
                #![trigger runs[i], runs[j]]
                0 <= i < j < reports.len() && runs[i].entry == runs[j].entry ==> j - i < attempts_cap(chain)
        }),
{
    lemma_chain_run_inv(chain, reports);
}

proof fn lemma_runs_len(chain: ProviderChain, reports: Seq<(AttemptOutcome, bool)>)
    ensures
        runs_of(chain, reports).len() == reports.len() + 1,
    decreases reports.len(),
{
    if reports.len() > 0 {
        lemma_runs_len(chain, reports.drop_last());
    }
}

proof fn lemma_chain_run_inv(chain: ProviderChain, reports: Seq<(AttemptOutcome, bool)>)
    requires
        chain.entries@.len() <= usize::MAX,
        reports_fit(chain, reports),
    ensures
        ({
            let runs = runs_of(chain, reports);
            let n = reports.len() as int;
            let last = runs[n];
            &&& runs.len() == n + 1
            &&& runs[0].entry == 0
            &&& run_inv(last, chain)
            &&& forall|k: int| 0 <= k < n ==> (#[trigger] runs[k]).entry < chain.entries@.len()
            &&& forall|k: int| 0 <= k <= n ==> (#[trigger] runs[k]).entry <= last.entry
            &&& !last.finished ==> forall|k: int|
                0 <= k < n && (#[trigger] runs[k]).entry == last.entry ==> n - k <= last.attempt - 1
            &&& forall|k: int|
                0 <= k < n ==> (#[trigger] runs[k + 1]).entry == runs[k].entry || runs[k + 1].entry
                    == runs[k].entry + 1
            &&& forall|i: int, j: int|
                #![trigger runs[i], runs[j]]
                0 <= i < j < n && runs[i].entry == runs[j].entry ==> j - i < attempts_cap(chain)
        }),
    decreases reports.len(),
{
    let runs = runs_of(chain, reports);
    let n = reports.len() as int;
    if n > 0 {
        let pre = reports.drop_last();
        let pruns = runs_of(chain, pre);
        lemma_runs_len(chain, pre);
        assert(runs == pruns.push(chain_next(pruns.last(), chain, reports.last().0, reports.last().1).0));
        assert forall|k: int| 0 <= k < pre.len() implies !(#[trigger] runs_of(chain, pre)[k]).finished by {
            assert(runs[k] == pruns[k]);
        }
        lemma_chain_run_inv(chain, pre);
        let m = n - 1;
        let last0 = pruns[m];
        assert(!runs[m].finished);
        assert(runs[m] == last0);
        lemma_chain_progress(last0, chain, reports.last().0, reports.last().1);
        let last = runs[n];
        assert forall|k: int| 0 <= k <= m implies #[trigger] runs[k] == pruns[k] by {}
        assert forall|i: int, j: int|
            #![trigger runs[i], runs[j]]
            0 <= i < j < n && runs[i].entry == runs[j].entry implies j - i < attempts_cap(chain) by {
            assert(runs[i] == pruns[i]);
            assert(runs[j] == pruns[j]);
        }
        assert forall|k: int| 0 <= k < n implies (#[trigger] runs[k + 1]).entry == runs[k].entry
            || runs[k + 1].entry == runs[k].entry + 1 by {
            assert(runs[k] == pruns[k]);
            if k + 1 < n {
                assert(runs[k + 1] == pruns[k + 1]);
            }
        }
        assert forall|k: int| 0 <= k <= n implies (#[trigger] runs[k]).entry <= last.entry by {
            if k < n {
                assert(runs[k] == pruns[k]);
            }
        }
        if !last.finished {
            assert forall|k: int| 0 <= k < n && (#[trigger] runs[k]).entry == last.entry implies n - k
                <= last.attempt - 1 by {
                assert(runs[k] == pruns[k]);
            }
        }
        assert forall|k: int| 0 <= k < n implies (#[trigger] runs[k]).entry < chain.entries@.len() by {
            assert(runs[k] == pruns[k]);
        }
    }
}

pub open spec fn outcome_name(o: AttemptOutcome) -> Seq<char> {
    match o {
        AttemptOutcome::Success => "success"@,
        AttemptOutcome::RetryableStatus(_) => "retryable_status"@,
        AttemptOutcome::RetryableNetwork => "retryable_network"@,
        AttemptOutcome::NonRetryable(_) => "non_retryable"@,
        AttemptOutcome::Timeout => "timeout"@,
    }
}

/// The label of an outcome in attempt traces.
pub fn outcome_label(o: AttemptOutcome) -> (r: &'static str)
    ensures
        r@ == outcome_name(o),
{
    match o {
        AttemptOutcome::Success => "success",
        AttemptOutcome::RetryableStatus(_) => "retryable_status",
        AttemptOutcome::RetryableNetwork => "retryable_network",
        AttemptOutcome::NonRetryable(_) => "non_retryable",
        AttemptOutcome::Timeout => "timeout",
    }
}

} // verus!
