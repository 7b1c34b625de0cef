//! Dispatch planning: the argument vector handed to the external run
//! command, the classification of its exit, and the batch session that walks
//! every extracted target in order, aborting on the first failing dispatch
//! under the default fail-fast policy.

use vstd::prelude::*;
use vstd::string::StringExecFns;
use crate::extract::TargetList;
use crate::select::{present_names, select_all};
use crate::text::{i32_to_string, spec_int_dec};

verus! {

/// How one dispatched run ended: cleanly with exit code zero, cleanly with a
/// failing exit code, or abnormally with no exit code at all (for instance
/// when a signal terminated the process).
#[derive(Clone, Copy, PartialEq, Eq, Structural)]
pub struct RunResult {
    pub succeeded: bool,
    pub exit_code: Option<i32>,
    pub signal: bool,
}

impl RunResult {
    /// A result as `classify_exit` produces it: the three fields agree.
    pub open spec fn wf(&self) -> bool {
        &&& self.succeeded == (self.exit_code == Some(0i32))
        &&& self.signal == (self.exit_code is None)
    }
}

/// Classifies the termination of the external run command from its exit
/// code: `None` stands for abnormal termination without a code.
pub fn classify_exit(code: Option<i32>) -> (r: RunResult)
    ensures
        r.succeeded == (code == Some(0i32)),
        r.exit_code == code,
        r.signal == (code is None),
        r.wf(),
{
    match code {
        Some(c) => RunResult { succeeded: c == 0, exit_code: Some(c), signal: false },
        None => RunResult { succeeded: false, exit_code: None, signal: true },
    }
}

/// The argument vector of one dispatch: the run subcommand, the
/// target-selection flag and the target's name, then the passthrough
/// arguments appended verbatim and in order.
pub open spec fn spec_run_args(name: Seq<char>, extra: Seq<Seq<char>>) -> Seq<Seq<char>> {
    seq!["run"@, "--example"@, name] + extra
}

/// Builds the argument vector for dispatching `name` with the passthrough
/// arguments `extra`.
pub fn run_args(name: &String, extra: &Vec<String>) -> (args: Vec<String>)
    ensures
        args.deep_view() == spec_run_args(name@, extra.deep_view()),
{
    let mut args: Vec<String> = Vec::new();
    args.push(String::from_str("run"));
    args.push(String::from_str("--example"));
    args.push(name.clone());
    let mut i: usize = 0;
    proof {
        assert(args.deep_view() =~= seq!["run"@, "--example"@, name@] + extra.deep_view().take(0));
    }
    while i < extra.len()
        invariant
            0 <= i <= extra@.len(),
            extra.deep_view().len() == extra@.len(),
            args.deep_view() == seq!["run"@, "--example"@, name@] + extra.deep_view().take(
                i as int,
            ),
        decreases extra@.len() - i,
    {
        let ghost old_args = args.deep_view();
        args.push(extra[i].clone());
        proof {
            assert(args.deep_view() =~= old_args.push(extra.deep_view()[i as int]));
            assert(old_args.push(extra.deep_view()[i as int]) =~= seq![
                "run"@,
                "--example"@,
                name@,
            ] + extra.deep_view().take(i + 1));
        }
        i = i + 1;
    }
    proof {
        assert(extra.deep_view().take(extra@.len() as int) =~= extra.deep_view());
        assert(args.deep_view() =~= spec_run_args(name@, extra.deep_view()));
    }
    args
}

/// The diagnostic for a finished run: nothing on success, the failing exit
/// code when there is one, and the abnormal-termination notice otherwise.
pub open spec fn spec_run_report(r: RunResult) -> Option<Seq<char>> {
    if r.succeeded {
        None
    } else {
        match r.exit_code {
            Some(c) => Some("run exited with failing code: "@ + spec_int_dec(c as int)),
            None => Some("run terminated abnormally, without an exit code"@),
        }
    }
}

/// Renders the diagnostic for a finished run, if it deserves one.
pub fn run_report(r: &RunResult) -> (m: Option<String>)
    ensures
        match m {
            Some(s) => spec_run_report(*r) == Some(s@),
            None => spec_run_report(*r) is None,
        },
{
    if r.succeeded {
        None
    } else {
        match r.exit_code {
            Some(c) => Some(
                String::from_str("run exited with failing code: ").concat(
                    i32_to_string(c).as_str(),
                ),
            ),
            None => Some(String::from_str("run terminated abnormally, without an exit code")),
        }
    }
}

/// Whether a failing dispatch aborts the rest of a batch. The default is
/// `FailFast`; `KeepGoing` is the explicit configuration point that reports
/// each failure and carries on.
#[derive(Clone, Copy, PartialEq, Eq, Structural)]
pub enum BatchPolicy {
    FailFast,
    KeepGoing,
}

/// A batch session over the extracted targets: each present target is
/// dispatched in order, and under `FailFast` an unsuccessful run aborts the
/// remainder.
pub struct BatchRun {
    pub names: Vec<String>,
    pub next: usize,
    pub aborted: bool,
    pub policy: BatchPolicy,
}

impl BatchRun {
    /// The cursor never passes the end of the batch.
    pub open spec fn wf(&self) -> bool {
        self.next <= self.names@.len()
    }

    /// The target owed a dispatch now, if any.
    pub open spec fn spec_current(&self) -> Option<Seq<char>> {
        if !self.aborted && self.next < self.names@.len() {
            Some(self.names@[self.next as int]@)
        } else {
            None
        }
    }

    /// The state after the outcome `r` of the current dispatch is recorded:
    /// the cursor advances, and a failure under `FailFast` aborts the rest.
    pub open spec fn spec_record(self, r: RunResult) -> BatchRun {
        BatchRun {
            next: (self.next + 1) as usize,
            aborted: self.aborted || (!r.succeeded && self.policy is FailFast),
            ..self
        }
    }

    /// Opens a batch over every present target of `targets`, in order.
    pub fn new(targets: &TargetList, policy: BatchPolicy) -> (b: BatchRun)
        ensures
            b.wf(),
            b.names.deep_view() == present_names(targets.slots@),
            b.next == 0,
            !b.aborted,
            b.policy == policy,
    {
        BatchRun { names: select_all(targets), next: 0, aborted: false, policy }
    }

    /// The target to dispatch now; `None` once the batch is done or aborted.
    pub fn current(&self) -> (r: Option<&String>)
        requires
            self.wf(),
        ensures
            match r {
                Some(n) => self.spec_current() == Some(n@),
                None => self.spec_current() is None,
            },
    {
        if !self.aborted && self.next < self.names.len() {
            Some(&self.names[self.next])
        } else {
            None
        }
    }

    /// Records the outcome of the dispatch of the current target.
    pub fn record(&mut self, r: RunResult)
        requires
            old(self).wf(),
            old(self).spec_current() is Some,
        ensures
            *final(self) == old(self).spec_record(r),
            final(self).wf(),
    {
        proof {
            assert(self.names@.len() == self.names.len());
        }
        self.next = self.next + 1;
        if !r.succeeded && matches!(self.policy, BatchPolicy::FailFast) {
            self.aborted = true;
        }
    }
}

/// Fail-fast law: a fail-fast batch over the names `[a, b, c]` owes the
/// dispatch of `a`, then of `b`; when the run of `b` ends abnormally, no
/// further dispatch is owed — `c` is never dispatched. (That each dispatch is
/// handed the same passthrough arguments is stated by `run_args`, which
/// forwards its `extra` argument verbatim for every name.)
pub proof fn lemma_batch_fail_fast(b0: BatchRun, ra: RunResult, rb: RunResult)
    requires
        b0.wf(),
        !b0.aborted,
        b0.next == 0,
        b0.policy is FailFast,
        b0.names@.len() == 3,
        ra.wf(),
        ra.succeeded,
        rb.wf(),
        rb.signal,
    ensures
        b0.spec_current() == Some(b0.names@[0]@),
        b0.spec_record(ra).spec_current() == Some(b0.names@[1]@),
        b0.spec_record(ra).spec_record(rb).spec_current() is None,
        b0.spec_record(ra).spec_record(rb).aborted,
{
}

} // verus!
