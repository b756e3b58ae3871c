//! Deciding, per input, which matching rules to prepare and run, how to run
//! them, and what the outcome is once execution results come back.

use crate::error::RrrError;
use crate::rule_set::{all_quotable, prepared_command, rule_captures, Rule, RuleSet};
use vstd::prelude::*;

verus! {

/// How a prepared command is run.
#[derive(Debug, Clone, Copy, PartialEq, Eq, Structural)]
pub enum ExecutionType {
    /// Replace the current process with the shell running the command.
    Exec,
    /// Spawn the shell in a child process and go on without waiting.
    Fork,
    /// Spawn the shell, wait for it, and count a non-zero or abnormal exit
    /// as a failure.
    WaitSuccessSignalOk,
}

/// What the caller asked for when dispatching inputs.
#[derive(Debug, Clone, Copy)]
pub struct DispatchOptions {
    /// Only print the prepared command.
    pub query: bool,
    /// Match and prepare, but run nothing.
    pub dry_run: bool,
    /// Run commands in a child process.
    pub fork: bool,
    /// On a failed execution, try the next matching rule.
    pub fallback: bool,
}

/// The execution type for the options: waiting whenever fallback is asked
/// for (a replaced process could not report a failure back), else forking
/// or replacing the process.
pub open spec fn spec_execution_type(opts: DispatchOptions) -> ExecutionType {
    if opts.fallback {
        ExecutionType::WaitSuccessSignalOk
    } else if opts.fork {
        ExecutionType::Fork
    } else {
        ExecutionType::Exec
    }
}

/// The execution type for the options.
pub fn execution_type(opts: &DispatchOptions) -> (r: ExecutionType)
    ensures
        r == spec_execution_type(*opts),
{
    if opts.fallback {
        ExecutionType::WaitSuccessSignalOk
    } else if opts.fork {
        ExecutionType::Fork
    } else {
        ExecutionType::Exec
    }
}

/// What to do with one prepared rule.
#[derive(Debug)]
pub enum RuleStep {
    /// Print the command (query mode).
    Print(String),
    /// Do nothing (dry run).
    Skip,
    /// Run the command this way.
    Run { command: String, execution: ExecutionType },
}

/// Prepares a matched rule against the input and decides what to do with
/// the command: print it in query mode, nothing in a dry run, else run it.
pub fn process_rule(opts: &DispatchOptions, rule: &Rule, input: &str) -> (r: Result<
    RuleStep,
    RrrError,
>)
    requires
        rule.resolved is Some,
    ensures
        match rule_captures(*rule, input@) {
            None => r matches Err(e) && e is CaptureFailed,
            Some(caps) => {
                let command = prepared_command(rule.resolved_command().unwrap(), caps, input@);
                if all_quotable(caps) && !input@.contains('\0') {
                    if opts.query {
                        r matches Ok(RuleStep::Print(c)) && c@ == command
                    } else if opts.dry_run {
                        r matches Ok(RuleStep::Skip)
                    } else {
                        r matches Ok(RuleStep::Run { command: c, execution: t }) && c@ == command
                            && t == spec_execution_type(*opts)
                    }
                } else {
                    r matches Err(e) && e is UnquotableText
                }
            },
        },
{
    let prepared = rule.prepare(input)?;
    let command = match prepared.execution {
        Some(c) => c,
        None => {
            return Err(RrrError::NotPrepared);
        },
    };
    if opts.query {
        Ok(RuleStep::Print(command))
    } else if opts.dry_run {
        Ok(RuleStep::Skip)
    } else {
        Ok(RuleStep::Run { command, execution: execution_type(opts) })
    }
}

/// Whether a rule was executed, and how that went.
#[derive(Debug)]
pub struct ExecutionResult(pub Option<Result<(), String>>);

impl ExecutionResult {
    /// Nothing was executed (query or dry run).
    pub fn no_execution() -> (r: Self)
        ensures
            r.0 is None,
    {
        ExecutionResult(None)
    }

    /// The rule was executed with this result.
    pub fn with_execution(result: Result<(), String>) -> (r: Self)
        ensures
            r.0 == Some(result),
    {
        ExecutionResult(Some(result))
    }

    /// The result of the execution; success where nothing was executed.
    pub fn execution_result(self) -> (r: Result<(), String>)
        ensures
            r == match self.0 {
                Some(x) => x,
                None => Ok(()),
            },
    {
        match self.0 {
            Some(x) => x,
            None => Ok(()),
        }
    }
}

/// How the dispatch of one input ended.
#[derive(Debug, Clone, Copy, PartialEq, Eq, Structural)]
pub enum InputOutcome {
    /// No rule matched the input.
    NoMatch,
    /// Every candidate was processed without being executed.
    Done,
    /// A candidate was executed successfully.
    Succeeded,
    /// Execution failed: at once without fallback, or for every candidate
    /// with fallback.
    Failed,
}

/// The walk over the candidate rules of one input.
#[derive(Debug, Clone, Copy)]
pub struct InputDispatch {
    /// Whether a failed execution moves on to the next candidate.
    pub fallback: bool,
    /// How many candidates there are.
    pub candidates: usize,
    /// How many candidates have been processed.
    pub attempted: usize,
    /// How many executions failed.
    pub failed: usize,
    /// The outcome, once the walk has ended.
    pub outcome: Option<InputOutcome>,
}

/// The walk's state before any candidate is processed.
pub open spec fn dispatch_start(candidates: usize, fallback: bool) -> InputDispatch {
    InputDispatch {
        fallback,
        candidates,
        attempted: 0,
        failed: 0,
        outcome: if candidates == 0 {
            Some(InputOutcome::NoMatch)
        } else {
            None
        },
    }
}

/// The candidate to process next, if the walk has not ended.
pub open spec fn dispatch_next(d: InputDispatch) -> Option<usize> {
    if d.outcome is None {
        Some(d.attempted)
    } else {
        None
    }
}

/// The walk's state after the current candidate was processed: `executed`
/// is `None` where it was not executed, else whether execution succeeded.
pub open spec fn dispatch_step(d: InputDispatch, executed: Option<bool>) -> InputDispatch {
    let attempted = (d.attempted + 1) as usize;
    match executed {
        Some(true) => InputDispatch {
            attempted,
            outcome: Some(InputOutcome::Succeeded),
            ..d
        },
        Some(false) => InputDispatch {
            attempted,
            failed: (d.failed + 1) as usize,
            outcome: if !d.fallback || attempted == d.candidates {
                Some(InputOutcome::Failed)
            } else {
                None
            },
            ..d
        },
        None => InputDispatch {
            attempted,
            outcome: if attempted == d.candidates {
                if d.failed > 0 {
                    Some(InputOutcome::Failed)
                } else {
                    Some(InputOutcome::Done)
                }
            } else {
                None
            },
            ..d
        },
    }
}

/// What an execution result says of the execution.
pub open spec fn executed_kind(result: ExecutionResult) -> Option<bool> {
    match result.0 {
        None => None,
        Some(Ok(())) => Some(true),
        Some(Err(_)) => Some(false),
    }
}

impl InputDispatch {
    /// The walk's invariant: it is still going exactly while candidates are
    /// left, and failures never outnumber attempts.
    pub open spec fn wf(&self) -> bool {
        &&& self.attempted <= self.candidates
        &&& self.failed <= self.attempted
        &&& self.outcome is None ==> self.attempted < self.candidates
    }

    /// Starts the walk over `candidates` matching rules.
    pub fn new(candidates: usize, fallback: bool) -> (r: Self)
        ensures
            r == dispatch_start(candidates, fallback),
            r.wf(),
    {
        InputDispatch {
            fallback,
            candidates,
            attempted: 0,
            failed: 0,
            outcome: if candidates == 0 {
                Some(InputOutcome::NoMatch)
            } else {
                None
            },
        }
    }

    /// The index of the candidate to process next, if the walk has not ended.
    pub fn next_candidate(&self) -> (r: Option<usize>)
        ensures
            r == dispatch_next(*self),
    {
        if self.outcome.is_none() {
            Some(self.attempted)
        } else {
            None
        }
    }

    /// Records what came of processing the current candidate.
    pub fn record(&mut self, result: &ExecutionResult)
        requires
            old(self).wf(),
            old(self).outcome is None,
        ensures
            *final(self) == dispatch_step(*old(self), executed_kind(*result)),
            final(self).wf(),
    {
        let attempted = self.attempted + 1;
        match &result.0 {
            Some(Ok(())) => {
                self.attempted = attempted;
                self.outcome = Some(InputOutcome::Succeeded);
            },
            Some(Err(_)) => {
                self.attempted = attempted;
                self.failed = self.failed + 1;
                if !self.fallback || attempted == self.candidates {
                    self.outcome = Some(InputOutcome::Failed);
                }
            },
            None => {
                self.attempted = attempted;
                if attempted == self.candidates {
                    self.outcome = if self.failed > 0 {
                        Some(InputOutcome::Failed)
                    } else {
                        Some(InputOutcome::Done)
                    };
                }
            },
        }
    }
}

/// Fallback recovers from a failed execution: with two or more matching
/// rules, where the highest-priority one fails and the next one succeeds,
/// both are tried, in that order, and the input succeeds.
pub proof fn lemma_fallback_recovers(candidates: usize)
    requires
        candidates >= 2,
    ensures
        ({
            let d0 = dispatch_start(candidates, true);
            let d1 = dispatch_step(d0, Some(false));
            let d2 = dispatch_step(d1, Some(true));
            &&& dispatch_next(d0) == Some(0usize)
            &&& dispatch_next(d1) == Some(1usize)
            &&& d2.outcome == Some(InputOutcome::Succeeded)
            &&& d2.attempted == 2
            &&& d2.failed == 1
        }),
{
}

impl RuleSet {
    /// The rules to try for an input: every matching rule with fallback,
    /// else the single highest-priority one.
    pub fn candidates(&self, input: &str, fallback: bool) -> (r: Vec<&Rule>)
        ensures
            fallback ==> r@.map_values(|x: &Rule| *x) == self.spec_matches(input@),
            !fallback ==> r@.map_values(|x: &Rule| *x) == match self.spec_match_one(input@) {
                Some(x) => seq![x],
                None => Seq::<Rule>::empty(),
            },
    {
        let all = self.matches(input);
        if fallback {
            return all;
        }
        let mut one: Vec<&Rule> = Vec::new();
        if all.len() > 0 {
            assert(all@.map_values(|x: &Rule| *x)[0] == *all@[0]);
            one.push(all[0]);
        }
        assert(one@.map_values(|x: &Rule| *x) =~= match self.spec_match_one(input@) {
            Some(x) => seq![x],
            None => Seq::<Rule>::empty(),
        });
        one
    }
}

} // verus!
