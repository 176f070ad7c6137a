//! The repair loop, as a step machine over plain values.
//!
//! The engine walks a plan one action at a time.  The caller performs
//! the outside work the engine asks for — run a command, or request a
//! fix suggestion — and hands the outcome back; every decision in
//! between is made here and verified.  A successful run settles the
//! current action; a failing run opens a bounded repair round that asks
//! the advisory service for a corrective command; an exhausted budget,
//! an advisory error or an unreadable suggestion settles the action
//! with its last failure and ends the whole plan (fail-fast).

use vstd::prelude::*;
use crate::model::CommandResult;
use crate::model::Skill;
use crate::model::TaskCommand;
use crate::skills::build_relevant_context_for_fix;
use crate::skills::fix_context_spec;
use crate::suggestion::extract_command_from_suggestion;
use crate::suggestion::suggestion_command;

verus! {

/// What the engine asks its caller to do next.
pub enum EngineStep {
    /// Run this command through the command runner and report the
    /// result with `on_run_result`.
    RunCommand { command: String },
    /// Ask the advisory service for a fix suggestion for this failure
    /// and report the answer with `on_fix_response`.
    RequestFix { command: String, exit_code: Option<i32>, stderr: String, hint: String },
    /// The plan is settled; collect the results.
    Finished,
}

enum EngineState {
    AwaitRun { command: String },
    AwaitFix { failed: CommandResult, hint: String },
    Done,
}

/// The repair loop's state: the plan, the skills the hints draw on, the
/// repair budget, and the results settled so far.
pub struct RepairEngine {
    plan: Vec<TaskCommand>,
    skills: Vec<Skill>,
    budget: u32,
    results: Vec<CommandResult>,
    retry: u32,
    state: EngineState,
}

impl RepairEngine {
    pub closed spec fn plan_spec(&self) -> Seq<TaskCommand> {
        self.plan@
    }

    pub closed spec fn skills_spec(&self) -> Seq<Skill> {
        self.skills@
    }

    pub closed spec fn budget_spec(&self) -> u32 {
        self.budget
    }

    pub closed spec fn results_spec(&self) -> Seq<CommandResult> {
        self.results@
    }

    /// How many fix requests have been issued for the action under work.
    pub closed spec fn retry_spec(&self) -> u32 {
        self.retry
    }

    pub closed spec fn awaiting_run(&self) -> bool {
        self.state is AwaitRun
    }

    pub closed spec fn awaiting_fix(&self) -> bool {
        self.state is AwaitFix
    }

    pub closed spec fn done(&self) -> bool {
        self.state is Done
    }

    /// The command whose run is owed, while one is.
    pub closed spec fn run_command_spec(&self) -> Seq<char> {
        match self.state {
            EngineState::AwaitRun { command } => command@,
            _ => Seq::empty(),
        }
    }

    /// The failure the owed fix request is about, while one is.
    pub closed spec fn failed_spec(&self) -> CommandResult {
        match self.state {
            EngineState::AwaitFix { failed, hint } => failed,
            _ => arbitrary(),
        }
    }

    /// The hint attached to the owed fix request, while one is.
    pub closed spec fn hint_spec(&self) -> Seq<char> {
        match self.state {
            EngineState::AwaitFix { failed, hint } => hint@,
            _ => Seq::empty(),
        }
    }

    /// The engine's invariant.  Results settle plan actions in order:
    /// while work remains every settled action succeeded, and once
    /// done, only the last result may be a failure — and the plan was
    /// cut short only on such a failure.
    pub open spec fn wf(&self) -> bool {
        &&& self.results_spec().len() <= self.plan_spec().len()
        &&& self.retry_spec() <= self.budget_spec()
        &&& ((self.awaiting_run() || self.awaiting_fix()) ==> self.results_spec().len()
            < self.plan_spec().len() && (forall|i: int|
            0 <= i < self.results_spec().len() ==> self.results_spec()[i].success))
        &&& (self.done() ==> (forall|i: int|
            0 <= i < self.results_spec().len() - 1 ==> self.results_spec()[i].success) && (
        self.results_spec().len() < self.plan_spec().len() ==> self.results_spec().len() > 0
            && !self.results_spec().last().success))
        &&& ((self.awaiting_run() && self.retry_spec() == 0) ==> self.run_command_spec()
            == self.plan_spec()[self.results_spec().len() as int].command@)
        &&& (self.awaiting_fix() ==> self.retry_spec() >= 1 && !self.failed_spec().success
            && self.hint_spec() == fix_context_spec(
            self.skills_spec(),
            self.failed_spec().command@,
        ))
    }

    /// Starts a plan: an empty plan is immediately done, otherwise the
    /// first action's own command is owed a run.
    pub fn new(plan: Vec<TaskCommand>, skills: Vec<Skill>, budget: u32) -> (e: RepairEngine)
        ensures
            e.wf(),
            e.plan_spec() == plan@,
            e.skills_spec() == skills@,
            e.budget_spec() == budget,
            e.results_spec() == Seq::<CommandResult>::empty(),
            e.retry_spec() == 0,
            plan@.len() == 0 ==> e.done(),
            plan@.len() > 0 ==> e.awaiting_run() && e.run_command_spec() == plan@[0].command@,
    {
        let state = if plan.len() == 0 {
            EngineState::Done
        } else {
            EngineState::AwaitRun { command: plan[0].command.clone() }
        };
        RepairEngine { plan, skills, budget, results: Vec::new(), retry: 0, state }
    }

    /// What the caller must do now.
    pub fn next_step(&self) -> (step: EngineStep)
        ensures
            match step {
                EngineStep::RunCommand { command } => self.awaiting_run() && command@
                    == self.run_command_spec(),
                EngineStep::RequestFix { command, exit_code, stderr, hint } => {
                    &&& self.awaiting_fix()
                    &&& command@ == self.failed_spec().command@
                    &&& exit_code == self.failed_spec().exit_code
                    &&& stderr@ == self.failed_spec().stderr@
                    &&& hint@ == self.hint_spec()
                },
                EngineStep::Finished => self.done(),
            },
    {
        match &self.state {
            EngineState::AwaitRun { command } => EngineStep::RunCommand {
                command: command.clone(),
            },
            EngineState::AwaitFix { failed, hint } => EngineStep::RequestFix {
                command: failed.command.clone(),
                exit_code: failed.exit_code,
                stderr: failed.stderr.clone(),
                hint: hint.clone(),
            },
            EngineState::Done => EngineStep::Finished,
        }
    }

    /// Takes the outcome of the owed run — the result must be for the
    /// command the engine asked to run.  Success settles the action and
    /// moves to the next one; a failure opens a repair round while the
    /// budget allows, and otherwise settles the action with the failure
    /// and ends the plan.
    pub fn on_run_result(&mut self, r: CommandResult)
        requires
            old(self).wf(),
            old(self).awaiting_run(),
            r.command@ == old(self).run_command_spec(),
        ensures
            final(self).wf(),
            final(self).plan_spec() == old(self).plan_spec(),
            final(self).skills_spec() == old(self).skills_spec(),
            final(self).budget_spec() == old(self).budget_spec(),
            r.success ==> {
                &&& final(self).results_spec() == old(self).results_spec().push(r)
                &&& final(self).retry_spec() == 0
                &&& (final(self).done() <==> final(self).results_spec().len()
                    == final(self).plan_spec().len())
                &&& (final(self).results_spec().len() < final(self).plan_spec().len()
                    ==> final(self).awaiting_run() && final(self).run_command_spec()
                    == final(self).plan_spec()[final(self).results_spec().len() as int].command@)
            },
            (!r.success && old(self).retry_spec() < old(self).budget_spec()) ==> {
                &&& final(self).awaiting_fix()
                &&& final(self).results_spec() == old(self).results_spec()
                &&& final(self).retry_spec() == old(self).retry_spec() + 1
                &&& final(self).failed_spec() == r
                &&& final(self).hint_spec() == fix_context_spec(old(self).skills_spec(), r.command@)
            },
            (!r.success && old(self).retry_spec() >= old(self).budget_spec()) ==> {
                &&& final(self).done()
                &&& final(self).results_spec() == old(self).results_spec().push(r)
            },
    {
        if r.success {
            self.results.push(r);
            self.retry = 0;
            if self.results.len() == self.plan.len() {
                self.state = EngineState::Done;
            } else {
                let command = self.plan[self.results.len()].command.clone();
                self.state = EngineState::AwaitRun { command };
            }
        } else if self.retry < self.budget {
            let hint = build_relevant_context_for_fix(self.skills.as_slice(), r.command.as_str());
            self.retry = self.retry + 1;
            self.state = EngineState::AwaitFix { failed: r, hint };
        } else {
            self.results.push(r);
            self.state = EngineState::Done;
        }
    }

    /// Takes the advisory service's answer to the owed fix request.  A
    /// readable suggestion owes a run of the extracted command; an
    /// advisory error (`None`) or a suggestion with no extractable
    /// command settles the action with its last failure and ends the
    /// plan.
    pub fn on_fix_response(&mut self, suggestion: Option<&str>)
        requires
            old(self).wf(),
            old(self).awaiting_fix(),
        ensures
            final(self).wf(),
            final(self).plan_spec() == old(self).plan_spec(),
            final(self).skills_spec() == old(self).skills_spec(),
            final(self).budget_spec() == old(self).budget_spec(),
            match suggestion {
                None => final(self).done() && final(self).results_spec()
                    == old(self).results_spec().push(old(self).failed_spec()),
                Some(s) => match suggestion_command(s@) {
                    None => final(self).done() && final(self).results_spec()
                        == old(self).results_spec().push(old(self).failed_spec()),
                    Some(c) => {
                        &&& final(self).awaiting_run()
                        &&& final(self).run_command_spec() == c
                        &&& final(self).results_spec() == old(self).results_spec()
                        &&& final(self).retry_spec() == old(self).retry_spec()
                    },
                },
            },
    {
        let failed: CommandResult = match &self.state {
            EngineState::AwaitFix { failed, hint } => failed.clone(),
            _ => {
                proof {
                    assert(false);
                }
                unreached()
            },
        };
        match suggestion {
            None => {
                self.results.push(failed);
                self.state = EngineState::Done;
            },
            Some(s) => match extract_command_from_suggestion(s) {
                None => {
                    self.results.push(failed);
                    self.state = EngineState::Done;
                },
                Some(command) => {
                    self.state = EngineState::AwaitRun { command };
                },
            },
        }
    }

    pub fn is_finished(&self) -> (r: bool)
        ensures
            r == self.done(),
    {
        match &self.state {
            EngineState::Done => true,
            _ => false,
        }
    }

    /// Hands the settled results out, in plan order.
    pub fn into_results(self) -> (r: Vec<CommandResult>)
        ensures
            r@ == self.results_spec(),
    {
        self.results
    }
}

/// A finished engine's results are a prefix of the plan by index: at
/// most one result per action in order, every result but possibly the
/// last a success, and the plan cut short only at a failing final
/// result.
pub proof fn lemma_execute_prefix(e: &RepairEngine)
    requires
        e.wf(),
        e.done(),
    ensures
        e.results_spec().len() <= e.plan_spec().len(),
        forall|i: int| 0 <= i < e.results_spec().len() - 1 ==> e.results_spec()[i].success,
        e.results_spec().len() < e.plan_spec().len() ==> !e.results_spec().last().success,
{
}

/// The advisory service is consulted at most `budget` times for one
/// action: each issued fix request raises the per-action request
/// count, and a request is only issued while the count is below the
/// budget.
pub proof fn lemma_fix_requests_bounded(e: &RepairEngine)
    requires
        e.wf(),
    ensures
        e.retry_spec() <= e.budget_spec(),
{
}

} // verus!
