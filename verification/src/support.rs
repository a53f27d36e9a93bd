//! Host readiness for namespace execution, and the decisions taken while a
//! plan runs step by step.

use vstd::prelude::*;
use crate::error::{FacilityError, FacilityErrorView, result_view};
use crate::plan::{CommandPlan, CommandSpec, StepView, command_line};
use crate::text::{owned, str_equal, trim, trimmed};

verus! {

/// What the host offers for running plans.
#[derive(Debug, Clone, PartialEq, Eq)]
pub struct SupportReport {
    pub os: &'static str,
    pub has_ip_command: bool,
    pub has_mount_command: bool,
    pub has_unshare_command: bool,
    pub has_proc_netns: bool,
    pub has_uid_map: bool,
    pub unprivileged_userns_restricted: Option<bool>,
}

/// Linux with `ip` and `/proc/self/ns/net`.
pub open spec fn ready_for_execution(r: SupportReport) -> bool {
    r.os@ == "linux"@ && r.has_ip_command && r.has_proc_netns
}

/// Ready for execution, with `mount`, `unshare` and `/proc/self/uid_map`, and
/// unprivileged user namespaces not known to be restricted.
pub open spec fn ready_for_rootless_bootstrap(r: SupportReport) -> bool {
    &&& ready_for_execution(r)
    &&& r.has_mount_command
    &&& r.has_unshare_command
    &&& r.has_uid_map
    &&& r.unprivileged_userns_restricted != Some(true)
}

/// `yes` or `no`.
pub open spec fn yes_no_text(value: bool) -> Seq<char> {
    if value {
        "yes"@
    } else {
        "no"@
    }
}

/// `yes`, `no` or `unknown`.
pub open spec fn option_yes_no_text(value: Option<bool>) -> Seq<char> {
    match value {
        Some(true) => "yes"@,
        Some(false) => "no"@,
        None => "unknown"@,
    }
}

/// The text of a report, one line per fact and one per readiness.
pub open spec fn report_text(r: SupportReport) -> Seq<char> {
    "os: "@ + r.os@ + "\nip command: "@ + yes_no_text(r.has_ip_command) + "\nmount command: "@
        + yes_no_text(r.has_mount_command) + "\nunshare command: "@ + yes_no_text(r.has_unshare_command)
        + "\n/proc/self/ns/net: "@ + yes_no_text(r.has_proc_netns) + "\n/proc/self/uid_map: "@
        + yes_no_text(r.has_uid_map) + "\nunprivileged userns restricted: "@ + option_yes_no_text(
        r.unprivileged_userns_restricted,
    ) + "\nready for namespace execution: "@ + yes_no_text(ready_for_execution(r))
        + "\nready for unprivileged rootless bootstrap: "@ + yes_no_text(ready_for_rootless_bootstrap(r))
}

fn yes_no(value: bool) -> (r: &'static str)
    ensures
        r@ == yes_no_text(value),
{
    if value {
        "yes"
    } else {
        "no"
    }
}

fn option_yes_no(value: Option<bool>) -> (r: &'static str)
    ensures
        r@ == option_yes_no_text(value),
{
    match value {
        Some(true) => "yes",
        Some(false) => "no",
        None => "unknown",
    }
}

impl SupportReport {
    pub fn is_ready_for_execution(&self) -> (r: bool)
        ensures
            r == ready_for_execution(*self),
    {
        str_equal(self.os, "linux") && self.has_ip_command && self.has_proc_netns
    }

    pub fn is_ready_for_rootless_bootstrap(&self) -> (r: bool)
        ensures
            r == ready_for_rootless_bootstrap(*self),
    {
        let restricted = match self.unprivileged_userns_restricted {
            Some(true) => true,
            _ => false,
        };
        self.is_ready_for_execution() && self.has_mount_command && self.has_unshare_command
            && self.has_uid_map && !restricted
    }

    pub fn render(&self) -> (r: String)
        ensures
            r@ == report_text(*self),
    {
        let mut s = owned("os: ");
        s.append(self.os);
        s.append("\nip command: ");
        s.append(yes_no(self.has_ip_command));
        s.append("\nmount command: ");
        s.append(yes_no(self.has_mount_command));
        s.append("\nunshare command: ");
        s.append(yes_no(self.has_unshare_command));
        s.append("\n/proc/self/ns/net: ");
        s.append(yes_no(self.has_proc_netns));
        s.append("\n/proc/self/uid_map: ");
        s.append(yes_no(self.has_uid_map));
        s.append("\nunprivileged userns restricted: ");
        s.append(option_yes_no(self.unprivileged_userns_restricted));
        s.append("\nready for namespace execution: ");
        s.append(yes_no(self.is_ready_for_execution()));
        s.append("\nready for unprivileged rootless bootstrap: ");
        s.append(yes_no(self.is_ready_for_rootless_bootstrap()));
        proof { assert(s@ =~= report_text(*self)); }
        s
    }
}

/// Law: a host ready for a rootless bootstrap is ready for namespace execution.
pub proof fn lemma_rootless_ready_implies_execution_ready(r: SupportReport)
    requires
        ready_for_rootless_bootstrap(r),
    ensures
        ready_for_execution(r),
{
}

/// What checking a report for namespace execution gives: the platform when
/// it is not Linux, `ip` when it is missing, the platform again when
/// `/proc/self/ns/net` is missing.
pub open spec fn namespace_support_result(r: SupportReport) -> Result<(), FacilityErrorView> {
    if r.os@ != "linux"@ {
        Err(FacilityErrorView::UnsupportedPlatform { current: r.os@ })
    } else if !r.has_ip_command {
        Err(FacilityErrorView::MissingCommand { command: "ip"@ })
    } else if !r.has_proc_netns {
        Err(FacilityErrorView::UnsupportedPlatform { current: r.os@ })
    } else {
        Ok(())
    }
}

/// What checking a report for a rootless bootstrap gives: the namespace
/// check first, then `mount`, `unshare`, and the uid map.
pub open spec fn rootless_support_result(r: SupportReport) -> Result<(), FacilityErrorView> {
    if namespace_support_result(r) is Err {
        namespace_support_result(r)
    } else if !r.has_mount_command {
        Err(FacilityErrorView::MissingCommand { command: "mount"@ })
    } else if !r.has_unshare_command {
        Err(FacilityErrorView::MissingCommand { command: "unshare"@ })
    } else if !r.has_uid_map {
        Err(FacilityErrorView::UnsupportedPlatform { current: r.os@ })
    } else {
        Ok(())
    }
}

/// Checks that the platform `os` is Linux, as reading the host's
/// namespaces and bridges needs.
pub fn ensure_linux(os: &'static str) -> (r: Result<(), FacilityError>)
    ensures
        result_view(r) == (if os@ == "linux"@ {
            Ok::<(), FacilityErrorView>(())
        } else {
            Err(FacilityErrorView::UnsupportedPlatform { current: os@ })
        }),
{
    if str_equal(os, "linux") {
        Ok(())
    } else {
        Err(FacilityError::UnsupportedPlatform { current: os })
    }
}

/// Checks that the host in `report` can run namespace plans.
pub fn ensure_linux_namespace_support(report: &SupportReport) -> (r: Result<(), FacilityError>)
    ensures
        result_view(r) == namespace_support_result(*report),
{
    if !str_equal(report.os, "linux") {
        return Err(FacilityError::UnsupportedPlatform { current: report.os });
    }
    if !report.has_ip_command {
        return Err(FacilityError::MissingCommand { command: "ip" });
    }
    if !report.has_proc_netns {
        return Err(FacilityError::UnsupportedPlatform { current: report.os });
    }
    Ok(())
}

/// Checks that the host in `report` can run a rootless bootstrap.
pub fn ensure_rootless_bootstrap_support(report: &SupportReport) -> (r: Result<(), FacilityError>)
    ensures
        result_view(r) == rootless_support_result(*report),
{
    match ensure_linux_namespace_support(report) {
        Err(e) => return Err(e),
        Ok(()) => {},
    }
    if !report.has_mount_command {
        return Err(FacilityError::MissingCommand { command: "mount" });
    }
    if !report.has_unshare_command {
        return Err(FacilityError::MissingCommand { command: "unshare" });
    }
    if !report.has_uid_map {
        return Err(FacilityError::UnsupportedPlatform { current: report.os });
    }
    Ok(())
}

/// Law: the namespace check accepts exactly the hosts ready for execution.
pub proof fn lemma_namespace_support_iff_ready(r: SupportReport)
    ensures
        namespace_support_result(r) is Ok <==> ready_for_execution(r),
{
}

/// Law: the rootless check accepts a host exactly when it is ready for
/// execution and has `mount`, `unshare` and a uid map.
pub proof fn lemma_rootless_support_iff(r: SupportReport)
    ensures
        rootless_support_result(r) is Ok <==> (ready_for_execution(r) && r.has_mount_command
            && r.has_unshare_command && r.has_uid_map),
{
}

/// A sysctl file's value: `0` is false, `1` is true, anything else unknown;
/// surrounding white space is ignored.
pub open spec fn bool_sysctl_value(text: Seq<char>) -> Option<bool> {
    if trim(text) == "0"@ {
        Some(false)
    } else if trim(text) == "1"@ {
        Some(true)
    } else {
        None
    }
}

/// Reads a boolean sysctl value from the text of its file.
pub fn parse_bool_sysctl(text: &str) -> (r: Option<bool>)
    ensures
        r == bool_sysctl_value(text@),
{
    let value = trimmed(text);
    if str_equal(value.as_str(), "0") {
        Some(false)
    } else if str_equal(value.as_str(), "1") {
        Some(true)
    } else {
        None
    }
}

/// How running one step's command went.
#[derive(Debug, Clone, PartialEq, Eq)]
pub enum StepOutcome {
    /// The command could not be started; `message` says why.
    SpawnFailed { message: String },
    /// The command ran and exited.
    Exited { success: bool, code: Option<i32>, stderr: String },
}

/// A step outcome taken by views.
pub enum StepOutcomeView {
    SpawnFailed { message: Seq<char> },
    Exited { success: bool, code: Option<i32>, stderr: Seq<char> },
}

impl View for StepOutcome {
    type V = StepOutcomeView;

    open spec fn view(&self) -> StepOutcomeView {
        match self {
            StepOutcome::SpawnFailed { message } => StepOutcomeView::SpawnFailed { message: message@ },
            StepOutcome::Exited { success, code, stderr } => StepOutcomeView::Exited {
                success: *success,
                code: *code,
                stderr: stderr@,
            },
        }
    }
}

/// What one step's outcome means for the plan: a command that could not be
/// started always stops it; a command that failed stops it unless the step
/// allows failure.
pub open spec fn step_error(step: StepView, outcome: StepOutcomeView) -> Option<FacilityErrorView> {
    match outcome {
        StepOutcomeView::SpawnFailed { message } => Some(FacilityErrorView::CommandFailed {
            command: command_line(step.command),
            code: None,
            stderr: message,
        }),
        StepOutcomeView::Exited { success, code, stderr } => if !success && !step.allow_failure {
            Some(FacilityErrorView::CommandFailed { command: command_line(step.command), code, stderr })
        } else {
            None
        },
    }
}

/// What a whole run gives when the steps' commands have the given outcomes:
/// the error of the first step that stops the plan, else success.
pub open spec fn run_result(steps: Seq<StepView>, outcomes: Seq<StepOutcomeView>) -> Result<(), FacilityErrorView>
    decreases steps.len(),
{
    if steps.len() == 0 || outcomes.len() == 0 {
        Ok(())
    } else {
        match step_error(steps[0], outcomes[0]) {
            Some(e) => Err(e),
            None => run_result(steps.drop_first(), outcomes.drop_first()),
        }
    }
}

/// Progress through a plan being applied: the position of the next step.
#[derive(Debug, Clone, Copy, PartialEq, Eq)]
pub struct PlanRun {
    next: usize,
}

impl View for PlanRun {
    type V = nat;

    closed spec fn view(&self) -> nat {
        self.next as nat
    }
}

/// Starts applying `plan` on the host described by `report`, once the host
/// is ready for namespace execution.
pub fn apply_plan(report: &SupportReport, plan: &CommandPlan) -> (r: Result<PlanRun, FacilityError>)
    ensures
        result_view(r) == (match namespace_support_result(*report) {
            Err(e) => Err(e),
            Ok(()) => Ok(0nat),
        }),
{
    match ensure_linux_namespace_support(report) {
        Err(e) => Err(e),
        Ok(()) => Ok(PlanRun { next: 0 }),
    }
}

/// Starts applying a bootstrap plan, once the host is ready for a rootless
/// bootstrap.
pub fn apply_rootless_bootstrap_plan(report: &SupportReport, plan: &CommandPlan) -> (r: Result<PlanRun, FacilityError>)
    ensures
        result_view(r) == (match rootless_support_result(*report) {
            Err(e) => Err(e),
            Ok(()) => Ok(0nat),
        }),
{
    match ensure_rootless_bootstrap_support(report) {
        Err(e) => Err(e),
        Ok(()) => Ok(PlanRun { next: 0 }),
    }
}

impl PlanRun {
    /// The command to run next, or `None` when every step has run.
    pub fn next_command<'a>(&self, plan: &'a CommandPlan) -> (r: Option<&'a CommandSpec>)
        ensures
            self@ < plan@.len() ==> (r matches Some(c) && c@ == plan@[self@ as int].command),
            self@ >= plan@.len() ==> r is None,
    {
        let steps = plan.steps();
        if self.next < steps.len() {
            Some(&steps[self.next].command)
        } else {
            None
        }
    }

    /// Records the outcome of the current step: the run moves to the next
    /// step, or stops with the step's error. Past the end nothing changes.
    pub fn record(self, plan: &CommandPlan, outcome: StepOutcome) -> (r: Result<PlanRun, FacilityError>)
        ensures
            self@ >= plan@.len() ==> result_view(r) == Ok::<nat, FacilityErrorView>(self@),
            self@ < plan@.len() ==> result_view(r) == (match step_error(plan@[self@ as int], outcome@) {
                Some(e) => Err(e),
                None => Ok(self@ + 1),
            }),
    {
        let steps = plan.steps();
        if self.next >= steps.len() {
            return Ok(self);
        }
        let step = &steps[self.next];
        match outcome {
            StepOutcome::SpawnFailed { message } => {
                Err(FacilityError::CommandFailed { command: step.command.as_shell(), code: None, stderr: message })
            },
            StepOutcome::Exited { success, code, stderr } => {
                if !success && !step.allow_failure {
                    Err(FacilityError::CommandFailed { command: step.command.as_shell(), code, stderr })
                } else {
                    Ok(PlanRun { next: self.next + 1 })
                }
            },
        }
    }
}

/// Law: recording the outcomes of a plan's steps one after another, from the
/// start, gives the result of the whole run: the first stopping step's
/// error, or success once every step has run.
pub proof fn lemma_run_by_steps(steps: Seq<StepView>, outcomes: Seq<StepOutcomeView>, k: nat)
    requires
        k <= steps.len(),
        outcomes.len() == steps.len(),
        forall|i: int| 0 <= i < k ==> step_error(#[trigger] steps[i], outcomes[i]) is None,
    ensures
        run_result(steps, outcomes) == run_result(steps.skip(k as int), outcomes.skip(k as int)),
        k == steps.len() ==> run_result(steps, outcomes) == Ok::<(), FacilityErrorView>(()),
        k < steps.len() ==> (step_error(steps[k as int], outcomes[k as int]) matches Some(e)
            ==> run_result(steps, outcomes) == Err::<(), FacilityErrorView>(e)),
    decreases k,
{
    if k > 0 {
        assert(step_error(steps[0], outcomes[0]) is None);
        let s1 = steps.drop_first();
        let o1 = outcomes.drop_first();
        assert forall|i: int| 0 <= i < k - 1 implies step_error(#[trigger] s1[i], o1[i]) is None by {
            assert(s1[i] == steps[i + 1]);
            assert(step_error(steps[i + 1], outcomes[i + 1]) is None);
        }
        lemma_run_by_steps(s1, o1, (k - 1) as nat);
        assert(s1.skip(k - 1) =~= steps.skip(k as int));
        assert(o1.skip(k - 1) =~= outcomes.skip(k as int));
        if k < steps.len() {
            assert(steps.skip(k as int)[0] == steps[k as int]);
            assert(outcomes.skip(k as int)[0] == outcomes[k as int]);
        }
    } else {
        assert(steps.skip(0) =~= steps);
        assert(outcomes.skip(0) =~= outcomes);
    }
}

} // verus!
