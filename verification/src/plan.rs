//! Commands, plan steps and plans, and their shell rendering.

use vstd::prelude::*;
use crate::text::{join_strings, join_with, owned, quote_for_shell, shell_quote};

verus! {

/// A program with its arguments.
#[derive(Debug, Clone, PartialEq, Eq)]
pub struct CommandSpec {
    program: String,
    args: Vec<String>,
}

/// A command taken by the characters of its program and arguments.
pub struct CommandView {
    pub program: Seq<char>,
    pub args: Seq<Seq<char>>,
}

impl View for CommandSpec {
    type V = CommandView;

    closed spec fn view(&self) -> CommandView {
        CommandView { program: self.program@, args: self.args.deep_view() }
    }
}

/// The shell words of a command: its program, then its arguments, each quoted.
pub open spec fn shell_words(c: CommandView) -> Seq<Seq<char>> {
    (seq![c.program] + c.args).map_values(|w: Seq<char>| shell_quote(w))
}

/// The command as one shell line: its quoted words joined by spaces.
pub open spec fn command_line(c: CommandView) -> Seq<char> {
    join_with(shell_words(c), " "@)
}

impl CommandSpec {
    /// The command `program args...`.
    pub fn new(program: String, args: Vec<String>) -> (r: Self)
        ensures
            r@ == (CommandView { program: program@, args: args.deep_view() }),
    {
        CommandSpec { program, args }
    }

    pub fn program(&self) -> (r: &str)
        ensures
            r@ == self@.program,
    {
        self.program.as_str()
    }

    pub fn args(&self) -> (r: &[String])
        ensures
            r@.len() == self@.args.len(),
            forall|i: int| 0 <= i < r@.len() ==> (#[trigger] r@[i])@ == self@.args[i],
    {
        self.args.as_slice()
    }

    /// A copy with the same program and arguments.
    pub fn duplicate(&self) -> (r: Self)
        ensures
            r@ == self@,
    {
        CommandSpec { program: self.program.clone(), args: self.args.clone() }
    }

    /// The command as a shell line, each word quoted where needed.
    pub fn as_shell(&self) -> (r: String)
        ensures
            r@ == command_line(self@),
    {
        let mut words: Vec<String> = Vec::new();
        words.push(quote_for_shell(self.program.as_str()));
        let n = self.args.len();
        let mut i: usize = 0;
        while i < n
            invariant
                n == self.args@.len(),
                i <= n,
                words@.len() == i + 1,
                forall|j: int|
                    0 <= j <= i ==> (#[trigger] words@[j])@ == shell_words(self@)[j],
            decreases n - i,
        {
            let q = quote_for_shell(self.args[i].as_str());
            words.push(q);
            i = i + 1;
        }
        proof {
            assert(words.deep_view() =~= shell_words(self@));
        }
        join_strings(&words, " ")
    }
}

/// When in the life of a lab a step runs.
#[derive(Debug, Clone, Copy, PartialEq, Eq, Structural)]
pub enum Stage {
    Bootstrap,
    Setup,
    Workload,
    Cleanup,
}

/// One described command of a plan; a best-effort step may fail without
/// stopping the plan.
#[derive(Debug, Clone, PartialEq, Eq)]
pub struct PlanStep {
    pub stage: Stage,
    pub description: String,
    pub command: CommandSpec,
    pub allow_failure: bool,
}

/// A step taken by views.
pub struct StepView {
    pub stage: Stage,
    pub description: Seq<char>,
    pub command: CommandView,
    pub allow_failure: bool,
}

impl View for PlanStep {
    type V = StepView;

    open spec fn view(&self) -> StepView {
        StepView {
            stage: self.stage,
            description: self.description@,
            command: self.command@,
            allow_failure: self.allow_failure,
        }
    }
}

/// A step that must succeed.
pub open spec fn strict_step(stage: Stage, description: Seq<char>, command: CommandView) -> StepView {
    StepView { stage, description, command, allow_failure: false }
}

/// A step whose failure is ignored.
pub open spec fn best_effort_step(stage: Stage, description: Seq<char>, command: CommandView) -> StepView {
    StepView { stage, description, command, allow_failure: true }
}

impl PlanStep {
    pub fn strict(stage: Stage, description: String, command: CommandSpec) -> (r: Self)
        ensures
            r@ == strict_step(stage, description@, command@),
    {
        PlanStep { stage, description, command, allow_failure: false }
    }

    pub fn best_effort(stage: Stage, description: String, command: CommandSpec) -> (r: Self)
        ensures
            r@ == best_effort_step(stage, description@, command@),
    {
        PlanStep { stage, description, command, allow_failure: true }
    }
}

/// An ordered list of steps.
#[derive(Debug, Clone, PartialEq, Eq)]
pub struct CommandPlan {
    steps: Vec<PlanStep>,
}

impl View for CommandPlan {
    type V = Seq<StepView>;

    closed spec fn view(&self) -> Seq<StepView> {
        self.steps@.map_values(|s: PlanStep| s@)
    }
}

/// The shell text of one step: a comment with its description, then its
/// command line, followed by `|| true` when failure is allowed.
pub open spec fn step_text(s: StepView) -> Seq<char> {
    "\n# "@ + s.description + "\n"@ + command_line(s.command) + (if s.allow_failure {
        " || true"@
    } else {
        Seq::empty()
    }) + "\n"@
}

/// The shell text of steps, one after the other.
pub open spec fn steps_text(steps: Seq<StepView>) -> Seq<char>
    decreases steps.len(),
{
    if steps.len() == 0 {
        Seq::empty()
    } else {
        steps_text(steps.drop_last()) + step_text(steps.last())
    }
}

/// A plan as a shell script: `set -eu`, then each step.
pub open spec fn script_text(steps: Seq<StepView>) -> Seq<char> {
    "set -eu\n"@ + steps_text(steps)
}

impl CommandPlan {
    pub fn new() -> (r: Self)
        ensures
            r@ == Seq::<StepView>::empty(),
    {
        let r = CommandPlan { steps: Vec::new() };
        proof { assert(r@ =~= Seq::<StepView>::empty()); }
        r
    }

    pub fn push(&mut self, step: PlanStep)
        ensures
            final(self)@ == old(self)@.push(step@),
    {
        self.steps.push(step);
        proof { assert(final(self)@ =~= old(self)@.push(step@)); }
    }

    pub fn extend(&mut self, other: CommandPlan)
        ensures
            final(self)@ == old(self)@ + other@,
    {
        let ghost added = other@;
        let mut other = other;
        self.steps.append(&mut other.steps);
        proof { assert(final(self)@ =~= old(self)@ + added); }
    }

    pub fn steps(&self) -> (r: &[PlanStep])
        ensures
            r@.len() == self@.len(),
            forall|i: int| 0 <= i < r@.len() ==> (#[trigger] r@[i])@ == self@[i],
    {
        self.steps.as_slice()
    }

    /// The plan as a shell script.
    pub fn render_shell(&self) -> (r: String)
        ensures
            r@ == script_text(self@),
    {
        let mut out = owned("set -eu\n");
        let n = self.steps.len();
        let mut i: usize = 0;
        while i < n
            invariant
                n == self.steps@.len(),
                i <= n,
                out@ == "set -eu\n"@ + steps_text(self@.take(i as int)),
            decreases n - i,
        {
            let step = &self.steps[i];
            out.append("\n# ");
            out.append(step.description.as_str());
            out.append("\n");
            let line = step.command.as_shell();
            out.append(line.as_str());
            if step.allow_failure {
                out.append(" || true");
            }
            out.append("\n");
            proof {
                let after = self@.take(i + 1);
                assert(after.drop_last() =~= self@.take(i as int));
                assert(after.last() == step@);
                assert(out@ =~= "set -eu\n"@ + steps_text(after));
            }
            i = i + 1;
        }
        proof { assert(self@.take(n as int) =~= self@); }
        out
    }
}

/// Law: the text of joined step lists is the text of each list in turn, so
/// rendering a plan extended by another appends the other's steps to the script.
pub proof fn lemma_steps_text_concat(a: Seq<StepView>, b: Seq<StepView>)
    ensures
        steps_text(a + b) == steps_text(a) + steps_text(b),
    decreases b.len(),
{
    if b.len() == 0 {
        assert(a + b =~= a);
        assert(steps_text(a) + steps_text(b) =~= steps_text(a));
    } else {
        lemma_steps_text_concat(a, b.drop_last());
        assert((a + b).drop_last() =~= a + b.drop_last());
        assert((a + b).last() == b.last());
        assert(steps_text(a + b) =~= steps_text(a) + steps_text(b));
    }
}

/// Law: rendering `p` extended by `q` gives the script of `p` followed by the
/// step text of `q`.
pub proof fn lemma_render_extend(p: Seq<StepView>, q: Seq<StepView>)
    ensures
        script_text(p + q) == script_text(p) + steps_text(q),
{
    lemma_steps_text_concat(p, q);
    assert(script_text(p + q) =~= script_text(p) + steps_text(q));
}

} // verus!
