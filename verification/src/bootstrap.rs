//! Rootless bootstrap: a plan that prepares bind-mount sources and then
//! re-runs an inner command inside fresh user, mount and network namespaces.

use vstd::prelude::*;
use crate::error::{FacilityError, FacilityErrorView, result_view};
use crate::plan::{CommandPlan, CommandSpec, CommandView, PlanStep, Stage, StepView, strict_step};
use crate::text::{decimal, describe, join_path, owned, path_join, push_decimal, ticked};

verus! {

/// Whether a bind mount mounts a file or a directory.
#[derive(Debug, Clone, Copy, PartialEq, Eq, Structural)]
pub enum BindMountKind {
    File,
    Directory,
}

/// A bind mount of `source` onto `target`.
#[derive(Debug, Clone, PartialEq, Eq)]
pub struct BindMount {
    source: String,
    target: String,
    read_only: bool,
    kind: BindMountKind,
}

/// A bind mount taken by views.
pub struct BindMountView {
    pub source: Seq<char>,
    pub target: Seq<char>,
    pub read_only: bool,
    pub kind: BindMountKind,
}

impl View for BindMount {
    type V = BindMountView;

    closed spec fn view(&self) -> BindMountView {
        BindMountView {
            source: self.source@,
            target: self.target@,
            read_only: self.read_only,
            kind: self.kind,
        }
    }
}

impl BindMount {
    pub fn file(source: String, target: String) -> (r: Self)
        ensures
            r@ == (BindMountView { source: source@, target: target@, read_only: false, kind: BindMountKind::File }),
    {
        BindMount { source, target, read_only: false, kind: BindMountKind::File }
    }

    pub fn directory(source: String, target: String) -> (r: Self)
        ensures
            r@ == (BindMountView { source: source@, target: target@, read_only: false, kind: BindMountKind::Directory }),
    {
        BindMount { source, target, read_only: false, kind: BindMountKind::Directory }
    }

    pub fn read_only_file(source: String, target: String) -> (r: Self)
        ensures
            r@ == (BindMountView { source: source@, target: target@, read_only: true, kind: BindMountKind::File }),
    {
        BindMount { source, target, read_only: true, kind: BindMountKind::File }
    }

    pub fn read_only_directory(source: String, target: String) -> (r: Self)
        ensures
            r@ == (BindMountView { source: source@, target: target@, read_only: true, kind: BindMountKind::Directory }),
    {
        BindMount { source, target, read_only: true, kind: BindMountKind::Directory }
    }

    pub fn source(&self) -> (r: &str)
        ensures
            r@ == self@.source,
    {
        self.source.as_str()
    }

    pub fn target(&self) -> (r: &str)
        ensures
            r@ == self@.target,
    {
        self.target.as_str()
    }

    pub fn kind(&self) -> (r: BindMountKind)
        ensures
            r == self@.kind,
    {
        self.kind
    }
}

/// What a rootless bootstrap prepares before entering its namespaces.
#[derive(Debug, Clone, PartialEq, Eq)]
pub struct RootlessBootstrap {
    scratch_dir: String,
    bind_mounts: Vec<BindMount>,
    precreate_files: Vec<String>,
    precreate_dirs: Vec<String>,
}

/// A bootstrap taken by views.
pub struct BootstrapView {
    pub scratch_dir: Seq<char>,
    pub bind_mounts: Seq<BindMountView>,
    pub precreate_files: Seq<Seq<char>>,
    pub precreate_dirs: Seq<Seq<char>>,
}

impl View for RootlessBootstrap {
    type V = BootstrapView;

    closed spec fn view(&self) -> BootstrapView {
        BootstrapView {
            scratch_dir: self.scratch_dir@,
            bind_mounts: self.bind_mounts@.map_values(|b: BindMount| b@),
            precreate_files: self.precreate_files.deep_view(),
            precreate_dirs: self.precreate_dirs.deep_view(),
        }
    }
}

/// `mkdir -p path`
pub open spec fn mkdir_command(path: Seq<char>) -> CommandView {
    CommandView { program: "mkdir"@, args: seq!["-p"@, path] }
}

/// `touch path`
pub open spec fn touch_command(path: Seq<char>) -> CommandView {
    CommandView { program: "touch"@, args: seq![path] }
}

/// The step that creates the source of a bind mount.
pub open spec fn bind_source_step(b: BindMountView) -> StepView {
    strict_step(
        Stage::Bootstrap,
        "create bind-mount source "@ + ticked(b.source),
        match b.kind {
            BindMountKind::File => touch_command(b.source),
            BindMountKind::Directory => mkdir_command(b.source),
        },
    )
}

/// The four positional arguments that describe a bind mount to the script.
pub open spec fn bind_args(b: BindMountView) -> Seq<Seq<char>> {
    seq![
        b.source,
        b.target,
        if b.read_only { "ro"@ } else { "rw"@ },
        match b.kind {
            BindMountKind::File => "file"@,
            BindMountKind::Directory => "dir"@,
        },
    ]
}

/// The positional arguments of all bind mounts, in order.
pub open spec fn all_bind_args(bs: Seq<BindMountView>) -> Seq<Seq<char>>
    decreases bs.len(),
{
    if bs.len() == 0 {
        Seq::empty()
    } else {
        all_bind_args(bs.drop_last()) + bind_args(bs.last())
    }
}

/// Text of the script before the bind-mount count.
pub open spec fn script_head() -> Seq<char> {
    "mount --make-rprivate /; i=0; while [ \"$i\" -lt "@
}

/// Text of the script after the bind-mount count.
pub open spec fn script_tail() -> Seq<char> {
    " ]; do src=\"$1\"; target=\"$2\"; mode=\"$3\"; kind=\"$4\"; shift 4; if [ \"$kind\" = dir ]; then mkdir -p \"$src\"; else mkdir -p \"$(dirname \"$src\")\"; touch \"$src\"; fi; mount --bind \"$src\" \"$target\"; if [ \"$mode\" = ro ]; then mount -o remount,bind,ro \"$target\"; fi; i=$((i + 1)); done; shift; exec \"$@\""@
}

/// The `sh -c` script that performs `count` bind mounts and then execs the rest.
pub open spec fn bootstrap_script_text(count: nat) -> Seq<char> {
    script_head() + decimal(count) + script_tail()
}

/// The `unshare` command that enters the namespaces and runs `inner` last.
pub open spec fn unshare_command_view(b: BootstrapView, inner: CommandView) -> CommandView {
    CommandView {
        program: "unshare"@,
        args: seq![
            "--user"@,
            "--map-root-user"@,
            "--mount"@,
            "--net"@,
            "--fork"@,
            "--"@,
            "sh"@,
            "-eu"@,
            "-c"@,
            bootstrap_script_text(b.bind_mounts.len()),
            "virtualfacility-bootstrap"@,
        ] + all_bind_args(b.bind_mounts) + seq!["--"@, inner.program] + inner.args,
    }
}

/// The steps of a bootstrap plan: the scratch directory, the directories and
/// files to precreate, each bind-mount source, and finally the namespace entry.
pub open spec fn bootstrap_steps(b: BootstrapView, inner: CommandView) -> Seq<StepView> {
    seq![strict_step(Stage::Bootstrap, "create bootstrap scratch directory "@ + ticked(b.scratch_dir), mkdir_command(b.scratch_dir))]
        + b.precreate_dirs.map_values(|d: Seq<char>| strict_step(Stage::Bootstrap, "create bootstrap directory "@ + ticked(d), mkdir_command(d)))
        + b.precreate_files.map_values(|f: Seq<char>| strict_step(Stage::Bootstrap, "create bootstrap file "@ + ticked(f), touch_command(f)))
        + b.bind_mounts.map_values(|m: BindMountView| bind_source_step(m))
        + seq![strict_step(Stage::Bootstrap, "enter rootless user, mount, and network namespaces"@, unshare_command_view(b, inner))]
}

fn mkdir_spec(path: &str) -> (r: CommandSpec)
    ensures
        r@ == mkdir_command(path@),
{
    let args = vec![owned("-p"), owned(path)];
    let r = CommandSpec::new(owned("mkdir"), args);
    proof { assert(r@.args =~= mkdir_command(path@).args); }
    r
}

fn touch_spec(path: &str) -> (r: CommandSpec)
    ensures
        r@ == touch_command(path@),
{
    let args = vec![owned(path)];
    let r = CommandSpec::new(owned("touch"), args);
    proof { assert(r@.args =~= touch_command(path@).args); }
    r
}

impl RootlessBootstrap {
    pub fn new(scratch_dir: String) -> (r: Self)
        ensures
            r@ == (BootstrapView {
                scratch_dir: scratch_dir@,
                bind_mounts: Seq::empty(),
                precreate_files: Seq::empty(),
                precreate_dirs: Seq::empty(),
            }),
    {
        let r = RootlessBootstrap {
            scratch_dir,
            bind_mounts: Vec::new(),
            precreate_files: Vec::new(),
            precreate_dirs: Vec::new(),
        };
        proof {
            assert(r@.bind_mounts =~= Seq::<BindMountView>::empty());
            assert(r@.precreate_files =~= Seq::<Seq<char>>::empty());
            assert(r@.precreate_dirs =~= Seq::<Seq<char>>::empty());
        }
        r
    }

    pub fn with_bind_mount(self, bind: BindMount) -> (r: Self)
        ensures
            r@ == (BootstrapView { bind_mounts: self@.bind_mounts.push(bind@), ..self@ }),
    {
        let mut s = self;
        s.bind_mounts.push(bind);
        proof {
            assert(s@.bind_mounts =~= self@.bind_mounts.push(bind@));
            assert(s@.precreate_files =~= self@.precreate_files);
            assert(s@.precreate_dirs =~= self@.precreate_dirs);
        }
        s
    }

    pub fn with_precreated_file(self, path: String) -> (r: Self)
        ensures
            r@ == (BootstrapView { precreate_files: self@.precreate_files.push(path@), ..self@ }),
    {
        let mut s = self;
        s.precreate_files.push(path);
        proof {
            assert(s@.bind_mounts =~= self@.bind_mounts);
            assert(s@.precreate_files =~= self@.precreate_files.push(path@));
            assert(s@.precreate_dirs =~= self@.precreate_dirs);
        }
        s
    }

    pub fn with_precreated_dir(self, path: String) -> (r: Self)
        ensures
            r@ == (BootstrapView { precreate_dirs: self@.precreate_dirs.push(path@), ..self@ }),
    {
        let mut s = self;
        s.precreate_dirs.push(path);
        proof {
            assert(s@.bind_mounts =~= self@.bind_mounts);
            assert(s@.precreate_files =~= self@.precreate_files);
            assert(s@.precreate_dirs =~= self@.precreate_dirs.push(path@));
        }
        s
    }

    /// Adds a writable file bind mount of `<scratch>/xtables.lock` on `/run/xtables.lock`.
    pub fn with_xtables_lock(self) -> (r: Self)
        ensures
            r@ == (BootstrapView {
                bind_mounts: self@.bind_mounts.push(BindMountView {
                    source: path_join(self@.scratch_dir, "xtables.lock"@),
                    target: "/run/xtables.lock"@,
                    read_only: false,
                    kind: BindMountKind::File,
                }),
                ..self@
            }),
    {
        let source = join_path(self.scratch_dir.as_str(), "xtables.lock");
        let bind = BindMount::file(source, owned("/run/xtables.lock"));
        self.with_bind_mount(bind)
    }

    /// Adds a writable directory bind mount of `<scratch>/netns` on `/var/run/netns`.
    pub fn with_ip_netns_dir(self) -> (r: Self)
        ensures
            r@ == (BootstrapView {
                bind_mounts: self@.bind_mounts.push(BindMountView {
                    source: path_join(self@.scratch_dir, "netns"@),
                    target: "/var/run/netns"@,
                    read_only: false,
                    kind: BindMountKind::Directory,
                }),
                ..self@
            }),
    {
        let source = join_path(self.scratch_dir.as_str(), "netns");
        let bind = BindMount::directory(source, owned("/var/run/netns"));
        self.with_bind_mount(bind)
    }

    /// Precreates `<scratch>/run/xtables.lock` and `<scratch>/run/netns`, and
    /// bind-mounts `<scratch>/run` on `/run`.
    pub fn with_standard_mounts(self) -> (r: Self)
        ensures
            ({
                let run = path_join(self@.scratch_dir, "run"@);
                r@ == (BootstrapView {
                    scratch_dir: self@.scratch_dir,
                    precreate_files: self@.precreate_files.push(path_join(run, "xtables.lock"@)),
                    precreate_dirs: self@.precreate_dirs.push(path_join(run, "netns"@)),
                    bind_mounts: self@.bind_mounts.push(BindMountView {
                        source: run,
                        target: "/run"@,
                        read_only: false,
                        kind: BindMountKind::Directory,
                    }),
                })
            }),
    {
        let run_dir = join_path(self.scratch_dir.as_str(), "run");
        let lock = join_path(run_dir.as_str(), "xtables.lock");
        let netns = join_path(run_dir.as_str(), "netns");
        let bind = BindMount::directory(run_dir, owned("/run"));
        self.with_precreated_file(lock).with_precreated_dir(netns).with_bind_mount(bind)
    }

    /// The plan that prepares the bind-mount sources and runs `inner` inside
    /// new user, mount and network namespaces; refused when `inner` names no
    /// program.
    pub fn bootstrap_plan(&self, inner: CommandSpec) -> (r: Result<CommandPlan, FacilityError>)
        ensures
            result_view(r) == (if inner@.program.len() == 0 {
                Err(FacilityErrorView::EmptyCommand { context: "bootstrap inner"@ })
            } else {
                Ok(bootstrap_steps(self@, inner@))
            }),
    {
        if inner.program().is_empty() {
            return Err(FacilityError::EmptyCommand { context: "bootstrap inner" });
        }
        let ghost b = self@;
        let ghost inner_view = inner@;
        let mut plan = CommandPlan::new();
        plan.push(PlanStep::strict(
            Stage::Bootstrap,
            describe("create bootstrap scratch directory ", self.scratch_dir.as_str()),
            mkdir_spec(self.scratch_dir.as_str()),
        ));
        let ghost head = plan@;
        let nd = self.precreate_dirs.len();
        let mut i: usize = 0;
        while i < nd
            invariant
                b == self@,
                nd == b.precreate_dirs.len(),
                i <= nd,
                plan@ == head + bootstrap_steps(b, inner_view).subrange(1, 1 + i as int),
            decreases nd - i,
        {
            let dir = &self.precreate_dirs[i];
            plan.push(PlanStep::strict(
                Stage::Bootstrap,
                describe("create bootstrap directory ", dir.as_str()),
                mkdir_spec(dir.as_str()),
            ));
            proof {
                assert(bootstrap_steps(b, inner_view)[1 + i as int] == strict_step(
                    Stage::Bootstrap,
                    "create bootstrap directory "@ + ticked(b.precreate_dirs[i as int]),
                    mkdir_command(b.precreate_dirs[i as int]),
                ));
                assert(plan@ =~= head + bootstrap_steps(b, inner_view).subrange(1, 1 + i + 1));
            }
            i = i + 1;
        }
        let nf = self.precreate_files.len();
        let mut j: usize = 0;
        while j < nf
            invariant
                b == self@,
                nd == b.precreate_dirs.len(),
                nf == b.precreate_files.len(),
                j <= nf,
                plan@ == head + bootstrap_steps(b, inner_view).subrange(1, 1 + nd + j as int),
            decreases nf - j,
        {
            let file = &self.precreate_files[j];
            plan.push(PlanStep::strict(
                Stage::Bootstrap,
                describe("create bootstrap file ", file.as_str()),
                touch_spec(file.as_str()),
            ));
            proof {
                assert(bootstrap_steps(b, inner_view)[1 + nd + j as int] == strict_step(
                    Stage::Bootstrap,
                    "create bootstrap file "@ + ticked(b.precreate_files[j as int]),
                    touch_command(b.precreate_files[j as int]),
                ));
                assert(plan@ =~= head + bootstrap_steps(b, inner_view).subrange(1, 1 + nd + j + 1));
            }
            j = j + 1;
        }
        let nb = self.bind_mounts.len();
        let mut k: usize = 0;
        while k < nb
            invariant
                b == self@,
                nd == b.precreate_dirs.len(),
                nf == b.precreate_files.len(),
                nb == b.bind_mounts.len(),
                k <= nb,
                plan@ == head + bootstrap_steps(b, inner_view).subrange(1, 1 + nd + nf + k as int),
            decreases nb - k,
        {
            let bind = &self.bind_mounts[k];
            let command = match bind.kind {
                BindMountKind::File => touch_spec(bind.source.as_str()),
                BindMountKind::Directory => mkdir_spec(bind.source.as_str()),
            };
            plan.push(PlanStep::strict(
                Stage::Bootstrap,
                describe("create bind-mount source ", bind.source.as_str()),
                command,
            ));
            proof {
                assert(b.bind_mounts[k as int] == bind@);
                assert(bootstrap_steps(b, inner_view)[1 + nd + nf + k as int] == bind_source_step(bind@));
                assert(plan@ =~= head + bootstrap_steps(b, inner_view).subrange(1, 1 + nd + nf + k + 1));
            }
            k = k + 1;
        }
        let entry = self.unshare_command(inner);
        plan.push(PlanStep::strict(
            Stage::Bootstrap,
            owned("enter rootless user, mount, and network namespaces"),
            entry,
        ));
        proof {
            assert(plan@ =~= bootstrap_steps(b, inner_view));
        }
        Ok(plan)
    }

    fn unshare_command(&self, inner: CommandSpec) -> (r: CommandSpec)
        ensures
            r@ == unshare_command_view(self@, inner@),
    {
        let mut args = vec![
            owned("--user"),
            owned("--map-root-user"),
            owned("--mount"),
            owned("--net"),
            owned("--fork"),
            owned("--"),
            owned("sh"),
            owned("-eu"),
            owned("-c"),
            self.bootstrap_script(),
            owned("virtualfacility-bootstrap"),
        ];
        let ghost fixed = args.deep_view();
        assert(fixed =~= unshare_command_view(self@, inner@).args.take(11));
        let nb = self.bind_mounts.len();
        let mut k: usize = 0;
        while k < nb
            invariant
                nb == self@.bind_mounts.len(),
                k <= nb,
                args.deep_view() == fixed + all_bind_args(self@.bind_mounts.take(k as int)),
            decreases nb - k,
        {
            let bind = &self.bind_mounts[k];
            let ghost before = args.deep_view();
            args.push(bind.source.clone());
            assert(args.deep_view() =~= before.push(bind@.source));
            args.push(bind.target.clone());
            args.push(if bind.read_only { owned("ro") } else { owned("rw") });
            args.push(
                match bind.kind {
                    BindMountKind::File => owned("file"),
                    BindMountKind::Directory => owned("dir"),
                },
            );
            proof {
                let after = self@.bind_mounts.take(k + 1);
                assert(after.drop_last() =~= self@.bind_mounts.take(k as int));
                assert(after.last() == bind@);
                assert(all_bind_args(after) == all_bind_args(self@.bind_mounts.take(k as int)) + bind_args(bind@));
                assert(args.deep_view() =~= before + bind_args(bind@));
                assert(args.deep_view() =~= fixed + all_bind_args(after));
            }
            k = k + 1;
        }
        let ghost after_binds = args.deep_view();
        args.push(owned("--"));
        args.push(owned(inner.program()));
        let ghost before_inner = args.deep_view();
        assert(before_inner =~= after_binds + seq!["--"@, inner@.program]);
        let inner_args = inner.args();
        let na = inner_args.len();
        let mut m: usize = 0;
        while m < na
            invariant
                na == inner@.args.len(),
                inner_args@.len() == na,
                forall|i: int| 0 <= i < na ==> (#[trigger] inner_args@[i])@ == inner@.args[i],
                m <= na,
                args.deep_view() == before_inner + inner@.args.take(m as int),
            decreases na - m,
        {
            let ghost before = args.deep_view();
            args.push(inner_args[m].clone());
            assert(args.deep_view() =~= before.push(inner@.args[m as int]));
            proof {
                assert(args.deep_view() =~= before_inner + inner@.args.take(m + 1));
            }
            m = m + 1;
        }
        proof {
            assert(self@.bind_mounts.take(nb as int) =~= self@.bind_mounts);
            assert(inner@.args.take(na as int) =~= inner@.args);
            let full = unshare_command_view(self@, inner@).args;
            assert(full =~= fixed + all_bind_args(self@.bind_mounts) + seq!["--"@, inner@.program] + inner@.args);
            assert(args.deep_view() =~= unshare_command_view(self@, inner@).args);
        }
        CommandSpec::new(owned("unshare"), args)
    }

    fn bootstrap_script(&self) -> (r: String)
        ensures
            r@ == bootstrap_script_text(self@.bind_mounts.len()),
    {
        let mut s = owned("mount --make-rprivate /; i=0; while [ \"$i\" -lt ");
        push_decimal(&mut s, self.bind_mounts.len());
        s.append(" ]; do src=\"$1\"; target=\"$2\"; mode=\"$3\"; kind=\"$4\"; shift 4; if [ \"$kind\" = dir ]; then mkdir -p \"$src\"; else mkdir -p \"$(dirname \"$src\")\"; touch \"$src\"; fi; mount --bind \"$src\" \"$target\"; if [ \"$mode\" = ro ]; then mount -o remount,bind,ro \"$target\"; fi; i=$((i + 1)); done; shift; exec \"$@\"");
        proof { assert(s@ =~= bootstrap_script_text(self@.bind_mounts.len())); }
        s
    }
}

/// Law: the last step of a bootstrap plan enters the namespaces and ends with
/// `-- <inner program> <inner args...>`, so the inner command is what finally runs.
pub proof fn lemma_bootstrap_runs_inner_last(b: BootstrapView, inner: CommandView)
    ensures
        ({
            let steps = bootstrap_steps(b, inner);
            let last = steps.last().command.args;
            &&& steps.len() == 2 + b.precreate_dirs.len() + b.precreate_files.len() + b.bind_mounts.len()
            &&& steps.last().command.program == "unshare"@
            &&& last.subrange(last.len() - inner.args.len() - 2, last.len() as int)
                == seq!["--"@, inner.program] + inner.args
        }),
{
    let steps = bootstrap_steps(b, inner);
    let last = steps.last().command.args;
    assert(last.subrange(last.len() - inner.args.len() - 2, last.len() as int) =~= seq!["--"@, inner.program] + inner.args);
}

} // verus!
