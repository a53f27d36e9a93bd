//! Commands run in the foreground (`ping`, `exec`), the context `use`
//! saves, and the node `create node` acts on.

use vstd::prelude::*;
use crate::cli::{
    arg_views, default_bridge_for_name, default_bridge_spec, explicit_bridge, flag_value_spec,
    ContextView, FacilityContext,
};
use crate::commands::{extra_args_message, extra_args_text, tail_from};
use crate::error::{FacilityError, FacilityErrorView};
use crate::model::{pod_ip, pod_netns, pod_position, lemma_pod_position};
use crate::net::ipv4_text;
use crate::plan::{CommandSpec, CommandView};
use crate::support::{StepOutcome, StepOutcomeView};
use crate::text::{join_with, owned, str_equal};
use crate::topology::{Topology};

verus! {

/// The command as it is shown: the program and its arguments joined by
/// spaces, unquoted.
pub open spec fn plain_line(c: CommandView) -> Seq<char> {
    join_with(seq![c.program] + c.args, " "@)
}

/// The program and its arguments joined by spaces.
pub fn plain_command_line(command: &CommandSpec) -> (r: String)
    ensures
        r@ == plain_line(command@),
{
    let mut words: Vec<String> = Vec::new();
    words.push(owned(command.program()));
    let args = command.args();
    let n = args.len();
    let mut i: usize = 0;
    while i < n
        invariant
            n == command@.args.len(),
            args@.len() == n,
            forall|j: int| 0 <= j < n ==> (#[trigger] args@[j])@ == command@.args[j],
            i <= n,
            words.deep_view() == seq![command@.program] + command@.args.take(i as int),
        decreases n - i,
    {
        let ghost before = words.deep_view();
        words.push(args[i].clone());
        proof {
            assert(words.deep_view() =~= before.push(command@.args[i as int]));
            assert(seq![command@.program] + command@.args.take(i + 1) =~= before.push(command@.args[i as int]));
        }
        i = i + 1;
    }
    proof { assert(command@.args.take(n as int) =~= command@.args); }
    crate::text::join_strings(&words, " ")
}

/// What running a command in the foreground gives: a command that could not
/// be started, or that exited unsuccessfully, is an error naming it as shown.
pub open spec fn foreground_result(display: Seq<char>, outcome: StepOutcomeView) -> Result<(), FacilityErrorView> {
    match outcome {
        StepOutcomeView::SpawnFailed { message } => Err(FacilityErrorView::CommandFailed {
            command: display,
            code: None,
            stderr: message,
        }),
        StepOutcomeView::Exited { success, code, stderr } => if success {
            Ok(())
        } else {
            Err(FacilityErrorView::CommandFailed { command: display, code, stderr: "command exited unsuccessfully"@ })
        },
    }
}

pub fn foreground_outcome(display: String, outcome: StepOutcome) -> (r: Result<(), FacilityError>)
    ensures
        crate::error::result_view(r) == foreground_result(display@, outcome@),
{
    match outcome {
        StepOutcome::SpawnFailed { message } => Err(FacilityError::CommandFailed { command: display, code: None, stderr: message }),
        StepOutcome::Exited { success, code, stderr } => {
            if success {
                Ok(())
            } else {
                Err(FacilityError::CommandFailed { command: display, code, stderr: owned("command exited unsuccessfully") })
            }
        },
    }
}

/// The pod `ping` starts from: the first argument, else `client`.
pub open spec fn ping_source(op: Seq<Seq<char>>) -> Seq<char> {
    if op.len() > 0 { op[0] } else { "client"@ }
}

/// The pod `ping` reaches for: the second argument, else `server`.
pub open spec fn ping_target(op: Seq<Seq<char>>) -> Seq<char> {
    if op.len() > 1 { op[1] } else { "server"@ }
}

/// What `ping` announces and runs: one ping from the source pod's namespace
/// to the target pod's address; an unknown source or target is an error,
/// the source checked first.
pub open spec fn ping_request_spec(t: crate::model::TopologyView, op: Seq<Seq<char>>) -> Result<(Seq<char>, CommandView), FacilityErrorView> {
    let source = ping_source(op);
    let target = ping_target(op);
    match pod_position(t.pods, source) {
        None => Err(FacilityErrorView::UnknownPod { name: source }),
        Some(i) => match pod_position(t.pods, target) {
            None => Err(FacilityErrorView::UnknownPod { name: target }),
            Some(j) => {
                let ip = ipv4_text(pod_ip(t.pods[j]));
                Ok((
                    "pinging "@ + source + " -> "@ + target + " ("@ + ip + ")"@,
                    CommandView {
                        program: "ip"@,
                        args: seq!["netns"@, "exec"@, pod_netns(t.name, t.pods[i].name), "ping"@, "-c"@, "1"@, ip],
                    },
                ))
            },
        },
    }
}

/// The announcement and the command of `ping` with operation arguments `op_args`.
pub fn ping_request(topology: &Topology, op_args: &Vec<String>) -> (r: Result<(String, CommandSpec), FacilityError>)
    ensures
        match r {
            Ok((m, c)) => ping_request_spec(topology@, op_args.deep_view()) == Ok::<(Seq<char>, CommandView), FacilityErrorView>((m@, c@)),
            Err(e) => ping_request_spec(topology@, op_args.deep_view()) == Err::<(Seq<char>, CommandView), FacilityErrorView>(e@),
        },
{
    let ghost op = op_args.deep_view();
    let source = if op_args.len() > 0 { op_args[0].clone() } else { owned("client") };
    let target = if op_args.len() > 1 { op_args[1].clone() } else { owned("server") };
    proof {
        if op.len() > 0 { assert(op[0] == op_args@[0]@); }
        if op.len() > 1 { assert(op[1] == op_args@[1]@); }
    }
    let source_ns = match topology.pod_namespace(source.as_str()) {
        Ok(ns) => ns,
        Err(e) => return Err(e),
    };
    let ip = match topology.resolve(target.as_str()) {
        Some(ip) => ip,
        None => return Err(FacilityError::UnknownPod { name: target }),
    };
    proof { lemma_pod_position(topology@.pods, source@); }
    let ip_text = ip.dotted();
    let mut message = owned("pinging ");
    message.append(source.as_str());
    message.append(" -> ");
    message.append(target.as_str());
    message.append(" (");
    message.append(ip_text.as_str());
    message.append(")");
    let args = vec![owned("netns"), owned("exec"), source_ns, owned("ping"), owned("-c"), owned("1"), ip_text];
    let command = CommandSpec::new(owned("ip"), args);
    proof {
        assert(command@.args =~= seq!["netns"@, "exec"@, args@[2]@, "ping"@, "-c"@, "1"@, args@[6]@]);
    }
    Ok((message, command))
}

/// The command words of `exec`: the arguments after the pod, without a
/// leading `--`; none when the pod or the command is missing.
pub open spec fn exec_words(op: Seq<Seq<char>>) -> Option<Seq<Seq<char>>> {
    if op.len() < 2 {
        None
    } else {
        let rest = if op[1] == "--"@ { op.skip(2) } else { op.skip(1) };
        if rest.len() == 0 { None } else { Some(rest) }
    }
}

/// What `exec` runs: the command inside the pod's namespace, or the error of
/// an unknown pod; nothing when the arguments do not name a pod and a
/// command.
pub open spec fn exec_request_spec(t: crate::model::TopologyView, op: Seq<Seq<char>>) -> Option<Result<CommandView, FacilityErrorView>> {
    match exec_words(op) {
        None => None,
        Some(words) => Some(match pod_position(t.pods, op[0]) {
            Some(i) => Ok(CommandView { program: "ip"@, args: seq!["netns"@, "exec"@, pod_netns(t.name, t.pods[i].name)] + words }),
            None => Err(FacilityErrorView::UnknownPod { name: op[0] }),
        }),
    }
}

pub fn exec_request(topology: &Topology, op_args: &Vec<String>) -> (r: Option<Result<CommandSpec, FacilityError>>)
    ensures
        match r {
            None => exec_request_spec(topology@, op_args.deep_view()) is None,
            Some(Ok(c)) => exec_request_spec(topology@, op_args.deep_view()) == Some(Ok::<CommandView, FacilityErrorView>(c@)),
            Some(Err(e)) => exec_request_spec(topology@, op_args.deep_view()) == Some(Err::<CommandView, FacilityErrorView>(e@)),
        },
{
    let ghost op = op_args.deep_view();
    if op_args.len() < 2 {
        return None;
    }
    proof {
        assert(op[0] == op_args@[0]@);
        assert(op[1] == op_args@[1]@);
    }
    let skip: usize = if str_equal(op_args[1].as_str(), "--") { 2 } else { 1 };
    let words = tail_from(op_args, skip);
    if words.len() == 0 {
        return None;
    }
    let pod_ns = match topology.pod_namespace(op_args[0].as_str()) {
        Ok(ns) => ns,
        Err(e) => return Some(Err(e)),
    };
    proof { lemma_pod_position(topology@.pods, op[0]); }
    let mut args = vec![owned("netns"), owned("exec"), pod_ns];
    let ghost head = args.deep_view();
    let mut i: usize = 0;
    let m = words.len();
    proof { assert(head =~= seq!["netns"@, "exec"@, args@[2]@]); }
    while i < m
        invariant
            m == words@.len(),
            i <= m,
            args.deep_view() == head + words.deep_view().take(i as int),
        decreases m - i,
    {
        let ghost before = args.deep_view();
        args.push(words[i].clone());
        proof {
            assert(words.deep_view()[i as int] == words@[i as int]@);
            assert(args.deep_view() =~= before.push(words.deep_view()[i as int]));
            assert(head + words.deep_view().take(i + 1) =~= before.push(words.deep_view()[i as int]));
        }
        i = i + 1;
    }
    proof { assert(words.deep_view().take(m as int) =~= words.deep_view()); }
    Some(Ok(CommandSpec::new(owned("ip"), args)))
}

/// The context `use` saves: the named facility, else the current one, on
/// the bridge given with `--bridge`, else the facility's default bridge.
pub open spec fn use_context_spec(current_name: Seq<char>, args: Seq<Seq<char>>, op: Seq<Seq<char>>) -> ContextView {
    let name = if op.len() > 0 { op[0] } else { current_name };
    ContextView {
        name,
        bridge: match flag_value_spec(args, "--bridge"@) {
            Some(b) => b,
            None => default_bridge_spec(name),
        },
    }
}

pub fn use_context(current_name: &str, args: &[String], op_args: &Vec<String>) -> (r: FacilityContext)
    ensures
        r@ == use_context_spec(current_name@, arg_views(args@), op_args.deep_view()),
{
    let name = if op_args.len() > 0 {
        proof { assert(op_args.deep_view()[0] == op_args@[0]@); }
        op_args[0].clone()
    } else {
        owned(current_name)
    };
    let bridge = match explicit_bridge(args) {
        Some(b) => b,
        None => default_bridge_for_name(name.as_str()),
    };
    FacilityContext { name, bridge }
}

/// The node `create node` acts on: the one named, else `default-node`; more
/// than one name is refused.
pub open spec fn create_node_target_spec(op: Seq<Seq<char>>) -> Result<Seq<char>, Seq<char>> {
    if op.len() > 2 {
        Err(extra_args_text("create node"@, op.skip(2)))
    } else if op.len() > 1 {
        Ok(op[1])
    } else {
        Ok("default-node"@)
    }
}

pub fn create_node_target(op_args: &Vec<String>) -> (r: Result<String, String>)
    ensures
        match r {
            Ok(n) => create_node_target_spec(op_args.deep_view()) == Ok::<Seq<char>, Seq<char>>(n@),
            Err(m) => create_node_target_spec(op_args.deep_view()) == Err::<Seq<char>, Seq<char>>(m@),
        },
{
    if op_args.len() > 2 {
        let extra = tail_from(op_args, 2);
        return Err(extra_args_message("create node", &extra));
    }
    if op_args.len() > 1 {
        proof { assert(op_args.deep_view()[1] == op_args@[1]@); }
        return Ok(op_args[1].clone());
    }
    Ok(owned("default-node"))
}

/// What `create` does with a node or pod whose namespace is `netns`: when
/// the namespace is listed it only reports that the item exists (the state
/// is still saved); otherwise it announces and applies the item's plan.
pub enum CreateAction {
    AlreadyExists { message: String },
    Apply { message: String },
}

pub open spec fn create_action_spec(kind: Seq<char>, name: Seq<char>, facility: Seq<char>, exists: bool) -> (bool, Seq<char>) {
    if exists {
        (true, kind + " "@ + name + " for environment "@ + facility + " already exists"@)
    } else {
        (false, "creating "@ + kind + " "@ + name + " for environment "@ + facility)
    }
}

/// The view of a create action: whether the item exists, and the message.
pub open spec fn create_action_view(a: CreateAction) -> (bool, Seq<char>) {
    match a {
        CreateAction::AlreadyExists { message } => (true, message@),
        CreateAction::Apply { message } => (false, message@),
    }
}

/// The create action for a node or pod (or bridge) `name` of `facility`,
/// given whether it is present on the host.
pub fn create_action(kind: &str, name: &str, facility: &str, exists: bool) -> (r: CreateAction)
    ensures
        create_action_view(r) == create_action_spec(kind@, name@, facility@, exists),
{
    if exists {
        let mut m = owned(kind);
        m.append(" ");
        m.append(name);
        m.append(" for environment ");
        m.append(facility);
        m.append(" already exists");
        proof { assert(m@ =~= create_action_spec(kind@, name@, facility@, exists).1); }
        CreateAction::AlreadyExists { message: m }
    } else {
        let mut m = owned("creating ");
        m.append(kind);
        m.append(" ");
        m.append(name);
        m.append(" for environment ");
        m.append(facility);
        proof { assert(m@ =~= create_action_spec(kind@, name@, facility@, exists).1); }
        CreateAction::Apply { message: m }
    }
}

/// Whether `delete` may remove the node or pod `name` of `facility`: only
/// when its namespace `netns` is listed; the announcement, or the refusal.
pub open spec fn delete_action_spec(kind: Seq<char>, name: Seq<char>, facility: Seq<char>, netns: Seq<char>, listed: Seq<Seq<char>>) -> Result<Seq<char>, Seq<char>> {
    if listed.contains(netns) {
        Ok("deleting "@ + kind + " "@ + name + " for environment "@ + facility)
    } else {
        Err(kind + " "@ + crate::text::ticked(name) + " does not exist: namespace "@ + crate::text::ticked(netns)
            + " was not found"@)
    }
}

pub fn delete_action(kind: &str, name: &str, facility: &str, netns: &str, listed: &Vec<String>) -> (r: Result<String, String>)
    ensures
        match r {
            Ok(m) => delete_action_spec(kind@, name@, facility@, netns@, listed.deep_view()) == Ok::<Seq<char>, Seq<char>>(m@),
            Err(m) => delete_action_spec(kind@, name@, facility@, netns@, listed.deep_view()) == Err::<Seq<char>, Seq<char>>(m@),
        },
{
    match crate::commands::missing_namespace(kind, name, netns, listed) {
        Some(refusal) => Err(refusal),
        None => {
            let mut m = owned("deleting ");
            m.append(kind);
            m.append(" ");
            m.append(name);
            m.append(" for environment ");
            m.append(facility);
            proof { assert(m@ =~= "deleting "@ + kind@ + " "@ + name@ + " for environment "@ + facility@); }
            Ok(m)
        },
    }
}

} // verus!
