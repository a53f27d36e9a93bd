use virtualfacility::bootstrap::{BindMount, BindMountKind, RootlessBootstrap};
use virtualfacility::cli::{
    args_with_context, context_from_args, default_bridge_for_name, empty_state, explicit_bridge, explicit_name,
    first_command_index, forget_node, forget_pods, has_confirmed_apply, has_explicit_scope, is_default_pod,
    next_node_slot, next_pod_slot, remember_node, slots_fit, state_index, FacilityContext, FacilityState, NodeState,
    PodState,
};
use virtualfacility::commands::{
    absorb_namespaces, add_bridge_states, ensure_status_state, extra_args_message, facility_from_bridge,
    facility_netns_prefixes, is_reserved_word,
};
use virtualfacility::commands::namespaces_of_facility;
use virtualfacility::error::FacilityError;
use virtualfacility::requests::{create_action, delete_action, CreateAction};
use virtualfacility::net::Ipv4Addr;
use virtualfacility::parse::{lines_of, parse_usize, split_at_char, split_once_at, split_words, strip_prefix_of};
use virtualfacility::plan::{CommandPlan, CommandSpec, PlanStep, Stage};
use virtualfacility::status::is_listed;
use virtualfacility::support::{apply_plan, parse_bool_sysctl, StepOutcome, SupportReport};
use virtualfacility::text::{
    decimal_string, describe, join_path, join_strings, owned, push_decimal, push_signed_decimal, push_ticked,
    quote_for_shell, str_equal, str_less, trimmed,
};
use virtualfacility::topology::Topology;

fn s(x: &str) -> String {
    x.to_string()
}

fn words(xs: &[&str]) -> Vec<String> {
    xs.iter().map(|x| x.to_string()).collect()
}

fn linux_report() -> SupportReport {
    SupportReport {
        os: "linux",
        has_ip_command: true,
        has_mount_command: true,
        has_unshare_command: true,
        has_proc_netns: true,
        has_uid_map: true,
        unprivileged_userns_restricted: Some(false),
    }
}

#[test]
fn text_helpers_render_as_std_does() {
    assert_eq!(quote_for_shell("plain-path/x.y:z=1"), "plain-path/x.y:z=1");
    assert_eq!(quote_for_shell("a b"), "'a b'");
    assert_eq!(quote_for_shell("it's"), "'it'\\''s'");
    assert_eq!(quote_for_shell(""), "");
    assert_eq!(quote_for_shell("é"), "'é'");
    assert_eq!(join_strings(&words(&["a", "b", "c"]), ", "), "a, b, c");
    assert_eq!(join_strings(&words(&[]), ", "), "");
    assert_eq!(trimmed("  x y \n"), "x y");
    assert_eq!(trimmed("\u{3000}x\u{a0}"), "x");
    assert_eq!(describe("unknown pod ", "x"), "unknown pod `x`");
    assert_eq!(join_path("/tmp/vf", "run"), "/tmp/vf/run");
    assert_eq!(join_path("/tmp/vf/", "run"), "/tmp/vf/run");
    assert_eq!(join_path("/tmp", "/abs"), "/abs");
    assert!(str_less("a", "b"));
    assert!(str_less("a", "ab"));
    assert!(!str_less("ab", "a"));
    assert!(!str_less("same", "same"));
    assert!(str_equal("same", "same"));
    assert_eq!(decimal_string(907), "907");
    assert_eq!(decimal_string(0), "0");
    let mut out = owned("n=");
    push_decimal(&mut out, 12);
    out.push(' ');
    push_signed_decimal(&mut out, -42);
    push_ticked(&mut out, "t");
    assert_eq!(out, "n=12 -42`t`");
}

#[test]
fn parsing_helpers_split_like_std() {
    assert_eq!(split_at_char("a,,b", ','), words(&["a", "", "b"]));
    assert_eq!(split_at_char("", ','), words(&[""]));
    assert_eq!(lines_of("a\r\nb\n\nc"), words(&["a", "b", "", "c"]));
    assert_eq!(lines_of("a\n"), words(&["a"]));
    assert_eq!(split_once_at("k=v=w", '='), Some((s("k"), s("v=w"))));
    assert_eq!(split_once_at("kv", '='), None);
    assert_eq!(strip_prefix_of("vf-lab1", "vf-"), Some(s("lab1")));
    assert_eq!(strip_prefix_of("lab1", "vf-"), None);
    assert_eq!(split_words("  a \t b\n"), words(&["a", "b"]));
    assert_eq!(parse_usize("+12"), Some(12));
    assert_eq!(parse_usize("12a"), None);
    assert_eq!(parse_usize("18446744073709551616"), None);
    assert_eq!(parse_usize(""), None);
}

#[test]
fn bridge_and_facility_names_follow_each_other() {
    assert_eq!(facility_from_bridge("vf-lab1"), "lab1");
    assert_eq!(facility_from_bridge("vflab"), "lab");
    assert_eq!(facility_from_bridge("vf"), "vf");
    assert_eq!(facility_from_bridge("br0"), "br0");
    assert_eq!(default_bridge_for_name("lab1"), "vf-lab1");
    assert_eq!(default_bridge_for_name("smoke"), "vf-br0");
    assert_eq!(facility_from_bridge(&default_bridge_for_name("lab1")), "lab1");
    assert_eq!(default_bridge_for_name(&"x".repeat(40)), format!("vf-{}", "x".repeat(36)));
    assert!(is_reserved_word("status"));
    assert!(is_reserved_word("help"));
    assert!(!is_reserved_word("lab1"));
    assert_eq!(facility_netns_prefixes("lab1"), (s("vf-lab1-node-"), s("vf-lab1-pod-")));
    assert_eq!(
        extra_args_message("delete pod", &words(&["a", "b"])),
        "delete pod accepts one target only; unexpected extra arguments: a b"
    );
}

#[test]
fn flags_select_the_context() {
    let saved = FacilityContext { name: s("lab1"), bridge: s("vf-lab1") };
    assert_eq!(context_from_args(saved.clone(), &words(&["status"])), Ok(saved.clone()));
    assert_eq!(
        context_from_args(saved.clone(), &words(&["--name", "lab2"])),
        Ok(FacilityContext { name: s("lab2"), bridge: s("vf-lab2") })
    );
    assert_eq!(
        context_from_args(saved.clone(), &words(&["--bridge", "vf-x", "--node", "n1"])),
        Ok(FacilityContext { name: s("lab1"), bridge: s("vf-x") })
    );
    assert_eq!(context_from_args(saved.clone(), &words(&["--name"])), Err(s("--name requires a value")));
    assert_eq!(context_from_args(saved, &words(&["plan", "--bridge"])), Err(s("--bridge requires a value")));
    let args = args_with_context("lab3", "vf-lab3");
    assert_eq!(args, words(&["--name", "lab3", "--bridge", "vf-lab3"]));
    assert_eq!(explicit_name(&args), Some(s("lab3")));
    assert_eq!(explicit_bridge(&args), Some(s("vf-lab3")));
    assert!(has_explicit_scope(&args));
    assert!(!has_explicit_scope(&words(&["status"])));
    assert!(has_confirmed_apply(&words(&["smoke", "--i-understand"])));
    assert!(!has_confirmed_apply(&words(&["smoke"])));
    assert_eq!(first_command_index(&words(&["--name", "x", "--i-understand", "up"])), Some(3));
    assert_eq!(first_command_index(&words(&["--node"])), None);
}

#[test]
fn remembered_nodes_and_pods_get_free_slots() {
    let mut state = empty_state(FacilityContext { name: s("lab1"), bridge: s("vf-lab1") });
    assert_eq!(next_node_slot(&state), 0);
    assert_eq!(next_pod_slot(&state), 3);
    remember_node(&mut state, "n1");
    remember_node(&mut state, "n1");
    assert_eq!(state.nodes, vec![NodeState { name: s("n1"), slot: 0 }]);
    assert_eq!(next_node_slot(&state), 1);
    assert!(is_default_pod("server"));
    assert!(!is_default_pod("web"));
    assert!(slots_fit(&state, 1));
    assert!(!slots_fit(&state, 0));
    state.pods.push(PodState { name: s("web"), node: s("n1"), slot: 9 });
    state.pods.push(PodState { name: s("db"), node: s("n2"), slot: 4 });
    assert_eq!(next_pod_slot(&state), 10);
    forget_node(&mut state, "n1");
    assert!(state.nodes.is_empty());
    assert_eq!(state.pods, vec![PodState { name: s("db"), node: s("n2"), slot: 4 }]);
    forget_pods(&mut state);
    assert!(state.pods.is_empty());
}

#[test]
fn status_gathers_states_and_namespaces() {
    let mut states: Vec<FacilityState> = vec![];
    ensure_status_state(&mut states, FacilityContext { name: s("smoke"), bridge: s("vf-br0") });
    ensure_status_state(&mut states, FacilityContext { name: s("smoke"), bridge: s("vf-other") });
    assert_eq!(states.len(), 1);
    add_bridge_states(&mut states, &words(&["vf-br0", "docker0", "vf-lab1"]));
    let names: Vec<&str> = states.iter().map(|st| st.context.name.as_str()).collect();
    assert_eq!(names, vec!["smoke", "br0", "lab1"]);
    assert_eq!(state_index(&states, "lab1"), Some(2));
    assert_eq!(state_index(&states, "lab9"), None);

    let mut lab1 = states.remove(2);
    absorb_namespaces(&mut lab1, &words(&["vf-lab1-node-n1", "vf-lab1-pod-web", "vf-smoke-pod-x", "vf-lab1-pod-proxy"]));
    assert_eq!(lab1.nodes, vec![NodeState { name: s("n1"), slot: 0 }]);
    assert_eq!(lab1.pods, vec![PodState { name: s("web"), node: s("n1"), slot: 3 }]);
    assert!(is_listed(&words(&["a", "b"]), "b"));
    assert!(!is_listed(&words(&["a", "b"]), "c"));
}

#[test]
fn bootstrap_mounts_are_prepared_then_bound() {
    let bind = BindMount::read_only_file(s("/etc/hosts"), s("/etc/hosts"));
    assert_eq!(bind.source(), "/etc/hosts");
    assert_eq!(bind.target(), "/etc/hosts");
    assert_eq!(bind.kind(), BindMountKind::File);
    assert_eq!(BindMount::directory(s("/a"), s("/b")).kind(), BindMountKind::Directory);
    assert_eq!(BindMount::read_only_directory(s("/a"), s("/b")).kind(), BindMountKind::Directory);
    assert_eq!(BindMount::file(s("/a"), s("/b")).kind(), BindMountKind::File);

    let plan = RootlessBootstrap::new(s("/tmp/vf"))
        .with_xtables_lock()
        .with_ip_netns_dir()
        .with_bind_mount(bind)
        .with_precreated_dir(s("/tmp/vf/extra"))
        .with_precreated_file(s("/tmp/vf/f"))
        .bootstrap_plan(CommandSpec::new(s("cargo"), words(&["test"])))
        .unwrap();
    let steps = plan.steps();
    assert_eq!(steps.len(), 2 + 1 + 1 + 3);
    let lines: Vec<String> = steps.iter().map(|step| step.command.as_shell()).collect();
    assert_eq!(lines[0], "mkdir -p /tmp/vf");
    assert_eq!(lines[1], "mkdir -p /tmp/vf/extra");
    assert_eq!(lines[2], "touch /tmp/vf/f");
    assert_eq!(lines[3], "touch /tmp/vf/xtables.lock");
    assert_eq!(lines[4], "mkdir -p /tmp/vf/netns");
    assert_eq!(lines[5], "touch /etc/hosts");
    let last = steps.last().unwrap();
    assert_eq!(last.command.program(), "unshare");
    assert!(lines[6].contains("/tmp/vf/xtables.lock /run/xtables.lock rw file"));
    assert!(lines[6].contains("/tmp/vf/netns /var/run/netns rw dir"));
    assert!(lines[6].ends_with("/etc/hosts /etc/hosts ro file -- cargo test"));
    assert!(steps.iter().all(|step| step.stage == Stage::Bootstrap && !step.allow_failure));
}

#[test]
fn support_report_text_and_sysctl() {
    assert_eq!(
        linux_report().render(),
        "os: linux\nip command: yes\nmount command: yes\nunshare command: yes\n/proc/self/ns/net: yes\n\
         /proc/self/uid_map: yes\nunprivileged userns restricted: no\nready for namespace execution: yes\n\
         ready for unprivileged rootless bootstrap: yes"
    );
    let unknown = SupportReport { unprivileged_userns_restricted: None, has_uid_map: false, ..linux_report() };
    assert!(unknown.render().contains("unprivileged userns restricted: unknown"));
    assert!(unknown.render().ends_with("ready for unprivileged rootless bootstrap: no"));
    assert_eq!(parse_bool_sysctl(" 1\n"), Some(true));
    assert_eq!(parse_bool_sysctl("0"), Some(false));
    assert_eq!(parse_bool_sysctl("2"), None);
    assert_eq!(parse_bool_sysctl(""), None);
}

fn two_step_plan() -> CommandPlan {
    let mut plan = CommandPlan::new();
    plan.push(PlanStep::strict(Stage::Setup, s("first"), CommandSpec::new(s("ip"), words(&["link", "add", "a b"]))));
    plan.push(PlanStep::best_effort(Stage::Cleanup, s("second"), CommandSpec::new(s("ip"), words(&["link", "del", "x"]))));
    plan
}

#[test]
fn plan_runs_step_by_step() {
    let plan = two_step_plan();
    assert!(!plan.steps()[0].allow_failure);
    assert!(plan.steps()[1].allow_failure);
    let run = apply_plan(&linux_report(), &plan).unwrap();
    assert_eq!(run.next_command(&plan).unwrap().as_shell(), "ip link add 'a b'");
    let run = run.record(&plan, StepOutcome::Exited { success: true, code: Some(0), stderr: s("") }).unwrap();
    assert_eq!(run.next_command(&plan).unwrap().as_shell(), "ip link del x");
    let run = run.record(&plan, StepOutcome::Exited { success: false, code: Some(1), stderr: s("gone") }).unwrap();
    assert!(run.next_command(&plan).is_none());

    let run = apply_plan(&linux_report(), &plan).unwrap();
    assert_eq!(
        run.record(&plan, StepOutcome::Exited { success: false, code: Some(2), stderr: s("exists") }).unwrap_err(),
        FacilityError::CommandFailed { command: s("ip link add 'a b'"), code: Some(2), stderr: s("exists") }
    );
    let run = apply_plan(&linux_report(), &plan).unwrap();
    assert_eq!(
        run.record(&plan, StepOutcome::SpawnFailed { message: s("no such file") }).unwrap_err(),
        FacilityError::CommandFailed { command: s("ip link add 'a b'"), code: None, stderr: s("no such file") }
    );
}

#[test]
fn extending_a_plan_appends_its_steps() {
    let mut plan = two_step_plan();
    let other = two_step_plan();
    let first = plan.render_shell();
    let second = other.render_shell();
    plan.extend(other);
    assert_eq!(plan.steps().len(), 4);
    assert_eq!(plan.render_shell(), format!("{}{}", first, &second["set -eu\n".len()..]));
    assert!(first.starts_with("set -eu\n\n# first\nip link add 'a b'\n"));
    assert!(first.ends_with("\n# second\nip link del x || true\n"));
}

#[test]
fn addresses_and_names_of_the_smoke_topology() {
    let topology = Topology::smoke().unwrap();
    assert_eq!(topology.bridge_name(), "vf-br0");
    assert_eq!(topology.bridge_cidr(), "10.200.0.1/24");
    let node = &topology.nodes()[0];
    assert_eq!(topology.node_uplink_cidr(node), "10.200.0.10/24");
    assert_eq!(topology.pod_cidr(&topology.pods()[0]), "10.244.1.2/30");
    assert_eq!(topology.node_namespace_names(), words(&["vf-smoke-node-default-node"]));
    assert_eq!(
        topology.pod_namespace_names(),
        words(&["vf-smoke-pod-proxy", "vf-smoke-pod-server", "vf-smoke-pod-client"])
    );
    assert!(topology.bridge_setup_plan().render_shell().contains("ip link add vf-br0 type bridge"));
    assert!(topology.bridge_cleanup_plan().render_shell().contains("ip link del vf-br0 || true"));
    let node_cleanup = topology.node_cleanup_plan("default-node").unwrap().render_shell();
    assert!(node_cleanup.contains("ip netns del vf-smoke-node-default-node || true"));
    assert!(topology.setup_plan().steps().iter().all(|step| !step.allow_failure));
    assert!(topology.setup_plan().render_shell().contains("ip netns add vf-smoke-pod-client"));
    assert!(topology.cleanup_plan().render_shell().contains("ip netns del vf-smoke-pod-client || true"));
    let ip = Ipv4Addr::new(10, 244, 1, 2);
    assert_eq!(ip.octets(), [10, 244, 1, 2]);
    assert_eq!(ip.dotted(), "10.244.1.2");
}

#[test]
fn create_and_delete_actions_decide_and_announce() {
    match create_action("node", "node-1", "lab1", true) {
        CreateAction::AlreadyExists { message } => assert_eq!(message, "node node-1 for environment lab1 already exists"),
        CreateAction::Apply { .. } => panic!("a listed node is not created again"),
    }
    match create_action("pod", "app-1", "lab1", false) {
        CreateAction::Apply { message } => assert_eq!(message, "creating pod app-1 for environment lab1"),
        CreateAction::AlreadyExists { .. } => panic!("an absent pod is created"),
    }
    let listed = words(&["vf-lab1-pod-app-1"]);
    assert_eq!(
        delete_action("pod", "app-1", "lab1", "vf-lab1-pod-app-1", &listed),
        Ok(s("deleting pod app-1 for environment lab1"))
    );
    assert_eq!(
        delete_action("node", "node-1", "lab1", "vf-lab1-node-node-1", &listed),
        Err(s("node `node-1` does not exist: namespace `vf-lab1-node-node-1` was not found"))
    );
}

#[test]
fn topologies_clone_to_equal_values() {
    let topology = Topology::smoke().unwrap();
    let copy = topology.clone();
    assert_eq!(copy, topology);
    assert_eq!(copy.nodes()[0].clone(), topology.nodes()[0]);
    assert_eq!(copy.pods()[2].clone(), topology.pods()[2]);
    assert_eq!(copy.setup_plan().render_shell(), topology.setup_plan().render_shell());
}

#[test]
fn pod_setup_is_eleven_strict_ip_steps() {
    let topology = Topology::smoke().unwrap();
    let plan = topology.pod_setup_plan("server").unwrap();
    let steps = plan.steps();
    assert_eq!(steps.len(), 11);
    assert!(steps.iter().all(|step| !step.allow_failure && step.stage == Stage::Setup && step.command.program() == "ip"));
    assert_eq!(steps[0].command.args().to_vec(), words(&["netns", "add", "vf-smoke-pod-server"]));
    assert_eq!(steps[2].command.args()[4], "vf-smoke-node-default-node");
}

#[test]
fn absorbing_counts_only_the_facility_namespaces() {
    let listed = words(&["vf-lab1-pod-web", "vf-other-node-x", "unrelated", "vf-lab1-node-n1"]);
    assert_eq!(namespaces_of_facility(&listed, "lab1"), words(&["vf-lab1-pod-web", "vf-lab1-node-n1"]));
    let mut state = empty_state(FacilityContext { name: s("lab1"), bridge: s("vf-lab1") });
    state.nodes.push(NodeState { name: s("big"), slot: usize::MAX - 3 });
    assert!(slots_fit(&state, usize::MAX - namespaces_of_facility(&listed, "lab1").len()));
    absorb_namespaces(&mut state, &listed);
    assert_eq!(state.pods, vec![PodState { name: s("web"), node: s("big"), slot: 3 }]);
    assert_eq!(state.nodes.last().unwrap(), &NodeState { name: s("n1"), slot: usize::MAX - 2 });
}
