use virtualfacility::cli::{
    args_with_context, context_from_args, default_context, empty_state, explicit_node, forget_pod, operation_args, parse_context,
    remember_node, remember_pod, render_context, select_state, FacilityContext, FacilityState, NodeState, PodState,
};
use virtualfacility::commands::{
    bridge_context_choice, bridge_delete_refusal, bridge_hint_lines, missing_namespace, parse_bridge_list,
    parse_inet_cidr, parse_netns_list, require_exact_args, resource_target, split_command, validate_new_bridge_name,
};
use virtualfacility::ids::{item_id, node_target, pod_target};
use virtualfacility::error::FacilityError;
use virtualfacility::facility::{bridge_addr_for_name, bridge_network_octet, topology_for_state, trailing_number};
use virtualfacility::net::Ipv4Addr;
use virtualfacility::requests::{create_node_target, exec_request, foreground_outcome, plain_command_line, ping_request, use_context};
use virtualfacility::smoke::{SmokePhase, SmokeRun, SmokeStep};
use virtualfacility::status::{network_row, node_rows, pod_rows, render_status, status_word, NetworkRow};
use virtualfacility::store::{parse_states, render_states};
use virtualfacility::support::StepOutcome;
use virtualfacility::topology::{resolver_table, Topology};

fn s(x: &str) -> String {
    x.to_string()
}

fn words(xs: &[&str]) -> Vec<String> {
    xs.iter().map(|x| x.to_string()).collect()
}

fn context(name: &str, bridge: &str) -> FacilityContext {
    FacilityContext { name: s(name), bridge: s(bridge) }
}

#[test]
fn create_bridge_without_name_only_prints_hint_even_with_saved_context() {
    let saved = use_context("smoke", &words(&["lab1"]), &words(&["lab1"]));
    assert_eq!(saved, context("lab1", "vf-lab1"));
    let saved_text = render_context(&saved);

    let args = words(&["bridge"]);
    let op_args = operation_args(&args);
    let choice = bridge_context_choice(&args, &op_args, "create");
    assert_eq!(choice, Ok(None));

    let hint = bridge_hint_lines(&args, Some(parse_context(&saved_text)), "create").join("\n");
    assert!(hint.contains("bridge name is required."));
    assert!(hint.contains("suggested: vf-lab1"));
    assert!(hint.contains("example: cargo run -- create bridge vf-lab1"));
    assert!(!hint.contains("creating bridge"));
}

#[test]
fn create_bridge_rejects_command_word_name() {
    let refusal = validate_new_bridge_name("status").expect("command words are refused");
    assert!(refusal.contains("invalid bridge name `status`"));
    assert!(refusal.contains("command words cannot be used as resource names"));
    assert!(!refusal.contains("creating bridge"));
}

#[test]
fn create_bridge_requires_vf_prefix() {
    let refusal = validate_new_bridge_name("lab1").expect("names without vf- are refused");
    assert!(refusal.contains("invalid bridge name `lab1`"));
    assert!(refusal.contains("bridge names must start with `vf-`"));
    assert!(!refusal.contains("creating bridge"));
}

#[test]
fn delete_bridge_rejects_extra_targets() {
    let args = words(&["bridge", "client", "server", "proxy"]);
    let op_args = operation_args(&args);
    let refusal = bridge_context_choice(&args, &op_args, "delete").expect_err("extra targets are refused");
    assert!(refusal.contains("delete bridge accepts one target only"));
    assert!(refusal.contains("unexpected extra arguments: server proxy"));
    assert!(!refusal.contains("deleting bridge"));
}

#[test]
fn delete_pod_rejects_extra_targets() {
    let op_args = words(&["pod", "client", "server", "proxy"]);
    let refusal = require_exact_args(&op_args, "delete pod", 2).expect("extra targets are refused");
    assert!(refusal.contains("delete pod accepts one target only"));
    assert!(refusal.contains("unexpected extra arguments: server proxy"));
    assert!(!refusal.contains("deleting pod"));
}

#[test]
fn delete_node_requires_explicit_target() {
    let op_args = words(&["node"]);
    let refusal = require_exact_args(&op_args, "delete node", 2).expect("a target is required");
    assert!(refusal.contains("delete node requires a target name"));
    assert!(!refusal.contains("deleting node"));
}

#[test]
fn create_custom_node_is_not_rejected_by_static_topology() {
    let op_args = words(&["node", "node-1"]);
    let node = create_node_target(&op_args).unwrap();
    let ctx = default_context();
    let mut state = empty_state(ctx.clone());
    remember_node(&mut state, &node);
    let topology = topology_for_state(&ctx, &state).unwrap();
    let netns = topology.node_namespace(&node).unwrap();
    assert_eq!(netns, "vf-smoke-node-node-1");
    assert!(topology.node_setup_plan(&node).is_ok());
}

#[test]
fn delete_custom_pod_is_not_rejected_by_static_topology() {
    let args = words(&["pod", "ghost"]);
    let op_args = operation_args(&args);
    assert_eq!(require_exact_args(&op_args, "delete pod", 2), None);
    let ctx = default_context();
    let mut state = empty_state(ctx.clone());
    let node = explicit_node(&args).unwrap_or_else(|| virtualfacility::cli::default_node_for_state(&state));
    remember_node(&mut state, &node);
    remember_pod(&mut state, "ghost", &node);
    let topology = topology_for_state(&ctx, &state).unwrap();
    assert!(topology.pod_cleanup_plan("ghost").is_ok());
    assert_eq!(topology.pod_namespace("ghost").unwrap(), "vf-smoke-pod-ghost");
}

#[test]
fn create_custom_pod_is_not_rejected_by_static_topology() {
    let args = words(&["pod", "app-1"]);
    let op_args = operation_args(&args);
    assert_eq!(require_exact_args(&op_args, "create pod", 2), None);
    let ctx = default_context();
    let mut state = empty_state(ctx.clone());
    let node = explicit_node(&args).unwrap_or_else(|| virtualfacility::cli::default_node_for_state(&state));
    remember_node(&mut state, &node);
    remember_pod(&mut state, "app-1", &node);
    let topology = topology_for_state(&ctx, &state).unwrap();
    assert!(topology.pod_setup_plan("app-1").is_ok());
}

#[test]
fn create_custom_pod_accepts_explicit_node() {
    let args = words(&["pod", "app-1", "--node", "node-1"]);
    let op_args = operation_args(&args);
    assert_eq!(op_args, words(&["pod", "app-1"]));
    let ctx = default_context();
    let mut state = empty_state(ctx.clone());
    let node = explicit_node(&args).unwrap();
    assert_eq!(node, "node-1");
    remember_node(&mut state, &node);
    remember_pod(&mut state, "app-1", &node);
    let topology = topology_for_state(&ctx, &state).unwrap();
    assert!(topology.node_namespace("node-1").is_ok());
    assert!(topology.pod_namespace("app-1").is_ok());
}

fn plan_output(args: &[&str]) -> String {
    let args = words(args);
    let (command, command_args) = split_command(&args);
    assert_eq!(command, "plan");
    let ctx = context_from_args(default_context(), &command_args).unwrap();
    let state = select_state(parse_states(""), &ctx);
    let topology = topology_for_state(&ctx, &state).unwrap();
    format!("{}\n\n{}", topology.render_summary(), topology.setup_plan().render_shell())
}

#[test]
fn bridge_name_selects_distinct_underlay_cidr() {
    let lab1 = plan_output(&["--name", "lab1", "--bridge", "vf-lab1", "plan"]);
    assert!(lab1.contains("bridge: vf-lab1 at 10.200.1.1/24"));
    assert!(lab1.contains("assign node uplink address `10.200.1.10/24`"));

    let lab2 = plan_output(&["--name", "lab2", "--bridge", "vf-lab2", "plan"]);
    assert!(lab2.contains("bridge: vf-lab2 at 10.200.2.1/24"));
    assert!(lab2.contains("assign node uplink address `10.200.2.10/24`"));

    let default = plan_output(&["--name", "br0", "--bridge", "vf-br0", "plan"]);
    assert!(default.contains("bridge: vf-br0 at 10.200.0.1/24"));
    assert!(default.contains("assign node uplink address `10.200.0.10/24`"));
}

#[test]
fn bridge_octets_follow_the_name() {
    assert_eq!(bridge_network_octet("vf-br0"), 0);
    assert_eq!(bridge_network_octet("vf-lab1"), 1);
    assert_eq!(bridge_network_octet("vf-lab240"), 1);
    assert_eq!(bridge_network_octet("vf-lab241"), 1);
    assert_eq!(bridge_network_octet("vf-lab239"), 239);
    assert_eq!(bridge_network_octet("vf-x"), 236);
    assert_eq!(bridge_network_octet("vf-ü"), 199);
    assert_eq!(bridge_network_octet("vf-lab99999999999"), {
        let mut h: u32 = 0;
        for b in "vf-lab99999999999".bytes() {
            h = h.wrapping_mul(31).wrapping_add(b as u32);
        }
        (h % 240 + 1) as u8
    });
    assert_eq!(bridge_addr_for_name("vf-lab7"), Ipv4Addr::new(10, 200, 7, 1));
}

#[test]
fn trailing_numbers_are_read_when_they_fit() {
    assert_eq!(trailing_number("vf-lab12"), Some(12));
    assert_eq!(trailing_number("vf-lab007"), Some(7));
    assert_eq!(trailing_number("vf-lab"), None);
    assert_eq!(trailing_number(""), None);
    assert_eq!(trailing_number("4294967295"), Some(4294967295));
    assert_eq!(trailing_number("x4294967296"), None);
}

fn sample_states() -> Vec<FacilityState> {
    vec![
        FacilityState {
            context: context("smoke", "vf-br0"),
            nodes: vec![NodeState { name: s("default-node"), slot: 0 }],
            pods: vec![PodState { name: s("app-1"), node: s("default-node"), slot: 3 }],
        },
        FacilityState {
            context: context("lab1", "vf-lab1"),
            nodes: vec![NodeState { name: s("node-1"), slot: 0 }, NodeState { name: s("node-2"), slot: 12 }],
            pods: vec![],
        },
    ]
}

#[test]
fn state_file_round_trip_keeps_states() {
    let states = sample_states();
    let text = render_states(&states);
    assert_eq!(
        text,
        "facility=smoke,vf-br0\nnode=smoke,default-node,0\npod=smoke,app-1,default-node,3\n\
         facility=lab1,vf-lab1\nnode=lab1,node-1,0\nnode=lab1,node-2,12\n"
    );
    assert_eq!(parse_states(&text), states);
}

#[test]
fn saved_state_reads_back_for_its_context() {
    let mut states = sample_states();
    let mut changed = states[1].clone();
    changed.pods.push(PodState { name: s("web"), node: s("node-2"), slot: 4 });
    virtualfacility::cli::upsert_state(&mut states, changed.clone());
    let read = select_state(parse_states(&render_states(&states)), &changed.context);
    assert_eq!(read, changed);
}

#[test]
fn state_file_reads_the_older_format() {
    let text = "name=lab9\nbridge=vf-lab9\nnode=n1,5\npod=p1,n1,6\nnode=bad,slot\nnoise\n";
    let states = parse_states(text);
    assert_eq!(
        states,
        vec![FacilityState {
            context: context("lab9", "vf-lab9"),
            nodes: vec![NodeState { name: s("n1"), slot: 5 }],
            pods: vec![PodState { name: s("p1"), node: s("n1"), slot: 6 }],
        }]
    );
}

#[test]
fn state_file_node_of_unknown_facility_gets_default_bridge() {
    let states = parse_states("node=lab3,n1,2\r\n");
    assert_eq!(
        states,
        vec![FacilityState {
            context: context("lab3", "vf-lab3"),
            nodes: vec![NodeState { name: s("n1"), slot: 2 }],
            pods: vec![],
        }]
    );
}

#[test]
fn context_file_round_trip_keeps_context() {
    let ctx = context("lab1", "vf-lab1");
    let text = render_context(&ctx);
    assert_eq!(text, "name=lab1\nbridge=vf-lab1\n");
    assert_eq!(parse_context(&text), ctx);
    assert_eq!(parse_context("name=\nbridge=vf-x\n"), context("smoke", "vf-x"));
}

#[test]
fn forgetting_a_remembered_pod_restores_the_state() {
    let mut state = sample_states().remove(0);
    let before = state.clone();
    remember_pod(&mut state, "web", "default-node");
    assert_eq!(state.pods.last().unwrap(), &PodState { name: s("web"), node: s("default-node"), slot: 4 });
    forget_pod(&mut state, "web");
    assert_eq!(state, before);
}

#[test]
fn ip_listings_are_read() {
    assert_eq!(parse_netns_list("vf-smoke-pod-client (id: 3)\nvf-smoke-node-default-node\n\n"), words(&["vf-smoke-pod-client", "vf-smoke-node-default-node"]));
    assert_eq!(
        parse_bridge_list("3: vf-br0: <BROADCAST,MULTICAST> mtu 1500\n5: docker0: <NO-CARRIER> mtu 1500\n7:\n"),
        words(&["vf-br0", "docker0"])
    );
    assert_eq!(
        parse_inet_cidr("4: vf-br0    inet 10.200.0.1/24 brd 10.200.0.255 scope global vf-br0\n"),
        Some(s("10.200.0.1/24"))
    );
    assert_eq!(parse_inet_cidr("4: vf-br0 inet\n5: vf-br0 link\n"), None);
}

#[test]
fn command_word_is_split_from_flags() {
    let (command, rest) = split_command(&words(&["--name", "lab1", "create", "pod", "app"]));
    assert_eq!(command, "create");
    assert_eq!(rest, words(&["--name", "lab1", "pod", "app"]));
    let (command, rest) = split_command(&words(&["--i-understand"]));
    assert_eq!(command, "--i-understand");
    assert!(rest.is_empty());
    let (command, rest) = split_command(&words(&[]));
    assert_eq!(command, "plan");
    assert!(rest.is_empty());
}

#[test]
fn deleting_a_bridge_waits_for_its_namespaces() {
    let listed = words(&["vf-lab1-node-n1", "vf-other-pod-x", "vf-lab1-pod-web"]);
    let refusal = bridge_delete_refusal("vf-lab1", "lab1", &listed).unwrap();
    assert_eq!(
        refusal,
        "cannot delete bridge `vf-lab1` while namespaces still exist: vf-lab1-node-n1, vf-lab1-pod-web\n\
         delete pods and nodes first, or run `cargo run -- down`"
    );
    assert_eq!(bridge_delete_refusal("vf-lab2", "lab2", &listed), None);
}

#[test]
fn missing_namespaces_are_reported() {
    let listed = words(&["vf-smoke-node-default-node"]);
    assert_eq!(missing_namespace("node", "default-node", "vf-smoke-node-default-node", &listed), None);
    assert_eq!(
        missing_namespace("pod", "web", "vf-smoke-pod-web", &listed),
        Some(s("pod `web` does not exist: namespace `vf-smoke-pod-web` was not found"))
    );
}

#[test]
fn ping_and_exec_requests_name_the_pod_namespaces() {
    let topology = Topology::smoke().unwrap();
    let (announce, command) = ping_request(&topology, &vec![]).unwrap();
    assert_eq!(announce, "pinging client -> server (10.244.2.2)");
    assert_eq!(plain_command_line(&command), "ip netns exec vf-smoke-pod-client ping -c 1 10.244.2.2");
    assert_eq!(
        ping_request(&topology, &words(&["client", "ghost"])).unwrap_err(),
        FacilityError::UnknownPod { name: s("ghost") }
    );

    let command = exec_request(&topology, &words(&["client", "--", "ip", "addr"])).unwrap().unwrap();
    assert_eq!(plain_command_line(&command), "ip netns exec vf-smoke-pod-client ip addr");
    assert!(exec_request(&topology, &words(&["client", "--"])).is_none());
    assert!(exec_request(&topology, &words(&["client"])).is_none());
    assert_eq!(
        exec_request(&topology, &words(&["ghost", "true"])).unwrap().unwrap_err(),
        FacilityError::UnknownPod { name: s("ghost") }
    );
}

#[test]
fn use_and_create_node_pick_their_targets() {
    assert_eq!(use_context("smoke", &words(&[]), &words(&[])), context("smoke", "vf-br0"));
    assert_eq!(use_context("smoke", &words(&["lab2", "--bridge", "vf-x"]), &words(&["lab2"])), context("lab2", "vf-x"));
    assert_eq!(create_node_target(&words(&["node"])), Ok(s("default-node")));
    assert_eq!(
        create_node_target(&words(&["node", "a", "b"])),
        Err(s("create node accepts one target only; unexpected extra arguments: b"))
    );
}

#[test]
fn foreground_commands_report_failures() {
    assert_eq!(foreground_outcome(s("ip x"), StepOutcome::Exited { success: true, code: Some(0), stderr: s("") }), Ok(()));
    assert_eq!(
        foreground_outcome(s("ip x"), StepOutcome::Exited { success: false, code: Some(2), stderr: s("boom") }),
        Err(FacilityError::CommandFailed { command: s("ip x"), code: Some(2), stderr: s("command exited unsuccessfully") })
    );
    assert_eq!(
        foreground_outcome(s("ip x"), StepOutcome::SpawnFailed { message: s("not found") }),
        Err(FacilityError::CommandFailed { command: s("ip x"), code: None, stderr: s("not found") })
    );
}

#[test]
fn smoke_run_reports_setup_then_ping_then_cleanup() {
    let failure = FacilityError::ThreadPanicked;
    let run = SmokeRun::start();
    assert_eq!(run.phase(), SmokePhase::Setup);
    let cleanup = match run.finish_phase(Err(failure.clone())) {
        SmokeStep::Next(next) => next,
        SmokeStep::Finished(_) => panic!("cleanup follows a failed setup"),
    };
    assert_eq!(cleanup.phase(), SmokePhase::Cleanup);
    match cleanup.finish_phase(Ok(())) {
        SmokeStep::Finished(result) => assert_eq!(result, Err(failure.clone())),
        SmokeStep::Next(_) => panic!("the run ends after cleanup"),
    }

    let ping = match SmokeRun::start().finish_phase(Ok(())) {
        SmokeStep::Next(next) => next,
        SmokeStep::Finished(_) => panic!("ping follows setup"),
    };
    assert_eq!(ping.phase(), SmokePhase::Ping);
    let cleanup = match ping.finish_phase(Ok(())) {
        SmokeStep::Next(next) => next,
        SmokeStep::Finished(_) => panic!("cleanup follows ping"),
    };
    match cleanup.finish_phase(Err(failure.clone())) {
        SmokeStep::Finished(result) => assert_eq!(result, Err(failure)),
        SmokeStep::Next(_) => panic!("the run ends after cleanup"),
    }
}

#[test]
fn status_report_lists_present_items() {
    let topology = Topology::smoke().unwrap();
    let listed = words(&["vf-smoke-node-default-node", "vf-smoke-pod-server"]);
    let networks = vec![network_row(&topology, None)];
    let nodes = node_rows(&topology, &listed);
    let pods = pod_rows(&topology, &listed);
    assert_eq!(networks[0].cidr, "10.200.0.1/24");
    assert_eq!(nodes.len(), 1);
    assert_eq!(pods.len(), 1);
    assert_eq!(nodes[0].internal_ip, "10.200.0.10/24");
    assert_eq!(nodes[0].id, item_id("node", "smoke", "default-node"));
    assert_eq!(pods[0].ip, "10.244.2.2/30");
    assert_eq!(pods[0].node, "default-node");
    assert_eq!(status_word(1, 1, 1), "running");
    assert_eq!(status_word(0, 0, 0), "down");
    assert_eq!(status_word(1, 0, 0), "partial");

    let text = render_status(&networks, &nodes, &pods);
    assert!(text.starts_with("STATE: running\n\nNETWORKS\n"));
    assert!(text.contains("vf-br0          10.200.0.1/24       present\n"));

    let empty: Vec<NetworkRow> = vec![];
    let down = render_status(&empty, &vec![], &vec![]);
    assert_eq!(
        down,
        "STATE: down\nhint: run `cargo run -- up` to create this topology\n\nNETWORKS\nNo networks found.\n\n\
         NODES\nNo nodes found.\n\nPODS\nNo pods found.\n"
    );
    let reported = network_row(&topology, Some(s("10.200.0.1/16")));
    assert_eq!(reported.cidr, "10.200.0.1/16");
}

fn hash_id(kind: &str, facility: &str, name: &str) -> String {
    let mut h: u32 = 0;
    for b in format!("{kind}:{facility}:{name}").bytes() {
        h = h.wrapping_mul(31).wrapping_add(b as u32);
    }
    format!("{name}-{h:08x}")
}

#[test]
fn ids_are_the_name_and_eight_hex_digits() {
    assert_eq!(item_id("pod", "lab1", "app-1"), hash_id("pod", "lab1", "app-1"));
    assert_eq!(item_id("node", "lab1", "node-1"), hash_id("node", "lab1", "node-1"));
    assert_ne!(item_id("node", "lab1", "x"), item_id("pod", "lab1", "x"));
    assert_ne!(item_id("pod", "lab1", "x"), item_id("pod", "lab2", "x"));
    let id = item_id("pod", "lab1", "app-1");
    assert_eq!(id.len(), "app-1-".len() + 8);
}

fn readme_state() -> FacilityState {
    FacilityState {
        context: context("lab1", "vf-lab1"),
        nodes: vec![NodeState { name: s("node-1"), slot: 0 }],
        pods: vec![
            PodState { name: s("app-1"), node: s("node-1"), slot: 3 },
            PodState { name: s("app-2"), node: s("node-1"), slot: 4 },
        ],
    }
}

#[test]
fn readme_create_commands_select_the_network() {
    let args = words(&["--network", "vf-lab1"]);
    let op_args = operation_args(&args);
    assert!(op_args.is_empty());
    assert_eq!(resource_target(&args, &op_args), Some(s("bridge")));
    let chosen = bridge_context_choice(&args, &op_args, "create").unwrap().unwrap();
    assert_eq!(chosen, context("lab1", "vf-lab1"));
    assert_eq!(validate_new_bridge_name(&chosen.bridge), None);
    assert_eq!(
        context_from_args(default_context(), &args_with_context(&chosen.name, &chosen.bridge)),
        Ok(context("lab1", "vf-lab1"))
    );

    let args = words(&["node", "node-1", "--network", "vf-lab1"]);
    let op_args = operation_args(&args);
    assert_eq!(op_args, words(&["node", "node-1"]));
    assert_eq!(resource_target(&args, &op_args), Some(s("node")));
    assert_eq!(create_node_target(&op_args), Ok(s("node-1")));
    let ctx = context_from_args(default_context(), &args).unwrap();
    assert_eq!(ctx, context("lab1", "vf-lab1"));
    let mut state = empty_state(ctx.clone());
    remember_node(&mut state, "node-1");

    let args = words(&["pod", "app-1", "--node", "node-1", "--network", "vf-lab1"]);
    let op_args = operation_args(&args);
    assert_eq!(op_args, words(&["pod", "app-1"]));
    assert_eq!(require_exact_args(&op_args, "create pod", 2), None);
    assert_eq!(context_from_args(default_context(), &args), Ok(ctx.clone()));
    assert_eq!(explicit_node(&args), Some(s("node-1")));
    remember_pod(&mut state, "app-1", "node-1");
    remember_pod(&mut state, "app-2", "node-1");
    assert_eq!(state, readme_state());
    let topology = topology_for_state(&ctx, &state).unwrap();
    assert!(topology.pod_setup_plan("app-1").is_ok());

    let named = context_from_args(default_context(), &words(&["--network", "vf-lab1", "--name", "other"]));
    assert_eq!(named, Ok(context("other", "vf-lab1")));
    assert_eq!(context_from_args(default_context(), &words(&["--network"])), Err(s("--network requires a value")));
    let (command, rest) = split_command(&words(&["--network", "vf-lab1", "status"]));
    assert_eq!(command, "status");
    assert_eq!(rest, words(&["--network", "vf-lab1"]));
}

#[test]
fn readme_status_lists_networks_nodes_and_pods() {
    let state = readme_state();
    let topology = topology_for_state(&state.context, &state).unwrap();
    let listed = words(&["vf-lab1-node-node-1", "vf-lab1-pod-app-1", "vf-lab1-pod-app-2"]);
    let networks = vec![network_row(&topology, None)];
    let text = render_status(&networks, &node_rows(&topology, &listed), &pod_rows(&topology, &listed));
    assert!(text.contains(
        "NETWORKS\nNAME            BRIDGE-IP           STATUS\nvf-lab1         10.200.1.1/24       present\n"
    ));
    assert!(text.contains("NODES\nID                        NETWORK         INTERNAL-IP         STATUS\n"));
    assert!(text.contains(&format!("{:<26}vf-lab1         10.200.1.10/24      present\n", hash_id("node", "lab1", "node-1"))));
    assert!(text.contains(
        "PODS\nID                        NETWORK         NODE            IP                  STATUS\n"
    ));
    assert!(text.contains(&format!(
        "{:<26}vf-lab1         node-1          10.244.4.2/30       present\n",
        hash_id("pod", "lab1", "app-1")
    )));
    assert!(text.ends_with(&format!(
        "{:<26}vf-lab1         node-1          10.244.5.2/30       present\n",
        hash_id("pod", "lab1", "app-2")
    )));
}

#[test]
fn readme_delete_commands_accept_ids_and_the_network() {
    let state = readme_state();
    assert_eq!(pod_target(&state, &hash_id("pod", "lab1", "app-1")), "app-1");
    assert_eq!(pod_target(&state, "app-2"), "app-2");
    assert_eq!(pod_target(&state, &hash_id("pod", "lab1", "server")), "server");
    assert_eq!(pod_target(&state, &hash_id("pod", "lab2", "app-1")), hash_id("pod", "lab2", "app-1"));
    assert_eq!(node_target(&state, &hash_id("node", "lab1", "node-1")), "node-1");
    assert_eq!(node_target(&state, "node-9"), "node-9");

    let args = words(&["--network", "vf-lab1"]);
    let op_args = operation_args(&args);
    assert_eq!(resource_target(&args, &op_args), Some(s("bridge")));
    let chosen = bridge_context_choice(&args, &op_args, "delete").unwrap().unwrap();
    assert_eq!(chosen, context("lab1", "vf-lab1"));
    let listed = words(&["vf-lab1-node-node-1", "vf-lab1-pod-app-1"]);
    let refusal = bridge_delete_refusal(&chosen.bridge, &chosen.name, &listed).unwrap();
    assert!(refusal.starts_with("cannot delete bridge `vf-lab1` while namespaces still exist"));
    assert_eq!(bridge_delete_refusal(&chosen.bridge, &chosen.name, &words(&["vf-other-pod-x"])), None);
    assert_eq!(resource_target(&words(&[]), &words(&[])), None);
}

#[test]
fn resolver_table_is_ordered_by_name() {
    let topology = Topology::smoke().unwrap();
    let table = resolver_table(&topology);
    assert_eq!(
        table,
        vec![
            (s("client"), Ipv4Addr::new(10, 244, 3, 2)),
            (s("proxy"), Ipv4Addr::new(10, 244, 1, 2)),
            (s("server"), Ipv4Addr::new(10, 244, 2, 2)),
        ]
    );
}

#[test]
fn saved_nodes_keep_default_pods_on_default_node() {
    let ctx = context("lab1", "vf-lab1");
    let state = FacilityState {
        context: ctx.clone(),
        nodes: vec![NodeState { name: s("default-node"), slot: 0 }, NodeState { name: s("n2"), slot: 5 }],
        pods: vec![PodState { name: s("web"), node: s("n2"), slot: 7 }],
    };
    let topology = topology_for_state(&ctx, &state).unwrap();
    let names: Vec<&str> = topology.pods().iter().map(|p| p.name()).collect();
    assert_eq!(names, vec!["proxy", "server", "client", "web"]);
    assert_eq!(topology.bridge_addr(), Ipv4Addr::new(10, 200, 1, 1));

    let other = FacilityState {
        context: ctx.clone(),
        nodes: vec![NodeState { name: s("n2"), slot: 5 }],
        pods: vec![],
    };
    let topology = topology_for_state(&ctx, &other).unwrap();
    assert!(topology.pods().is_empty());
}
