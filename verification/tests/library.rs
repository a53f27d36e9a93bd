use virtualfacility::bootstrap::RootlessBootstrap;
use virtualfacility::error::FacilityError;
use virtualfacility::net::Ipv4Addr;
use virtualfacility::plan::CommandSpec;
use virtualfacility::support::{apply_rootless_bootstrap_plan, SupportReport};
use virtualfacility::topology::{Pod, Topology};

fn s(x: &str) -> String {
    x.to_string()
}

fn words(xs: &[&str]) -> Vec<String> {
    xs.iter().map(|x| x.to_string()).collect()
}

#[test]
fn smoke_topology_matches_transcript_shape() {
    let topology = Topology::smoke().unwrap();

    assert_eq!(topology.nodes().len(), 1);
    assert_eq!(
        topology.pods().iter().map(Pod::name).collect::<Vec<_>>(),
        vec!["proxy", "server", "client"]
    );
    assert_eq!(topology.resolve("proxy"), Some(Ipv4Addr::new(10, 244, 1, 2)));
    assert_eq!(topology.resolve("server"), Some(Ipv4Addr::new(10, 244, 2, 2)));
    assert_eq!(topology.resolve("client"), Some(Ipv4Addr::new(10, 244, 3, 2)));
}

#[test]
fn setup_plan_contains_namespace_veth_bridge_and_routes() {
    let topology = Topology::smoke().unwrap();
    let rendered = topology.setup_plan().render_shell();

    assert!(rendered.contains("ip link add vf-br0 type bridge"));
    assert!(rendered.contains("ip netns add vf-smoke-node-default-node"));
    assert!(rendered.contains("ip link add vfsmokeh0 type veth peer name vfsmoken0"));
    assert!(rendered.contains("ip netns add vf-smoke-pod-server"));
    assert!(rendered.contains("ip netns exec vf-smoke-pod-server ip route add default via 10.244.2.1"));
}

#[test]
fn workload_plan_runs_inside_pod_namespace() {
    let topology = Topology::builder(s("with-workload"))
        .add_node(s("default-node"))
        .add_workload_pod(s("server"), s("default-node"), words(&["python3", "-m", "http.server", "8080"]))
        .build()
        .unwrap();

    let rendered = topology.workload_plan().unwrap().render_shell();

    assert!(rendered.contains("ip netns exec vf-with-workload-pod-server python3 -m http.server 8080"));
}

#[test]
fn ping_plan_checks_pod_to_pod_connectivity() {
    let topology = Topology::smoke().unwrap();
    let rendered = topology.ping_plan("client", "server").unwrap().render_shell();

    assert!(rendered.contains("ip netns exec vf-smoke-pod-client ping -c 1 10.244.2.2"));
}

#[test]
fn pod_namespace_is_exposed_for_setns_runtime_tests() {
    let topology = Topology::smoke().unwrap();

    assert_eq!(topology.pod_namespace("client").unwrap(), "vf-smoke-pod-client");
}

#[test]
fn rootless_bootstrap_plan_wraps_inner_command() {
    let plan = RootlessBootstrap::new(s("/tmp/vf"))
        .with_standard_mounts()
        .bootstrap_plan(CommandSpec::new(s("cargo"), words(&["test"])))
        .unwrap();
    let rendered = plan.render_shell();

    assert!(rendered.contains("mkdir -p /tmp/vf"));
    assert!(rendered.contains("touch /tmp/vf/run/xtables.lock"));
    assert!(rendered.contains("mkdir -p /tmp/vf/run/netns"));
    assert!(rendered.contains("mkdir -p /tmp/vf/run"));
    assert!(rendered.contains("unshare --user --map-root-user --mount --net --fork -- sh -eu -c"));
    assert!(rendered.contains("mount --bind"));
    assert!(rendered.contains("/tmp/vf/run /run rw dir -- cargo test"));
}

#[test]
fn support_report_distinguishes_namespace_and_rootless_readiness() {
    let namespace_only = SupportReport {
        os: "linux",
        has_ip_command: true,
        has_mount_command: false,
        has_unshare_command: false,
        has_proc_netns: true,
        has_uid_map: false,
        unprivileged_userns_restricted: None,
    };
    let rootless = SupportReport {
        has_mount_command: true,
        has_unshare_command: true,
        has_uid_map: true,
        ..namespace_only.clone()
    };

    assert!(namespace_only.is_ready_for_execution());
    assert!(!namespace_only.is_ready_for_rootless_bootstrap());
    assert!(rootless.is_ready_for_rootless_bootstrap());

    let restricted = SupportReport {
        unprivileged_userns_restricted: Some(true),
        ..rootless
    };
    assert!(!restricted.is_ready_for_rootless_bootstrap());
}

#[test]
fn rootless_bootstrap_execution_reports_unsupported_off_linux() {
    let plan = RootlessBootstrap::new(s("/tmp/vf"))
        .bootstrap_plan(CommandSpec::new(s("cargo"), words(&["test"])))
        .unwrap();
    let report = SupportReport {
        os: "macos",
        has_ip_command: false,
        has_mount_command: true,
        has_unshare_command: false,
        has_proc_netns: false,
        has_uid_map: false,
        unprivileged_userns_restricted: None,
    };
    let err = apply_rootless_bootstrap_plan(&report, &plan)
        .expect_err("non-Linux should not execute rootless bootstrap");

    assert_eq!(err, FacilityError::UnsupportedPlatform { current: "macos" });
}

#[test]
fn cleanup_plan_is_best_effort() {
    let topology = Topology::smoke().unwrap();
    let cleanup = topology.cleanup_plan();

    assert!(cleanup.steps().iter().all(|step| step.allow_failure));
    assert!(cleanup.render_shell().contains("ip link del vf-br0 || true"));
}

#[test]
fn duplicate_pod_names_are_rejected() {
    let err = Topology::builder(s("bad"))
        .add_node(s("default-node"))
        .add_pod(s("server"), s("default-node"))
        .add_pod(s("server"), s("default-node"))
        .build()
        .unwrap_err();

    assert_eq!(err, FacilityError::DuplicateName { kind: "pod", name: "server".to_string() });
}

#[test]
fn unknown_nodes_are_rejected() {
    let err = Topology::builder(s("bad"))
        .add_node(s("default-node"))
        .add_pod(s("server"), s("missing-node"))
        .build()
        .unwrap_err();

    assert_eq!(
        err,
        FacilityError::UnknownNode { pod: "server".to_string(), node: "missing-node".to_string() }
    );
}

#[test]
fn shell_rendering_quotes_unsafe_arguments() {
    let command = CommandSpec::new(s("echo"), words(&["plain", "two words", "name='quoted'"]));

    assert_eq!(command.as_shell(), "echo plain 'two words' 'name='\\''quoted'\\'''");
}
