use virtualfacility::bootstrap::RootlessBootstrap;
use virtualfacility::commands::{command_of, CliCommand};
use virtualfacility::error::FacilityError;
use virtualfacility::plan::CommandSpec;
use virtualfacility::support::{
    apply_plan, ensure_linux, ensure_linux_namespace_support, ensure_rootless_bootstrap_support, SupportReport,
};
use virtualfacility::plan::CommandPlan;
use virtualfacility::topology::{validate_name, Topology};

fn s(x: &str) -> String {
    x.to_string()
}

fn linux_report() -> SupportReport {
    SupportReport {
        os: "linux",
        has_ip_command: true,
        has_mount_command: true,
        has_unshare_command: true,
        has_proc_netns: true,
        has_uid_map: true,
        unprivileged_userns_restricted: Some(false),
    }
}

#[test]
fn command_words_name_commands() {
    assert_eq!(command_of("plan"), CliCommand::Plan);
    assert_eq!(command_of("create"), CliCommand::Create);
    assert_eq!(command_of("current"), CliCommand::Current);
    assert_eq!(command_of("--help"), CliCommand::Help);
    assert_eq!(command_of("help"), CliCommand::Help);
    assert_eq!(command_of("Plan"), CliCommand::Unknown);
    assert_eq!(command_of("--i-understand"), CliCommand::Unknown);
}

#[test]
fn invalid_names_are_refused_with_their_reason() {
    assert_eq!(
        validate_name("pod", ""),
        Err(FacilityError::InvalidName { kind: "pod", name: s(""), reason: "must not be empty" })
    );
    let long = "a".repeat(41);
    assert_eq!(
        validate_name("node", &long),
        Err(FacilityError::InvalidName { kind: "node", name: long.clone(), reason: "must be 40 characters or fewer" })
    );
    assert_eq!(validate_name("node", &"a".repeat(40)), Ok(()));
    let wide = "é".repeat(21);
    assert_eq!(
        validate_name("node", &wide),
        Err(FacilityError::InvalidName { kind: "node", name: wide.clone(), reason: "must be 40 characters or fewer" })
    );
    assert_eq!(
        validate_name("bridge", "vf br"),
        Err(FacilityError::InvalidName {
            kind: "bridge",
            name: s("vf br"),
            reason: "use only ASCII letters, digits, hyphen, or underscore"
        })
    );
    let err = Topology::builder(s("bad name")).build().unwrap_err();
    assert_eq!(
        err.message(),
        "invalid facility name `bad name`: use only ASCII letters, digits, hyphen, or underscore"
    );
}

#[test]
fn too_many_items_and_bad_slots_are_refused() {
    let mut builder = Topology::builder(s("big"));
    for i in 0..241 {
        builder = builder.add_node(format!("n{i}"));
    }
    let err = builder.build().unwrap_err();
    assert_eq!(err, FacilityError::TooManyItems { kind: "nodes", max: 240, actual: 241 });
    assert_eq!(err.message(), "too many nodes: max 240, got 241");

    let err = Topology::builder(s("slots")).add_node_with_index(s("n"), 240).build().unwrap_err();
    assert_eq!(err, FacilityError::TooManyItems { kind: "node index", max: 239, actual: 240 });

    let err = Topology::builder(s("slots"))
        .add_node_with_index(s("a"), 3)
        .add_node_with_index(s("b"), 3)
        .build()
        .unwrap_err();
    assert_eq!(err, FacilityError::DuplicateName { kind: "node index", name: s("3") });
    assert_eq!(err.message(), "duplicate node index name `3`");
}

#[test]
fn empty_commands_are_refused() {
    let err = RootlessBootstrap::new(s("/tmp/vf"))
        .bootstrap_plan(CommandSpec::new(s(""), vec![]))
        .unwrap_err();
    assert_eq!(err, FacilityError::EmptyCommand { context: "bootstrap inner" });
    assert_eq!(err.message(), "bootstrap inner command must not be empty");

    let topology = Topology::builder(s("w"))
        .add_node(s("n"))
        .add_workload_pod(s("idle"), s("n"), vec![])
        .build()
        .unwrap();
    let err = topology.workload_plan().unwrap_err();
    assert_eq!(err, FacilityError::EmptyWorkload { pod: s("idle") });
    assert_eq!(err.message(), "pod `idle` has an empty workload command");
}

#[test]
fn missing_host_support_is_reported() {
    assert_eq!(ensure_linux_namespace_support(&linux_report()), Ok(()));
    let no_ip = SupportReport { has_ip_command: false, ..linux_report() };
    assert_eq!(ensure_linux_namespace_support(&no_ip), Err(FacilityError::MissingCommand { command: "ip" }));
    let no_unshare = SupportReport { has_unshare_command: false, ..linux_report() };
    assert_eq!(
        ensure_rootless_bootstrap_support(&no_unshare),
        Err(FacilityError::MissingCommand { command: "unshare" })
    );
    assert_eq!(
        FacilityError::MissingCommand { command: "unshare" }.message(),
        "required command `unshare` was not found in PATH"
    );
    let no_netns = SupportReport { has_proc_netns: false, ..linux_report() };
    assert_eq!(
        apply_plan(&no_netns, &CommandPlan::new()).unwrap_err(),
        FacilityError::UnsupportedPlatform { current: "linux" }
    );
}

#[test]
fn reading_the_host_needs_linux() {
    assert_eq!(ensure_linux("linux"), Ok(()));
    assert_eq!(ensure_linux("freebsd"), Err(FacilityError::UnsupportedPlatform { current: "freebsd" }));
}

#[test]
fn unknown_names_are_reported() {
    let topology = Topology::smoke().unwrap();
    let err = topology.node_namespace("node-9").unwrap_err();
    assert_eq!(err, FacilityError::UnknownNodeName { name: s("node-9") });
    assert_eq!(err.message(), "unknown node `node-9`");
    assert_eq!(topology.pod_namespace("db").unwrap_err().message(), "unknown pod `db`");
    assert_eq!(
        FacilityError::UnknownNode { pod: s("web"), node: s("n2") }.message(),
        "pod `web` references unknown node `n2`"
    );
}

#[test]
fn messages_of_runtime_errors() {
    assert_eq!(
        FacilityError::CommandFailed { command: s("ip link add x"), code: Some(2), stderr: s("  RTNETLINK answers: File exists\n") }
            .message(),
        "command failed: `ip link add x` exited with Some(2): RTNETLINK answers: File exists"
    );
    assert_eq!(
        FacilityError::CommandFailed { command: s("ip"), code: None, stderr: s("") }.message(),
        "command failed: `ip` exited with None: "
    );
    assert_eq!(
        FacilityError::NamespaceSyscall { syscall: "setns", detail: s("Operation not permitted") }.message(),
        "setns failed: Operation not permitted"
    );
    assert_eq!(FacilityError::ThreadPanicked.message(), "namespace thread panicked");
    assert_eq!(
        FacilityError::UnsupportedPlatform { current: "macos" }.message(),
        "Linux namespace execution is unsupported on `macos`"
    );
}
