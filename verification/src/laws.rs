//! Properties that hold of every topology and of the plans derived from it,
//! and of the names and contexts the command line chooses.

use vstd::prelude::*;
use crate::model::{
    bridge_setup_steps, cleanup_steps, cross_node_routes, first_n, link_prefix, node_cleanup_steps,
    node_host_veth, node_netns, node_node_veth, node_routes, node_setup_steps,
    nodes_cleanup_reversed, nodes_setup_steps, pod_cleanup_step, pod_ip, pod_netns,
    pod_node_side_ip, pod_node_veth, pod_pod_veth, pod_position, pod_setup_steps,
    pods_cleanup_reversed, pods_setup_steps, setup_steps, ip_command, lemma_pod_position, max_index,
    wf, alnum_chars, NodeView, PodView, TopologyView,
};
use crate::plan::{CommandView, Stage, StepView};
use crate::model::{cidr_text, node_of_pod, remote_route_step, uplink_ip};
use crate::net::ipv4_text;
use crate::text::decimal;
use crate::cli::{
    default_bridge_spec, has_node_named, has_pod_named, is_default_pod_spec, remember_node_spec,
    remember_pod_spec, scan_context, ContextView, StateView,
};
use crate::facility::{saved_nodes, saved_pods, state_builder, default_pods, has_default_node};
use crate::model::{build_result, node_position, lemma_node_position};
use crate::commands::{bridge_context_spec, facility_from_bridge_spec};
use crate::cli::{flag_value_spec, forget_node_spec, NodeStateView, PodStateView};
use crate::status::status_word_spec;
use crate::parse::strip_prefix_spec;

verus! {

proof fn lemma_pods_cleanup_best_effort(t: TopologyView, pods: Seq<PodView>)
    ensures
        forall|k: int| 0 <= k < pods_cleanup_reversed(t, pods).len() ==> (#[trigger] pods_cleanup_reversed(t, pods)[k]).allow_failure
            && pods_cleanup_reversed(t, pods)[k].stage == Stage::Cleanup,
        pods_cleanup_reversed(t, pods).len() == pods.len(),
    decreases pods.len(),
{
    if pods.len() > 0 {
        lemma_pods_cleanup_best_effort(t, pods.drop_first());
    }
}

proof fn lemma_nodes_cleanup_best_effort(t: TopologyView, nodes: Seq<NodeView>)
    ensures
        forall|k: int| 0 <= k < nodes_cleanup_reversed(t, nodes).len() ==> (#[trigger] nodes_cleanup_reversed(t, nodes)[k]).allow_failure
            && nodes_cleanup_reversed(t, nodes)[k].stage == Stage::Cleanup,
    decreases nodes.len(),
{
    if nodes.len() > 0 {
        lemma_nodes_cleanup_best_effort(t, nodes.drop_first());
        let a = nodes_cleanup_reversed(t, nodes.drop_first());
        let b = node_cleanup_steps(t, nodes.first());
        assert forall|k: int| 0 <= k < (a + b).len() implies (#[trigger] (a + b)[k]).allow_failure
            && (a + b)[k].stage == Stage::Cleanup by {
            if k >= a.len() {
                assert((a + b)[k] == b[k - a.len()]);
            }
        }
    }
}

/// Law: every step of a cleanup plan is a best-effort cleanup step, so a
/// teardown goes on past pieces that are already gone.
pub proof fn lemma_cleanup_is_best_effort(t: TopologyView)
    ensures
        forall|k: int| 0 <= k < cleanup_steps(t).len() ==> (#[trigger] cleanup_steps(t)[k]).allow_failure
            && cleanup_steps(t)[k].stage == Stage::Cleanup,
{
    lemma_pods_cleanup_best_effort(t, t.pods);
    lemma_nodes_cleanup_best_effort(t, t.nodes);
    let a = pods_cleanup_reversed(t, t.pods);
    let b = nodes_cleanup_reversed(t, t.nodes);
    let c = seq![crate::model::bridge_cleanup_step(t)];
    assert forall|k: int| 0 <= k < cleanup_steps(t).len() implies (#[trigger] cleanup_steps(t)[k]).allow_failure
        && cleanup_steps(t)[k].stage == Stage::Cleanup by {
        if k < a.len() {
            assert(cleanup_steps(t)[k] == a[k]);
        } else if k < a.len() + b.len() {
            assert(cleanup_steps(t)[k] == b[k - a.len()]);
        } else {
            assert(cleanup_steps(t)[k] == c[k - a.len() - b.len()]);
        }
    }
}

proof fn lemma_nodes_setup_strict(t: TopologyView, nodes: Seq<NodeView>)
    ensures
        forall|k: int| 0 <= k < nodes_setup_steps(t, nodes).len() ==> !(#[trigger] nodes_setup_steps(t, nodes)[k]).allow_failure,
    decreases nodes.len(),
{
    if nodes.len() > 0 {
        lemma_nodes_setup_strict(t, nodes.drop_last());
        let a = nodes_setup_steps(t, nodes.drop_last());
        let b = node_setup_steps(t, nodes.last());
        assert forall|k: int| 0 <= k < (a + b).len() implies !(#[trigger] (a + b)[k]).allow_failure by {
            if k >= a.len() {
                assert((a + b)[k] == b[k - a.len()]);
            }
        }
    }
}

proof fn lemma_pods_setup_strict(t: TopologyView, pods: Seq<PodView>)
    ensures
        forall|k: int| 0 <= k < pods_setup_steps(t, pods).len() ==> !(#[trigger] pods_setup_steps(t, pods)[k]).allow_failure,
    decreases pods.len(),
{
    if pods.len() > 0 {
        lemma_pods_setup_strict(t, pods.drop_last());
        let a = pods_setup_steps(t, pods.drop_last());
        let b = pod_setup_steps(t, pods.last());
        assert forall|k: int| 0 <= k < (a + b).len() implies !(#[trigger] (a + b)[k]).allow_failure by {
            if k >= a.len() {
                assert((a + b)[k] == b[k - a.len()]);
            }
        }
    }
}

proof fn lemma_node_routes_strict(t: TopologyView, n: NodeView, pods: Seq<PodView>)
    ensures
        forall|k: int| 0 <= k < node_routes(t, n, pods).len() ==> !(#[trigger] node_routes(t, n, pods)[k]).allow_failure,
    decreases pods.len(),
{
    if pods.len() > 0 {
        lemma_node_routes_strict(t, n, pods.drop_last());
    }
}

proof fn lemma_cross_routes_strict(t: TopologyView, nodes: Seq<NodeView>)
    ensures
        forall|k: int| 0 <= k < cross_node_routes(t, nodes).len() ==> !(#[trigger] cross_node_routes(t, nodes)[k]).allow_failure,
    decreases nodes.len(),
{
    if nodes.len() > 0 {
        lemma_cross_routes_strict(t, nodes.drop_last());
        lemma_node_routes_strict(t, nodes.last(), t.pods);
        let a = cross_node_routes(t, nodes.drop_last());
        let b = node_routes(t, nodes.last(), t.pods);
        assert forall|k: int| 0 <= k < (a + b).len() implies !(#[trigger] (a + b)[k]).allow_failure by {
            if k >= a.len() {
                assert((a + b)[k] == b[k - a.len()]);
            }
        }
    }
}

/// Law: every step of a setup plan must succeed; a failure stops the setup.
pub proof fn lemma_setup_is_strict(t: TopologyView)
    ensures
        forall|k: int| 0 <= k < setup_steps(t).len() ==> !(#[trigger] setup_steps(t)[k]).allow_failure,
{
    lemma_nodes_setup_strict(t, t.nodes);
    lemma_pods_setup_strict(t, t.pods);
    lemma_cross_routes_strict(t, t.nodes);
    let a = bridge_setup_steps(t);
    let b = nodes_setup_steps(t, t.nodes);
    let c = pods_setup_steps(t, t.pods);
    let d = cross_node_routes(t, t.nodes);
    assert forall|k: int| 0 <= k < setup_steps(t).len() implies !(#[trigger] setup_steps(t)[k]).allow_failure by {
        if k < a.len() {
            assert(setup_steps(t)[k] == a[k]);
        } else if k < a.len() + b.len() {
            assert(setup_steps(t)[k] == b[k - a.len()]);
        } else if k < a.len() + b.len() + c.len() {
            assert(setup_steps(t)[k] == c[k - a.len() - b.len()]);
        } else {
            assert(setup_steps(t)[k] == d[k - a.len() - b.len() - c.len()]);
        }
    }
}

/// Law: in a well-formed topology, distinct pods have disjoint /30s: their
/// pod addresses and node-side addresses all differ.
pub proof fn lemma_pod_addresses_distinct(t: TopologyView, i: int, j: int)
    requires
        wf(t),
        0 <= i < t.pods.len(),
        0 <= j < t.pods.len(),
        i != j,
    ensures
        pod_ip(t.pods[i]) != pod_ip(t.pods[j]),
        pod_node_side_ip(t.pods[i]) != pod_node_side_ip(t.pods[j]),
        pod_ip(t.pods[i]) != pod_node_side_ip(t.pods[j]),
{
    if i < j {
        assert(t.pods[i].index != t.pods[j].index);
    } else {
        assert(t.pods[j].index != t.pods[i].index);
    }
}

/// Law: in a well-formed topology every pod is found under its own name, so
/// resolving a pod's name gives that pod's address.
pub proof fn lemma_pods_resolve_to_themselves(t: TopologyView, i: int)
    requires
        wf(t),
        0 <= i < t.pods.len(),
    ensures
        pod_position(t.pods, t.pods[i].name) == Some(i),
{
    lemma_pod_position(t.pods, t.pods[i].name);
    match pod_position(t.pods, t.pods[i].name) {
        Some(k) => {
            if k < i {
                assert(t.pods[k].name != t.pods[i].name);
            }
        },
        None => {},
    }
}

/// Law: a node's namespace is never a pod's namespace, and distinct nodes
/// (or pods) have distinct namespaces.
pub proof fn lemma_namespaces_distinct(facility: Seq<char>, a: Seq<char>, b: Seq<char>)
    ensures
        node_netns(facility, a) != pod_netns(facility, b),
        a != b ==> node_netns(facility, a) != node_netns(facility, b),
        a != b ==> pod_netns(facility, a) != pod_netns(facility, b),
{
    reveal_strlit("vf-");
    reveal_strlit("-node-");
    reveal_strlit("-pod-");
    let k: int = 3 + facility.len() as int + 1;
    assert(node_netns(facility, a)[k] == 'n');
    assert(pod_netns(facility, b)[k] == 'p');
    let na = node_netns(facility, a);
    let nb = node_netns(facility, b);
    let head: int = 3 + facility.len() as int + 6;
    if a != b && na == nb {
        assert(na.subrange(head, na.len() as int) =~= a);
        assert(nb.subrange(head, nb.len() as int) =~= b);
    }
    let pa = pod_netns(facility, a);
    let pb = pod_netns(facility, b);
    let phead: int = 3 + facility.len() as int + 5;
    if a != b && pa == pb {
        assert(pa.subrange(phead, pa.len() as int) =~= a);
        assert(pb.subrange(phead, pb.len() as int) =~= b);
    }
}

proof fn lemma_decimal_short(n: nat)
    ensures
        n < 10 ==> decimal(n).len() == 1,
        n < 100 ==> decimal(n).len() <= 2,
        n < 1000 ==> decimal(n).len() <= 3,
    decreases n,
{
    if n >= 10 {
        lemma_decimal_short(n / 10);
    }
}

proof fn lemma_alnum_chars_len(s: Seq<char>)
    ensures
        alnum_chars(s).len() <= s.len(),
    decreases s.len(),
{
    if s.len() > 0 {
        lemma_alnum_chars_len(s.drop_last());
    }
}

/// Law: every link name is at most 13 characters, within the 15 that Linux
/// allows for an interface name, whatever the facility's name.
pub proof fn lemma_link_names_fit(facility: Seq<char>, n: NodeView, p: PodView)
    requires
        n.index <= max_index(),
        p.index <= max_index(),
    ensures
        node_host_veth(facility, n).len() <= 13,
        node_node_veth(facility, n).len() <= 13,
        pod_node_veth(facility, p).len() <= 13,
        pod_pod_veth(facility, p).len() <= 13,
{
    lemma_decimal_short(n.index as nat);
    lemma_decimal_short(p.index as nat);
    reveal_strlit("vf");
    reveal_strlit("h");
    reveal_strlit("n");
    reveal_strlit("pn");
    reveal_strlit("pp");
    assert(first_n(alnum_chars(facility), 6).len() <= 6);
    assert(link_prefix(facility).len() <= 8);
}

proof fn lemma_nodes_setup_contains(t: TopologyView, nodes: Seq<NodeView>, i: int, k: int)
    requires
        0 <= i < nodes.len(),
        0 <= k < node_setup_steps(t, nodes[i]).len(),
    ensures
        nodes_setup_steps(t, nodes).contains(node_setup_steps(t, nodes[i])[k]),
    decreases nodes.len(),
{
    let a = nodes_setup_steps(t, nodes.drop_last());
    let b = node_setup_steps(t, nodes.last());
    if i == nodes.len() - 1 {
        assert((a + b)[a.len() + k] == b[k]);
    } else {
        assert(nodes.drop_last()[i] == nodes[i]);
        lemma_nodes_setup_contains(t, nodes.drop_last(), i, k);
        let w = choose|w: int| 0 <= w < a.len() && a[w] == node_setup_steps(t, nodes[i])[k];
        assert((a + b)[w] == a[w]);
    }
}

proof fn lemma_pods_setup_contains(t: TopologyView, pods: Seq<PodView>, i: int, k: int)
    requires
        0 <= i < pods.len(),
        0 <= k < pod_setup_steps(t, pods[i]).len(),
    ensures
        pods_setup_steps(t, pods).contains(pod_setup_steps(t, pods[i])[k]),
    decreases pods.len(),
{
    let a = pods_setup_steps(t, pods.drop_last());
    let b = pod_setup_steps(t, pods.last());
    if i == pods.len() - 1 {
        assert((a + b)[a.len() + k] == b[k]);
    } else {
        assert(pods.drop_last()[i] == pods[i]);
        lemma_pods_setup_contains(t, pods.drop_last(), i, k);
        let w = choose|w: int| 0 <= w < a.len() && a[w] == pod_setup_steps(t, pods[i])[k];
        assert((a + b)[w] == a[w]);
    }
}

proof fn lemma_nodes_cleanup_contains(t: TopologyView, nodes: Seq<NodeView>, i: int, k: int)
    requires
        0 <= i < nodes.len(),
        0 <= k < node_cleanup_steps(t, nodes[i]).len(),
    ensures
        nodes_cleanup_reversed(t, nodes).contains(node_cleanup_steps(t, nodes[i])[k]),
    decreases nodes.len(),
{
    let a = nodes_cleanup_reversed(t, nodes.drop_first());
    let b = node_cleanup_steps(t, nodes.first());
    if i == 0 {
        assert((a + b)[a.len() + k] == b[k]);
    } else {
        assert(nodes.drop_first()[i - 1] == nodes[i]);
        lemma_nodes_cleanup_contains(t, nodes.drop_first(), i - 1, k);
        let w = choose|w: int| 0 <= w < a.len() && a[w] == node_cleanup_steps(t, nodes[i])[k];
        assert((a + b)[w] == a[w]);
    }
}

proof fn lemma_pods_cleanup_contains(t: TopologyView, pods: Seq<PodView>, i: int)
    requires
        0 <= i < pods.len(),
    ensures
        pods_cleanup_reversed(t, pods).contains(pod_cleanup_step(t, pods[i])),
    decreases pods.len(),
{
    let a = pods_cleanup_reversed(t, pods.drop_first());
    if i == 0 {
        assert(a.push(pod_cleanup_step(t, pods.first()))[a.len() as int] == pod_cleanup_step(t, pods[i]));
    } else {
        assert(pods.drop_first()[i - 1] == pods[i]);
        lemma_pods_cleanup_contains(t, pods.drop_first(), i - 1);
        let w = choose|w: int| 0 <= w < a.len() && a[w] == pod_cleanup_step(t, pods[i]);
        assert(a.push(pod_cleanup_step(t, pods.first()))[w] == a[w]);
    }
}

/// Law: every namespace that setup adds for a node, cleanup deletes: the
/// setup plan holds the step `ip netns add <ns>` and the cleanup plan the
/// step `ip netns del <ns>`.
pub proof fn lemma_node_namespace_created_and_removed(t: TopologyView, i: int)
    requires
        0 <= i < t.nodes.len(),
    ensures
        setup_steps(t).contains(node_setup_steps(t, t.nodes[i])[0]),
        node_setup_steps(t, t.nodes[i])[0].command == ip_command(seq!["netns"@, "add"@, node_netns(t.name, t.nodes[i].name)]),
        cleanup_steps(t).contains(node_cleanup_steps(t, t.nodes[i])[0]),
        node_cleanup_steps(t, t.nodes[i])[0].command == ip_command(seq!["netns"@, "del"@, node_netns(t.name, t.nodes[i].name)]),
{
    let a = bridge_setup_steps(t);
    let b = nodes_setup_steps(t, t.nodes);
    let c = pods_setup_steps(t, t.pods);
    let d = cross_node_routes(t, t.nodes);
    lemma_nodes_setup_contains(t, t.nodes, i, 0);
    let w = choose|w: int| 0 <= w < b.len() && b[w] == node_setup_steps(t, t.nodes[i])[0];
    assert(setup_steps(t)[a.len() + w] == b[w]);
    let pa = pods_cleanup_reversed(t, t.pods);
    let pb = nodes_cleanup_reversed(t, t.nodes);
    lemma_nodes_cleanup_contains(t, t.nodes, i, 0);
    let v = choose|v: int| 0 <= v < pb.len() && pb[v] == node_cleanup_steps(t, t.nodes[i])[0];
    assert(cleanup_steps(t)[pa.len() + v] == pb[v]);
}

/// Law: every namespace that setup adds for a pod, cleanup deletes.
pub proof fn lemma_pod_namespace_created_and_removed(t: TopologyView, i: int)
    requires
        0 <= i < t.pods.len(),
    ensures
        setup_steps(t).contains(pod_setup_steps(t, t.pods[i])[0]),
        pod_setup_steps(t, t.pods[i])[0].command == ip_command(seq!["netns"@, "add"@, pod_netns(t.name, t.pods[i].name)]),
        cleanup_steps(t).contains(pod_cleanup_step(t, t.pods[i])),
        pod_cleanup_step(t, t.pods[i]).command == ip_command(seq!["netns"@, "del"@, pod_netns(t.name, t.pods[i].name)]),
{
    let a = bridge_setup_steps(t);
    let b = nodes_setup_steps(t, t.nodes);
    let c = pods_setup_steps(t, t.pods);
    lemma_pods_setup_contains(t, t.pods, i, 0);
    let w = choose|w: int| 0 <= w < c.len() && c[w] == pod_setup_steps(t, t.pods[i])[0];
    assert(setup_steps(t)[a.len() + b.len() + w] == c[w]);
    let pa = pods_cleanup_reversed(t, t.pods);
    lemma_pods_cleanup_contains(t, t.pods, i);
    let v = choose|v: int| 0 <= v < pa.len() && pa[v] == pod_cleanup_step(t, t.pods[i]);
    assert(cleanup_steps(t)[v] == pa[v]);
}

/// A facility name `x` (not `smoke`, at most 36 characters) has the
/// bridge `vf-x`, and the bridge `vf-x` belongs to facility `x`: so
/// `create bridge vf-lab1` works on facility `lab1`, whose bridge is
/// `vf-lab1`.
pub proof fn lemma_bridge_names_round_trip(x: Seq<char>)
    requires
        0 < x.len() <= 36,
        x != "smoke"@,
    ensures
        default_bridge_spec(x) == "vf-"@ + x,
        facility_from_bridge_spec("vf-"@ + x) == x,
{
    reveal_strlit("vf-");
    let b = "vf-"@ + x;
    assert(b.take(3) =~= "vf-"@);
    assert(b.skip(3) =~= x);
    assert(strip_prefix_spec(b, "vf-"@) == Some(x));
    assert(first_n(x, 36) == x);
}

proof fn lemma_scan_without_flags(args: Seq<Seq<char>>, i: int, name: Seq<char>, bridge: Seq<char>)
    requires
        0 <= i,
        forall|j: int| 0 <= j < args.len() ==> args[j] != "--name"@ && args[j] != "--bridge"@ && args[j] != "--network"@,
    ensures
        scan_context(args, i, name, bridge, false, false) == Ok::<ContextView, Seq<char>>(ContextView { name, bridge }),
    decreases args.len() - i,
{
    if i < args.len() {
        if args[i] == "--node"@ {
            lemma_scan_without_flags(args, if i + 2 <= args.len() { i + 2 } else { args.len() as int }, name, bridge);
        } else {
            lemma_scan_without_flags(args, i + 1, name, bridge);
        }
    }
}

/// Without `--name`, `--bridge` and `--network`, a command works on the
/// saved context.
pub proof fn lemma_saved_context_without_flags(args: Seq<Seq<char>>, saved: ContextView)
    requires
        forall|j: int| 0 <= j < args.len() ==> args[j] != "--name"@ && args[j] != "--bridge"@ && args[j] != "--network"@,
    ensures
        scan_context(args, 0, saved.name, saved.bridge, false, false) == Ok::<ContextView, Seq<char>>(saved),
{
    lemma_scan_without_flags(args, 0, saved.name, saved.bridge);
}

/// A node remembered in a saved state is a node of that facility's
/// topology, whenever the topology builds: custom nodes are not refused.
pub proof fn lemma_remembered_node_in_topology(c: ContextView, s: StateView, n: Seq<char>)
    ensures
        build_result(state_builder(c, remember_node_spec(s, n))) matches Ok(t) ==> node_position(t.nodes, n) is Some,
{
    let s2 = remember_node_spec(s, n);
    let b = state_builder(c, s2);
    let i: int = if has_node_named(s, n) {
        choose|i: int| 0 <= i < s.nodes.len() && (#[trigger] s.nodes[i]).name == n
    } else {
        s.nodes.len() as int
    };
    assert(0 <= i < s2.nodes.len() && s2.nodes[i].name == n);
    assert(b.nodes == saved_nodes(s2.nodes));
    assert(b.nodes[i].name == n);
    if let Ok(t) = build_result(b) {
        assert(t.nodes[i].name == n);
        lemma_node_position(t.nodes, n);
    }
}

/// A pod remembered in a saved state is a pod of that facility's topology,
/// whenever the topology builds. A default pod (`proxy`, `server`, `client`)
/// is not added to the state: it belongs to the topology when the state has
/// no nodes or has `default-node`.
pub proof fn lemma_remembered_pod_in_topology(c: ContextView, s: StateView, p: Seq<char>, node: Seq<char>)
    requires
        is_default_pod_spec(p) ==> s.nodes.len() == 0 || has_default_node(s.nodes),
    ensures
        build_result(state_builder(c, remember_pod_spec(s, p, node))) matches Ok(t)
            ==> exists|i: int| 0 <= i < t.pods.len() && (#[trigger] t.pods[i]).name == p,
{
    reveal_strlit("proxy");
    reveal_strlit("server");
    reveal_strlit("client");
    let s2 = remember_pod_spec(s, p, node);
    let b = state_builder(c, s2);
    assert(s2.nodes == s.nodes);
    if let Ok(t) = build_result(b) {
        if is_default_pod_spec(p) {
            let d = default_pods(s.nodes.len() != 0);
            let j: int = if p == "proxy"@ { 0 } else if p == "server"@ { 1 } else { 2 };
            assert(d[j].name == p);
            assert(b.pods[j] == d[j]);
            assert(t.pods[j].name == p);
        } else {
            let i: int = if has_pod_named(s, p) {
                choose|i: int| 0 <= i < s.pods.len() && (#[trigger] s.pods[i]).name == p
            } else {
                s.pods.len() as int
            };
            assert(0 <= i < s2.pods.len() && s2.pods[i].name == p);
            let sp = saved_pods(s2.pods);
            assert(sp[i].name == p);
            let head = b.pods.len() - sp.len();
            assert(b.pods[head + i] == sp[i]);
            assert(t.pods[head + i].name == p);
        }
    }
}

/// A pod's setup is eleven strict `ip` steps of the setup stage: the first
/// creates the pod's namespace, and the third moves the node end of its
/// veth pair into its node's namespace.
pub proof fn lemma_pod_setup_shape(t: TopologyView, p: PodView)
    ensures
        pod_setup_steps(t, p).len() == 11,
        forall|k: int| 0 <= k < 11 ==> !(#[trigger] pod_setup_steps(t, p)[k]).allow_failure
            && pod_setup_steps(t, p)[k].stage == Stage::Setup
            && pod_setup_steps(t, p)[k].command.program == "ip"@,
        pod_setup_steps(t, p)[0].command.args == seq!["netns"@, "add"@, pod_netns(t.name, p.name)],
        pod_setup_steps(t, p)[2].command.args[4] == node_netns(t.name, p.node),
{
    let steps = pod_setup_steps(t, p);
    assert forall|k: int| 0 <= k < 11 implies !(#[trigger] steps[k]).allow_failure
        && steps[k].stage == Stage::Setup && steps[k].command.program == "ip"@ by {
        if k == 0 {} else if k == 1 {} else if k == 2 {} else if k == 3 {} else if k == 4 {}
        else if k == 5 {} else if k == 6 {} else if k == 7 {} else if k == 8 {} else if k == 9 {} else {}
    }
}

/// The overall state is `running` exactly when networks, nodes and pods are
/// all present, `down` exactly when none is, and `partial` otherwise.
pub proof fn lemma_status_word_meaning(networks: nat, nodes: nat, pods: nat)
    ensures
        (status_word_spec(networks, nodes, pods) == "running"@) == (networks > 0 && nodes > 0 && pods > 0),
        (status_word_spec(networks, nodes, pods) == "down"@) == (networks == 0 && nodes == 0 && pods == 0),
        (status_word_spec(networks, nodes, pods) == "partial"@) == (!(networks > 0 && nodes > 0 && pods > 0)
            && !(networks == 0 && nodes == 0 && pods == 0)),
{
    reveal_strlit("running");
    reveal_strlit("down");
    reveal_strlit("partial");
    assert("running"@[0] != "down"@[0]);
    assert("running"@[0] != "partial"@[0]);
    assert("partial"@[0] != "down"@[0]);
}

/// For any bridge `b`, `create bridge b` (or `delete bridge b`) without
/// `--name` works on bridge `b` and on the facility `b` is named after.
pub proof fn lemma_bridge_argument_names_facility(args: Seq<Seq<char>>, b: Seq<char>, action: Seq<char>)
    requires
        flag_value_spec(args, "--name"@) is None,
    ensures
        bridge_context_spec(args, seq!["bridge"@, b], action)
            == Ok::<Option<ContextView>, Seq<char>>(Some(ContextView { name: facility_from_bridge_spec(b), bridge: b })),
{
    assert(seq!["bridge"@, b][1] == b);
}

/// `create bridge vf-x` (or `delete bridge vf-x`) without `--name` works on
/// facility `x` and bridge `vf-x`; with `--name n` on facility `n`.
pub proof fn lemma_bridge_target_names_facility(args: Seq<Seq<char>>, x: Seq<char>, action: Seq<char>)
    ensures
        flag_value_spec(args, "--name"@) is None ==> bridge_context_spec(args, seq!["bridge"@, "vf-"@ + x], action)
            == Ok::<Option<ContextView>, Seq<char>>(Some(ContextView { name: x, bridge: "vf-"@ + x })),
        flag_value_spec(args, "--name"@) matches Some(n) ==> bridge_context_spec(args, seq!["bridge"@, "vf-"@ + x], action)
            == Ok::<Option<ContextView>, Seq<char>>(Some(ContextView { name: n, bridge: "vf-"@ + x })),
{
    reveal_strlit("vf-");
    let b = "vf-"@ + x;
    assert(b.take(3) =~= "vf-"@);
    assert(b.skip(3) =~= x);
    assert(strip_prefix_spec(b, "vf-"@) == Some(x));
    assert(seq!["bridge"@, b][1] == b);
}

/// Forgetting node `n`: no node called `n` and no pod on `n` remains; every
/// other node and every pod on another node is kept; nothing new appears.
pub proof fn lemma_forget_node_drops_its_pods(s: StateView, n: Seq<char>)
    ensures
        forget_node_spec(s, n).context == s.context,
        forall|i: int| 0 <= i < forget_node_spec(s, n).nodes.len() ==> (#[trigger] forget_node_spec(s, n).nodes[i]).name != n
            && s.nodes.contains(forget_node_spec(s, n).nodes[i]),
        forall|i: int| 0 <= i < forget_node_spec(s, n).pods.len() ==> (#[trigger] forget_node_spec(s, n).pods[i]).node != n
            && s.pods.contains(forget_node_spec(s, n).pods[i]),
        forall|j: int| 0 <= j < s.nodes.len() && (#[trigger] s.nodes[j]).name != n ==> forget_node_spec(s, n).nodes.contains(s.nodes[j]),
        forall|j: int| 0 <= j < s.pods.len() && (#[trigger] s.pods[j]).node != n ==> forget_node_spec(s, n).pods.contains(s.pods[j]),
{
    let r = forget_node_spec(s, n);
    let np = |x: NodeStateView| x.name != n;
    let pp = |x: PodStateView| x.node != n;
    assert(r.nodes == s.nodes.filter(np));
    assert(r.pods == s.pods.filter(pp));
    assert forall|i: int| 0 <= i < r.nodes.len() implies (#[trigger] r.nodes[i]).name != n && s.nodes.contains(r.nodes[i]) by {
        s.nodes.lemma_filter_pred(np, i);
        assert(r.nodes.contains(r.nodes[i]));
        s.nodes.lemma_filter_contains_rev(np, r.nodes[i]);
    }
    assert forall|i: int| 0 <= i < r.pods.len() implies (#[trigger] r.pods[i]).node != n && s.pods.contains(r.pods[i]) by {
        s.pods.lemma_filter_pred(pp, i);
        assert(r.pods.contains(r.pods[i]));
        s.pods.lemma_filter_contains_rev(pp, r.pods[i]);
    }
    assert forall|j: int| 0 <= j < s.nodes.len() && (#[trigger] s.nodes[j]).name != n implies r.nodes.contains(s.nodes[j]) by {
        s.nodes.lemma_filter_contains(np, j);
    }
    assert forall|j: int| 0 <= j < s.pods.len() && (#[trigger] s.pods[j]).node != n implies r.pods.contains(s.pods[j]) by {
        s.pods.lemma_filter_contains(pp, j);
    }
}

/// Reading the arguments from `i` reaches position `k` as a word of its
/// own (not as a flag's value), every flag before it having its value.
pub open spec fn scan_reads(args: Seq<Seq<char>>, i: int, k: int) -> bool
    decreases args.len() - i,
{
    if i < 0 || i > k || i >= args.len() {
        false
    } else if i == k {
        true
    } else if args[i] == "--name"@ || args[i] == "--bridge"@ || args[i] == "--network"@ {
        i + 1 < args.len() && scan_reads(args, i + 2, k)
    } else if args[i] == "--node"@ {
        scan_reads(args, if i + 2 <= args.len() { i + 2 } else { args.len() as int }, k)
    } else {
        scan_reads(args, i + 1, k)
    }
}

proof fn lemma_bridge_stays(args: Seq<Seq<char>>, i: int, name: Seq<char>, bridge: Seq<char>, name_set: bool)
    requires
        0 <= i,
        forall|j: int| i <= j < args.len() ==> args[j] != "--bridge"@ && args[j] != "--network"@,
    ensures
        scan_context(args, i, name, bridge, name_set, true) matches Ok(c) ==> c.bridge == bridge,
    decreases args.len() - i,
{
    if i < args.len() {
        if args[i] == "--name"@ {
            if i + 1 < args.len() {
                lemma_bridge_stays(args, i + 2, args[i + 1], bridge, true);
            }
        } else if args[i] == "--node"@ {
            lemma_bridge_stays(args, if i + 2 <= args.len() { i + 2 } else { args.len() as int }, name, bridge, name_set);
        } else {
            lemma_bridge_stays(args, i + 1, name, bridge, name_set);
        }
    }
}

proof fn lemma_bridge_flag_from(args: Seq<Seq<char>>, i: int, k: int, name: Seq<char>, bridge: Seq<char>, name_set: bool, bridge_set: bool)
    requires
        scan_reads(args, i, k),
        0 <= k < args.len(),
        args[k] == "--bridge"@,
        k + 1 < args.len(),
        forall|j: int| k + 1 < j < args.len() ==> args[j] != "--bridge"@ && args[j] != "--network"@,
    ensures
        scan_context(args, i, name, bridge, name_set, bridge_set) matches Ok(c) ==> c.bridge == args[k + 1],
    decreases args.len() - i,
{
    reveal_strlit("--name");
    reveal_strlit("--bridge");
    reveal_strlit("--network");
    reveal_strlit("--node");
    assert("--bridge"@[2] != "--name"@[2]);
    assert("--bridge"@.len() != "--network"@.len());
    assert("--bridge"@[2] != "--node"@[2]);
    if i == k {
        lemma_bridge_stays(args, k + 2, name, args[k + 1], name_set);
    } else if args[i] == "--name"@ {
        lemma_bridge_flag_from(args, i + 2, k, args[i + 1], bridge, true, bridge_set);
    } else if args[i] == "--bridge"@ {
        lemma_bridge_flag_from(args, i + 2, k, name, args[i + 1], name_set, true);
    } else if args[i] == "--network"@ {
        lemma_bridge_flag_from(args, i + 2, k, if name_set { name } else { facility_from_bridge_spec(args[i + 1]) },
            args[i + 1], name_set, true);
    } else if args[i] == "--node"@ {
        lemma_bridge_flag_from(args, if i + 2 <= args.len() { i + 2 } else { args.len() as int }, k, name, bridge,
            name_set, bridge_set);
    } else {
        lemma_bridge_flag_from(args, i + 1, k, name, bridge, name_set, bridge_set);
    }
}

/// The bridge of the selected context is the value of the last `--bridge`
/// that is read as a flag, when no `--bridge` or `--network` follows it,
/// whatever `--name` says before or after it.
pub proof fn lemma_bridge_flag_wins(args: Seq<Seq<char>>, k: int, saved: ContextView)
    requires
        scan_reads(args, 0, k),
        0 <= k < args.len(),
        args[k] == "--bridge"@,
        k + 1 < args.len(),
        forall|j: int| k + 1 < j < args.len() ==> args[j] != "--bridge"@ && args[j] != "--network"@,
    ensures
        scan_context(args, 0, saved.name, saved.bridge, false, false) matches Ok(c) ==> c.bridge == args[k + 1],
{
    lemma_bridge_flag_from(args, 0, k, saved.name, saved.bridge, false, false);
}

/// `--name n --bridge b` selects facility `n` on bridge `b`, in either
/// order; `--name n` alone selects `n` on its default bridge.
pub proof fn lemma_name_and_bridge_flags(n: Seq<char>, b: Seq<char>, saved: ContextView)
    ensures
        scan_context(seq!["--name"@, n, "--bridge"@, b], 0, saved.name, saved.bridge, false, false)
            == Ok::<ContextView, Seq<char>>(ContextView { name: n, bridge: b }),
        scan_context(seq!["--bridge"@, b, "--name"@, n], 0, saved.name, saved.bridge, false, false)
            == Ok::<ContextView, Seq<char>>(ContextView { name: n, bridge: b }),
        scan_context(seq!["--name"@, n], 0, saved.name, saved.bridge, false, false)
            == Ok::<ContextView, Seq<char>>(ContextView { name: n, bridge: default_bridge_spec(n) }),
{
    reveal_strlit("--name");
    reveal_strlit("--bridge");
    assert("--name"@[2] != "--bridge"@[2]);
    let a1 = seq!["--name"@, n, "--bridge"@, b];
    let a2 = seq!["--bridge"@, b, "--name"@, n];
    let a3 = seq!["--name"@, n];
    assert(scan_context(a1, 4, n, b, true, true) == Ok::<ContextView, Seq<char>>(ContextView { name: n, bridge: b }));
    assert(scan_context(a1, 2, n, saved.bridge, true, false) == scan_context(a1, 4, n, b, true, true));
    assert(scan_context(a2, 4, n, b, true, true) == Ok::<ContextView, Seq<char>>(ContextView { name: n, bridge: b }));
    assert(scan_context(a2, 2, saved.name, b, false, true) == scan_context(a2, 4, n, b, true, true));
    assert(scan_context(a3, 2, n, saved.bridge, true, false)
        == Ok::<ContextView, Seq<char>>(ContextView { name: n, bridge: default_bridge_spec(n) }));
}

/// `s` is the step that routes, in node `n`, to pod `p` of another node.
#[verifier::opaque]
spec fn routes_to(t: TopologyView, n: NodeView, p: PodView, s: StepView) -> bool {
    s == remote_route_step(t, n, p)
}

proof fn lemma_node_routes_are_remote(t: TopologyView, n: NodeView, pods: Seq<PodView>)
    ensures
        forall|k: int| 0 <= k < node_routes(t, n, pods).len() ==> exists|j: int| 0 <= j < pods.len()
            && (#[trigger] pods[j]).node != n.name && routes_to(t, n, pods[j], #[trigger] node_routes(t, n, pods)[k]),
        forall|j: int| 0 <= j < pods.len() && (#[trigger] pods[j]).node != n.name
            ==> exists|k: int| 0 <= k < node_routes(t, n, pods).len()
                && routes_to(t, n, pods[j], #[trigger] node_routes(t, n, pods)[k]),
    decreases pods.len(),
{
    if pods.len() > 0 {
        let init = pods.drop_last();
        lemma_node_routes_are_remote(t, n, init);
        let r = node_routes(t, n, pods);
        let ri = node_routes(t, n, init);
        assert(forall|k: int| 0 <= k < ri.len() ==> r[k] == #[trigger] ri[k]);
        assert(forall|j: int| 0 <= j < init.len() ==> pods[j] == #[trigger] init[j]);
        if pods.last().node != n.name {
            assert(r[r.len() - 1] == remote_route_step(t, n, pods.last()));
            assert(routes_to(t, n, pods.last(), r[r.len() - 1])) by { reveal(routes_to); }
        }
        assert forall|k: int| 0 <= k < r.len() implies exists|j: int| 0 <= j < pods.len()
            && (#[trigger] pods[j]).node != n.name && routes_to(t, n, pods[j], #[trigger] r[k]) by {
            if k < ri.len() {
                let j = choose|j: int| 0 <= j < init.len() && (#[trigger] init[j]).node != n.name
                    && routes_to(t, n, init[j], #[trigger] ri[k]);
                assert(pods[j] == init[j]);
            } else {
                assert(pods[pods.len() - 1] == pods.last());
            }
        }
        assert forall|j: int| 0 <= j < pods.len() && (#[trigger] pods[j]).node != n.name
            implies exists|k: int| 0 <= k < r.len() && routes_to(t, n, pods[j], #[trigger] r[k]) by {
            if j < init.len() {
                assert(init[j] == pods[j]);
                let k = choose|k: int| 0 <= k < ri.len() && routes_to(t, n, init[j], #[trigger] ri[k]);
                assert(r[k] == ri[k]);
            } else {
                assert(pods[j] == pods.last());
            }
        }
    }
}

proof fn lemma_cross_route_is_remote(t: TopologyView, nodes: Seq<NodeView>, k: int) -> (ij: (int, int))
    requires
        0 <= k < cross_node_routes(t, nodes).len(),
    ensures
        0 <= ij.0 < nodes.len(),
        0 <= ij.1 < t.pods.len(),
        t.pods[ij.1].node != nodes[ij.0].name,
        routes_to(t, nodes[ij.0], t.pods[ij.1], cross_node_routes(t, nodes)[k]),
    decreases nodes.len(),
{
    let init = nodes.drop_last();
    let last = nodes.last();
    let a = cross_node_routes(t, init);
    let b = node_routes(t, last, t.pods);
    let r = cross_node_routes(t, nodes);
    assert(r == a + b);
    if k < a.len() {
        let ij = lemma_cross_route_is_remote(t, init, k);
        assert(nodes[ij.0] == init[ij.0]);
        assert(r[k] == a[k]);
        ij
    } else {
        lemma_node_routes_are_remote(t, last, t.pods);
        let k2 = k - a.len();
        assert(r[k] == b[k2]);
        let j = choose|j: int| 0 <= j < t.pods.len() && (#[trigger] t.pods[j]).node != last.name
            && routes_to(t, last, t.pods[j], #[trigger] b[k2]);
        assert(nodes[nodes.len() - 1] == last);
        (nodes.len() - 1, j)
    }
}

proof fn lemma_cross_routes_complete(t: TopologyView, nodes: Seq<NodeView>)
    ensures
        forall|i: int, j: int| 0 <= i < nodes.len() && 0 <= j < t.pods.len()
            && (#[trigger] t.pods[j]).node != (#[trigger] nodes[i]).name
            ==> exists|k: int| 0 <= k < cross_node_routes(t, nodes).len()
                && routes_to(t, nodes[i], t.pods[j], #[trigger] cross_node_routes(t, nodes)[k]),
    decreases nodes.len(),
{
    if nodes.len() > 0 {
        let init = nodes.drop_last();
        let last = nodes.last();
        lemma_cross_routes_complete(t, init);
        lemma_node_routes_are_remote(t, last, t.pods);
        let a = cross_node_routes(t, init);
        let b = node_routes(t, last, t.pods);
        let r = cross_node_routes(t, nodes);
        assert(r == a + b);
        assert forall|i: int, j: int| 0 <= i < nodes.len() && 0 <= j < t.pods.len()
            && (#[trigger] t.pods[j]).node != (#[trigger] nodes[i]).name
            implies exists|k: int| 0 <= k < r.len() && routes_to(t, nodes[i], t.pods[j], #[trigger] r[k]) by {
            if i < init.len() {
                assert(init[i] == nodes[i]);
                let k = choose|k: int| 0 <= k < a.len() && routes_to(t, init[i], t.pods[j], #[trigger] a[k]);
                assert(r[k] == a[k]);
            } else {
                assert(nodes[i] == last);
                let k = choose|k: int| 0 <= k < b.len() && routes_to(t, last, t.pods[j], #[trigger] b[k]);
                assert(r[a.len() + k] == b[k]);
            }
        }
    }
}

/// The command that, in node `n`'s namespace, routes to pod `p` through the
/// uplink address of node `gateway`.
pub open spec fn route_via(t: TopologyView, n: NodeView, p: PodView, gateway: NodeView) -> CommandView {
    CommandView {
        program: "ip"@,
        args: seq!["netns"@, "exec"@, node_netns(t.name, n.name), "ip"@, "route"@, "add"@,
            cidr_text(pod_ip(p), "32"@), "via"@, ipv4_text(uplink_ip(t, gateway))],
    }
}

/// The cross-node routes of a well-formed topology's setup: every one is,
/// in some node `n`, a route to a pod `p` of another node through the
/// uplink address of the node `p` sits on, which is not `n`'s own address;
/// and every node has such a route to every pod of every other node.
pub proof fn lemma_cross_routes_go_through_the_pod_node(t: TopologyView)
    requires
        wf(t),
    ensures
        forall|k: int| #![trigger cross_node_routes(t, t.nodes)[k]] 0 <= k < cross_node_routes(t, t.nodes).len()
            ==> exists|i: int, j: int, q: int| #![trigger t.nodes[i], t.pods[j], t.nodes[q]]
            0 <= i < t.nodes.len() && 0 <= j < t.pods.len() && 0 <= q < t.nodes.len()
            && t.pods[j].node == t.nodes[q].name && t.nodes[q].name != t.nodes[i].name
            && cross_node_routes(t, t.nodes)[k].command == route_via(t, t.nodes[i], t.pods[j], t.nodes[q])
            && uplink_ip(t, t.nodes[q]) != uplink_ip(t, t.nodes[i]),
        forall|i: int, j: int, q: int| 0 <= i < t.nodes.len() && 0 <= j < t.pods.len() && 0 <= q < t.nodes.len()
            && (#[trigger] t.pods[j]).node == (#[trigger] t.nodes[q]).name && t.nodes[q].name != (#[trigger] t.nodes[i]).name
            ==> exists|k: int| 0 <= k < setup_steps(t).len()
                && (#[trigger] setup_steps(t)[k]).command == route_via(t, t.nodes[i], t.pods[j], t.nodes[q]),
{
    let r = cross_node_routes(t, t.nodes);
    assert forall|k: int| #![trigger r[k]] 0 <= k < r.len() implies exists|i: int, j: int, q: int|
        #![trigger t.nodes[i], t.pods[j], t.nodes[q]]
        0 <= i < t.nodes.len() && 0 <= j < t.pods.len() && 0 <= q < t.nodes.len()
        && t.pods[j].node == t.nodes[q].name && t.nodes[q].name != t.nodes[i].name
        && r[k].command == route_via(t, t.nodes[i], t.pods[j], t.nodes[q])
        && uplink_ip(t, t.nodes[q]) != uplink_ip(t, t.nodes[i]) by {
        let (i, j, q) = lemma_cross_route_shape(t, k);
        assert(t.nodes[i] == t.nodes[i] && t.pods[j] == t.pods[j] && t.nodes[q] == t.nodes[q]);
    }
    assert forall|i: int, j: int, q: int| 0 <= i < t.nodes.len() && 0 <= j < t.pods.len() && 0 <= q < t.nodes.len()
        && (#[trigger] t.pods[j]).node == (#[trigger] t.nodes[q]).name && t.nodes[q].name != (#[trigger] t.nodes[i]).name
        implies exists|k: int| 0 <= k < setup_steps(t).len()
            && (#[trigger] setup_steps(t)[k]).command == route_via(t, t.nodes[i], t.pods[j], t.nodes[q]) by {
        let k = lemma_cross_route_present(t, i, j, q);
        assert(setup_steps(t)[k] == setup_steps(t)[k]);
    }
}

/// The node a pod of a well-formed topology sits on is the one its name
/// gives, and two distinct nodes have distinct uplink addresses.
proof fn lemma_pod_node_is_named(t: TopologyView, j: int, q: int)
    requires
        wf(t),
        0 <= j < t.pods.len(),
        0 <= q < t.nodes.len(),
        t.pods[j].node == t.nodes[q].name,
    ensures
        node_of_pod(t, t.pods[j]) == t.nodes[q],
{
    assert(node_position(t.nodes, t.pods[j].node) is Some);
    lemma_node_position(t.nodes, t.pods[j].node);
    let p = node_position(t.nodes, t.pods[j].node).unwrap();
    if p != q {
        if p < q {
            assert(t.nodes[p].name != t.nodes[q].name);
        } else {
            assert(t.nodes[q].name != t.nodes[p].name);
        }
    }
}

proof fn lemma_distinct_uplinks(t: TopologyView, i: int, q: int)
    requires
        wf(t),
        0 <= i < t.nodes.len(),
        0 <= q < t.nodes.len(),
        t.nodes[q].name != t.nodes[i].name,
    ensures
        uplink_ip(t, t.nodes[q]) != uplink_ip(t, t.nodes[i]),
{
    if q < i {
        assert(t.nodes[q].index != t.nodes[i].index);
    } else {
        assert(t.nodes[i].index != t.nodes[q].index);
    }
}

proof fn lemma_route_command(t: TopologyView, n: NodeView, p: PodView, s: StepView)
    requires
        routes_to(t, n, p, s),
    ensures
        s.command == route_via(t, n, p, node_of_pod(t, p)),
{
    reveal(routes_to);
    assert(s.command.args =~= route_via(t, n, p, node_of_pod(t, p)).args);
}

proof fn lemma_cross_route_shape(t: TopologyView, k: int) -> (ijq: (int, int, int))
    requires
        wf(t),
        0 <= k < cross_node_routes(t, t.nodes).len(),
    ensures
        0 <= ijq.0 < t.nodes.len() && 0 <= ijq.1 < t.pods.len() && 0 <= ijq.2 < t.nodes.len(),
        t.pods[ijq.1].node == t.nodes[ijq.2].name,
        t.nodes[ijq.2].name != t.nodes[ijq.0].name,
        cross_node_routes(t, t.nodes)[k].command == route_via(t, t.nodes[ijq.0], t.pods[ijq.1], t.nodes[ijq.2]),
        uplink_ip(t, t.nodes[ijq.2]) != uplink_ip(t, t.nodes[ijq.0]),
{
    let (i, j) = lemma_cross_route_is_remote(t, t.nodes, k);
    assert(node_position(t.nodes, t.pods[j].node) is Some);
    lemma_node_position(t.nodes, t.pods[j].node);
    let q = node_position(t.nodes, t.pods[j].node).unwrap();
    lemma_pod_node_is_named(t, j, q);
    lemma_route_command(t, t.nodes[i], t.pods[j], cross_node_routes(t, t.nodes)[k]);
    lemma_distinct_uplinks(t, i, q);
    (i, j, q)
}

proof fn lemma_cross_route_present(t: TopologyView, i: int, j: int, q: int) -> (k: int)
    requires
        wf(t),
        0 <= i < t.nodes.len() && 0 <= j < t.pods.len() && 0 <= q < t.nodes.len(),
        t.pods[j].node == t.nodes[q].name,
        t.nodes[q].name != t.nodes[i].name,
    ensures
        0 <= k < setup_steps(t).len(),
        setup_steps(t)[k].command == route_via(t, t.nodes[i], t.pods[j], t.nodes[q]),
{
    lemma_pod_node_is_named(t, j, q);
    lemma_cross_routes_complete(t, t.nodes);
    let r = cross_node_routes(t, t.nodes);
    assert(t.pods[j].node != t.nodes[i].name);
    let k = choose|k: int| 0 <= k < r.len() && routes_to(t, t.nodes[i], t.pods[j], #[trigger] r[k]);
    lemma_route_command(t, t.nodes[i], t.pods[j], r[k]);
    let head = bridge_setup_steps(t) + nodes_setup_steps(t, t.nodes) + pods_setup_steps(t, t.pods);
    assert(setup_steps(t) == head + r);
    assert(setup_steps(t)[head.len() + k] == r[k]);
    head.len() + k
}

} // verus!
