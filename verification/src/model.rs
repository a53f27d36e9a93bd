//! The mathematical model of a lab topology: its views, its well-formedness,
//! the names and addresses it derives, and the steps of its plans.

use vstd::prelude::*;
use vstd::utf8::encode_utf8;
use crate::error::FacilityErrorView;
use crate::net::{Ipv4Addr, ipv4_text};
use crate::plan::{CommandView, StepView, Stage, best_effort_step, strict_step};
use crate::text::{decimal, ticked};

verus! {

/// A node: its name and its slot, which numbers its links and uplink address.
pub struct NodeView {
    pub name: Seq<char>,
    pub index: usize,
}

/// A pod: its name, the node it sits on, its slot and its optional workload.
pub struct PodView {
    pub name: Seq<char>,
    pub node: Seq<char>,
    pub index: usize,
    pub workload: Option<Seq<Seq<char>>>,
}

/// A topology: facility name, bridge, bridge address, nodes and pods.
pub struct TopologyView {
    pub name: Seq<char>,
    pub bridge_name: Seq<char>,
    pub bridge_addr: Ipv4Addr,
    pub nodes: Seq<NodeView>,
    pub pods: Seq<PodView>,
}

/// Largest number of nodes, and of pods, in a topology.
pub open spec fn max_items() -> nat {
    240
}

/// Largest slot of a node or pod.
pub open spec fn max_index() -> nat {
    239
}

/// Bytes allowed in a name: ASCII letters and digits, `-` and `_`.
pub open spec fn is_name_byte(b: u8) -> bool {
    ||| 48 <= b <= 57
    ||| 65 <= b <= 90
    ||| 97 <= b <= 122
    ||| b == 45
    ||| b == 95
}

/// Why a name is refused, if it is: empty, longer than 40 bytes, or holding
/// a byte other than a letter, digit, `-` or `_`.
pub open spec fn name_error(kind: Seq<char>, name: Seq<char>) -> Option<FacilityErrorView> {
    if name.len() == 0 {
        Some(FacilityErrorView::InvalidName { kind, name, reason: "must not be empty"@ })
    } else if encode_utf8(name).len() > 40 {
        Some(FacilityErrorView::InvalidName { kind, name, reason: "must be 40 characters or fewer"@ })
    } else if !(forall|i: int| 0 <= i < encode_utf8(name).len() ==> is_name_byte(#[trigger] encode_utf8(name)[i])) {
        Some(FacilityErrorView::InvalidName {
            kind,
            name,
            reason: "use only ASCII letters, digits, hyphen, or underscore"@,
        })
    } else {
        None
    }
}

/// A name that `name_error` accepts.
pub open spec fn valid_name(name: Seq<char>) -> bool {
    name_error(Seq::empty(), name) is None
}

/// The invariant of a built topology: valid names, at most 240 nodes and 240
/// pods, slots at most 239, node names and node slots unique, pod names and
/// pod slots unique, and every pod on a node of the topology.
pub open spec fn wf(t: TopologyView) -> bool {
    &&& valid_name(t.name)
    &&& valid_name(t.bridge_name)
    &&& t.nodes.len() <= max_items()
    &&& t.pods.len() <= max_items()
    &&& forall|i: int| 0 <= i < t.nodes.len() ==> valid_name(#[trigger] t.nodes[i].name) && t.nodes[i].index <= max_index()
    &&& forall|i: int, j: int| 0 <= i < j < t.nodes.len() ==> (#[trigger] t.nodes[i]).name != (#[trigger] t.nodes[j]).name && t.nodes[i].index != t.nodes[j].index
    &&& forall|i: int| 0 <= i < t.pods.len() ==> valid_name(#[trigger] t.pods[i].name) && t.pods[i].index <= max_index()
    &&& forall|i: int| 0 <= i < t.pods.len() ==> #[trigger] node_position(t.nodes, t.pods[i].node) is Some
    &&& forall|i: int, j: int| 0 <= i < j < t.pods.len() ==> (#[trigger] t.pods[i]).name != (#[trigger] t.pods[j]).name && t.pods[i].index != t.pods[j].index
}

/// Position of the first node called `name`.
pub open spec fn node_position(nodes: Seq<NodeView>, name: Seq<char>) -> Option<int>
    decreases nodes.len(),
{
    if nodes.len() == 0 {
        None
    } else {
        match node_position(nodes.drop_last(), name) {
            Some(i) => Some(i),
            None => if nodes.last().name == name {
                Some(nodes.len() - 1)
            } else {
                None
            },
        }
    }
}

/// Position of the first pod called `name`.
pub open spec fn pod_position(pods: Seq<PodView>, name: Seq<char>) -> Option<int>
    decreases pods.len(),
{
    if pods.len() == 0 {
        None
    } else {
        match pod_position(pods.drop_last(), name) {
            Some(i) => Some(i),
            None => if pods.last().name == name {
                Some(pods.len() - 1)
            } else {
                None
            },
        }
    }
}

pub proof fn lemma_node_position(nodes: Seq<NodeView>, name: Seq<char>)
    ensures
        node_position(nodes, name) matches Some(i) ==> 0 <= i < nodes.len() && nodes[i].name == name
            && forall|j: int| 0 <= j < i ==> (#[trigger] nodes[j]).name != name,
        node_position(nodes, name) is None ==> forall|j: int| 0 <= j < nodes.len() ==> (#[trigger] nodes[j]).name != name,
    decreases nodes.len(),
{
    if nodes.len() > 0 {
        lemma_node_position(nodes.drop_last(), name);
        assert(forall|j: int| 0 <= j < nodes.len() - 1 ==> nodes.drop_last()[j] == nodes[j]);
    }
}

pub proof fn lemma_pod_position(pods: Seq<PodView>, name: Seq<char>)
    ensures
        pod_position(pods, name) matches Some(i) ==> 0 <= i < pods.len() && pods[i].name == name
            && forall|j: int| 0 <= j < i ==> (#[trigger] pods[j]).name != name,
        pod_position(pods, name) is None ==> forall|j: int| 0 <= j < pods.len() ==> (#[trigger] pods[j]).name != name,
    decreases pods.len(),
{
    if pods.len() > 0 {
        lemma_pod_position(pods.drop_last(), name);
        assert(forall|j: int| 0 <= j < pods.len() - 1 ==> pods.drop_last()[j] == pods[j]);
    }
}

/// Position lookups only look at the prefix up to the match.
pub proof fn lemma_node_position_prefix(nodes: Seq<NodeView>, name: Seq<char>, k: int)
    requires
        0 <= k <= nodes.len(),
        node_position(nodes.take(k), name) is Some,
    ensures
        node_position(nodes, name) == node_position(nodes.take(k), name),
    decreases nodes.len() - k,
{
    if k < nodes.len() {
        assert(nodes.take(k + 1).drop_last() =~= nodes.take(k));
        assert(node_position(nodes.take(k + 1), name) == node_position(nodes.take(k), name));
        lemma_node_position_prefix(nodes, name, k + 1);
    } else {
        assert(nodes.take(k) =~= nodes);
    }
}

/// Position lookups only look at the prefix up to the match.
pub proof fn lemma_pod_position_prefix(pods: Seq<PodView>, name: Seq<char>, k: int)
    requires
        0 <= k <= pods.len(),
        pod_position(pods.take(k), name) is Some,
    ensures
        pod_position(pods, name) == pod_position(pods.take(k), name),
    decreases pods.len() - k,
{
    if k < pods.len() {
        assert(pods.take(k + 1).drop_last() =~= pods.take(k));
        assert(pod_position(pods.take(k + 1), name) == pod_position(pods.take(k), name));
        lemma_pod_position_prefix(pods, name, k + 1);
    } else {
        assert(pods.take(k) =~= pods);
    }
}

/// ASCII letters and digits.
pub open spec fn is_ascii_alnum(c: char) -> bool {
    ||| '0' <= c <= '9'
    ||| 'A' <= c <= 'Z'
    ||| 'a' <= c <= 'z'
}

/// ASCII upper-case letters mapped to lower case; other characters kept.
pub open spec fn ascii_lower(c: char) -> char {
    if 'A' <= c <= 'Z' {
        ((c as u32) + 32) as char
    } else {
        c
    }
}

/// The ASCII letters and digits of `s`, in order.
pub open spec fn alnum_chars(s: Seq<char>) -> Seq<char>
    decreases s.len(),
{
    if s.len() == 0 {
        Seq::empty()
    } else if is_ascii_alnum(s.last()) {
        alnum_chars(s.drop_last()).push(s.last())
    } else {
        alnum_chars(s.drop_last())
    }
}

/// At most the first `n` elements of `s`.
pub open spec fn first_n<A>(s: Seq<A>, n: nat) -> Seq<A> {
    if s.len() <= n {
        s
    } else {
        s.take(n as int)
    }
}

/// The prefix of every link name of a facility: `vf` and the first six ASCII
/// letters and digits of the facility name, in lower case.
pub open spec fn link_prefix(facility: Seq<char>) -> Seq<char> {
    "vf"@ + first_n(alnum_chars(facility), 6).map_values(|c: char| ascii_lower(c))
}

/// `vf-<facility>-node-<name>`
pub open spec fn node_netns(facility: Seq<char>, node: Seq<char>) -> Seq<char> {
    "vf-"@ + facility + "-node-"@ + node
}

/// `vf-<facility>-pod-<name>`
pub open spec fn pod_netns(facility: Seq<char>, pod: Seq<char>) -> Seq<char> {
    "vf-"@ + facility + "-pod-"@ + pod
}

/// Host end of a node's uplink veth pair.
pub open spec fn node_host_veth(facility: Seq<char>, n: NodeView) -> Seq<char> {
    link_prefix(facility) + "h"@ + decimal(n.index as nat)
}

/// Node end of a node's uplink veth pair.
pub open spec fn node_node_veth(facility: Seq<char>, n: NodeView) -> Seq<char> {
    link_prefix(facility) + "n"@ + decimal(n.index as nat)
}

/// Node end of a pod's veth pair.
pub open spec fn pod_node_veth(facility: Seq<char>, p: PodView) -> Seq<char> {
    link_prefix(facility) + "pn"@ + decimal(p.index as nat)
}

/// Pod end of a pod's veth pair.
pub open spec fn pod_pod_veth(facility: Seq<char>, p: PodView) -> Seq<char> {
    link_prefix(facility) + "pp"@ + decimal(p.index as nat)
}

/// A node's uplink address: the bridge's /24 network, host part 10 + slot.
pub open spec fn uplink_ip(t: TopologyView, n: NodeView) -> Ipv4Addr {
    Ipv4Addr(t.bridge_addr.0, t.bridge_addr.1, t.bridge_addr.2, (10 + n.index) as u8)
}

/// The /30 of a pod: `10.244.<slot + 1>.0/30`, with the node side at `.1`.
pub open spec fn pod_node_side_ip(p: PodView) -> Ipv4Addr {
    Ipv4Addr(10, 244, (p.index + 1) as u8, 1)
}

/// The pod side of a pod's /30, at `.2`.
pub open spec fn pod_ip(p: PodView) -> Ipv4Addr {
    Ipv4Addr(10, 244, (p.index + 1) as u8, 2)
}

/// Dotted text of an address with a prefix length.
pub open spec fn cidr_text(ip: Ipv4Addr, bits: Seq<char>) -> Seq<char> {
    ipv4_text(ip) + "/"@ + bits
}

/// `ip args...`
pub open spec fn ip_command(args: Seq<Seq<char>>) -> CommandView {
    CommandView { program: "ip"@, args }
}

/// A strict setup step `ip netns exec <netns> args...`.
pub open spec fn netns_exec_step(netns: Seq<char>, description: Seq<char>, args: Seq<Seq<char>>) -> StepView {
    strict_step(Stage::Setup, description, ip_command(seq!["netns"@, "exec"@, netns] + args))
}

/// The three steps that create, address and raise the bridge.
pub open spec fn bridge_setup_steps(t: TopologyView) -> Seq<StepView> {
    let br = t.bridge_name;
    seq![
        strict_step(Stage::Setup, "create bridge "@ + ticked(br) + " to stand in for the cluster underlay"@,
            ip_command(seq!["link"@, "add"@, br, "type"@, "bridge"@])),
        strict_step(Stage::Setup, "assign bridge address "@ + ticked(cidr_text(t.bridge_addr, "24"@)),
            ip_command(seq!["addr"@, "add"@, cidr_text(t.bridge_addr, "24"@), "dev"@, br])),
        strict_step(Stage::Setup, "bring bridge "@ + ticked(br) + " up"@,
            ip_command(seq!["link"@, "set"@, br, "up"@])),
    ]
}

/// The step that deletes the bridge.
pub open spec fn bridge_cleanup_step(t: TopologyView) -> StepView {
    best_effort_step(Stage::Cleanup, "delete bridge "@ + ticked(t.bridge_name),
        ip_command(seq!["link"@, "del"@, t.bridge_name]))
}

/// The steps that create a node's namespace, wire its uplink to the bridge
/// and configure addressing, routing and forwarding inside it.
pub open spec fn node_setup_steps(t: TopologyView, n: NodeView) -> Seq<StepView> {
    let ns = node_netns(t.name, n.name);
    let h = node_host_veth(t.name, n);
    let v = node_node_veth(t.name, n);
    let up = cidr_text(uplink_ip(t, n), "24"@);
    seq![
        strict_step(Stage::Setup, "create node namespace "@ + ticked(ns), ip_command(seq!["netns"@, "add"@, ns])),
        strict_step(Stage::Setup, "create veth pair "@ + ticked(h) + " <-> "@ + ticked(v) + " for node "@ + ticked(n.name),
            ip_command(seq!["link"@, "add"@, h, "type"@, "veth"@, "peer"@, "name"@, v])),
        strict_step(Stage::Setup, "move "@ + ticked(v) + " into node namespace"@,
            ip_command(seq!["link"@, "set"@, v, "netns"@, ns])),
        strict_step(Stage::Setup, "attach "@ + ticked(h) + " to bridge "@ + ticked(t.bridge_name),
            ip_command(seq!["link"@, "set"@, h, "master"@, t.bridge_name])),
        strict_step(Stage::Setup, "bring host side "@ + ticked(h) + " up"@,
            ip_command(seq!["link"@, "set"@, h, "up"@])),
        netns_exec_step(ns, "bring loopback up in node "@ + ticked(n.name),
            seq!["ip"@, "link"@, "set"@, "lo"@, "up"@]),
        netns_exec_step(ns, "rename node uplink "@ + ticked(v) + " to `eth0`"@,
            seq!["ip"@, "link"@, "set"@, v, "name"@, "eth0"@]),
        netns_exec_step(ns, "assign node uplink address "@ + ticked(up),
            seq!["ip"@, "addr"@, "add"@, up, "dev"@, "eth0"@]),
        netns_exec_step(ns, "bring node uplink up for "@ + ticked(n.name),
            seq!["ip"@, "link"@, "set"@, "eth0"@, "up"@]),
        netns_exec_step(ns, "set node default route through "@ + ticked(ipv4_text(t.bridge_addr)),
            seq!["ip"@, "route"@, "add"@, "default"@, "via"@, ipv4_text(t.bridge_addr)]),
        netns_exec_step(ns, "enable IPv4 forwarding in node "@ + ticked(n.name),
            seq!["sysctl"@, "-w"@, "net.ipv4.ip_forward=1"@]),
    ]
}

/// The two steps that delete a node's namespace and its host veth.
pub open spec fn node_cleanup_steps(t: TopologyView, n: NodeView) -> Seq<StepView> {
    let ns = node_netns(t.name, n.name);
    let h = node_host_veth(t.name, n);
    seq![
        best_effort_step(Stage::Cleanup, "delete node namespace "@ + ticked(ns), ip_command(seq!["netns"@, "del"@, ns])),
        best_effort_step(Stage::Cleanup, "delete host veth "@ + ticked(h), ip_command(seq!["link"@, "del"@, h])),
    ]
}

/// The steps that create a pod's namespace, connect it to its node with a
/// veth pair on the pod's /30 and route the pod through the node side.
pub open spec fn pod_setup_steps(t: TopologyView, p: PodView) -> Seq<StepView> {
    let pns = pod_netns(t.name, p.name);
    let nns = node_netns(t.name, p.node);
    let pn = pod_node_veth(t.name, p);
    let pp = pod_pod_veth(t.name, p);
    let side = cidr_text(pod_node_side_ip(p), "30"@);
    let own = cidr_text(pod_ip(p), "30"@);
    seq![
        strict_step(Stage::Setup, "create pod namespace "@ + ticked(pns), ip_command(seq!["netns"@, "add"@, pns])),
        strict_step(Stage::Setup, "create veth pair "@ + ticked(pn) + " <-> "@ + ticked(pp) + " for pod "@ + ticked(p.name),
            ip_command(seq!["link"@, "add"@, pn, "type"@, "veth"@, "peer"@, "name"@, pp])),
        strict_step(Stage::Setup, "move "@ + ticked(pn) + " into node namespace"@,
            ip_command(seq!["link"@, "set"@, pn, "netns"@, nns])),
        strict_step(Stage::Setup, "move "@ + ticked(pp) + " into pod namespace"@,
            ip_command(seq!["link"@, "set"@, pp, "netns"@, pns])),
        netns_exec_step(nns, "assign node-side pod link "@ + ticked(pn) + " to "@ + ticked(side),
            seq!["ip"@, "addr"@, "add"@, side, "dev"@, pn]),
        netns_exec_step(nns, "bring node-side pod link "@ + ticked(pn) + " up"@,
            seq!["ip"@, "link"@, "set"@, pn, "up"@]),
        netns_exec_step(pns, "bring loopback up in pod "@ + ticked(p.name),
            seq!["ip"@, "link"@, "set"@, "lo"@, "up"@]),
        netns_exec_step(pns, "rename pod link "@ + ticked(pp) + " to `eth0`"@,
            seq!["ip"@, "link"@, "set"@, pp, "name"@, "eth0"@]),
        netns_exec_step(pns, "assign pod address "@ + ticked(own),
            seq!["ip"@, "addr"@, "add"@, own, "dev"@, "eth0"@]),
        netns_exec_step(pns, "bring pod link up for "@ + ticked(p.name),
            seq!["ip"@, "link"@, "set"@, "eth0"@, "up"@]),
        netns_exec_step(pns, "route pod "@ + ticked(p.name) + " through its node-side peer"@,
            seq!["ip"@, "route"@, "add"@, "default"@, "via"@, ipv4_text(pod_node_side_ip(p))]),
    ]
}

/// The step that deletes a pod's namespace.
pub open spec fn pod_cleanup_step(t: TopologyView, p: PodView) -> StepView {
    let pns = pod_netns(t.name, p.name);
    best_effort_step(Stage::Cleanup, "delete pod namespace "@ + ticked(pns), ip_command(seq!["netns"@, "del"@, pns]))
}

/// Setup steps of the nodes, in order.
pub open spec fn nodes_setup_steps(t: TopologyView, nodes: Seq<NodeView>) -> Seq<StepView>
    decreases nodes.len(),
{
    if nodes.len() == 0 {
        Seq::empty()
    } else {
        nodes_setup_steps(t, nodes.drop_last()) + node_setup_steps(t, nodes.last())
    }
}

/// Setup steps of the pods, in order.
pub open spec fn pods_setup_steps(t: TopologyView, pods: Seq<PodView>) -> Seq<StepView>
    decreases pods.len(),
{
    if pods.len() == 0 {
        Seq::empty()
    } else {
        pods_setup_steps(t, pods.drop_last()) + pod_setup_steps(t, pods.last())
    }
}

/// The node a pod sits on.
pub open spec fn node_of_pod(t: TopologyView, p: PodView) -> NodeView {
    t.nodes[node_position(t.nodes, p.node).unwrap()]
}

/// In node `n`, a host route to a pod on another node via that node's uplink.
pub open spec fn remote_route_step(t: TopologyView, n: NodeView, p: PodView) -> StepView {
    let remote = node_of_pod(t, p);
    netns_exec_step(
        node_netns(t.name, n.name),
        "route remote pod "@ + ticked(p.name) + " through node "@ + ticked(remote.name),
        seq!["ip"@, "route"@, "add"@, cidr_text(pod_ip(p), "32"@), "via"@, ipv4_text(uplink_ip(t, remote))],
    )
}

/// In node `n`, the routes to the pods of `pods` that sit on other nodes.
pub open spec fn node_routes(t: TopologyView, n: NodeView, pods: Seq<PodView>) -> Seq<StepView>
    decreases pods.len(),
{
    if pods.len() == 0 {
        Seq::empty()
    } else if pods.last().node == n.name {
        node_routes(t, n, pods.drop_last())
    } else {
        node_routes(t, n, pods.drop_last()).push(remote_route_step(t, n, pods.last()))
    }
}

/// The routes of each node of `nodes` to the pods of the other nodes.
pub open spec fn cross_node_routes(t: TopologyView, nodes: Seq<NodeView>) -> Seq<StepView>
    decreases nodes.len(),
{
    if nodes.len() == 0 {
        Seq::empty()
    } else {
        cross_node_routes(t, nodes.drop_last()) + node_routes(t, nodes.last(), t.pods)
    }
}

/// The whole setup: bridge, nodes, pods, then the cross-node routes.
pub open spec fn setup_steps(t: TopologyView) -> Seq<StepView> {
    bridge_setup_steps(t) + nodes_setup_steps(t, t.nodes) + pods_setup_steps(t, t.pods)
        + cross_node_routes(t, t.nodes)
}

/// Pod cleanup steps, last pod first.
pub open spec fn pods_cleanup_reversed(t: TopologyView, pods: Seq<PodView>) -> Seq<StepView>
    decreases pods.len(),
{
    if pods.len() == 0 {
        Seq::empty()
    } else {
        pods_cleanup_reversed(t, pods.drop_first()).push(pod_cleanup_step(t, pods.first()))
    }
}

/// Node cleanup steps, last node first.
pub open spec fn nodes_cleanup_reversed(t: TopologyView, nodes: Seq<NodeView>) -> Seq<StepView>
    decreases nodes.len(),
{
    if nodes.len() == 0 {
        Seq::empty()
    } else {
        nodes_cleanup_reversed(t, nodes.drop_first()) + node_cleanup_steps(t, nodes.first())
    }
}

/// The whole teardown: pods in reverse, nodes in reverse, then the bridge.
pub open spec fn cleanup_steps(t: TopologyView) -> Seq<StepView> {
    pods_cleanup_reversed(t, t.pods) + nodes_cleanup_reversed(t, t.nodes) + seq![bridge_cleanup_step(t)]
}

/// The step that runs a pod's workload inside the pod's namespace.
pub open spec fn workload_step(t: TopologyView, p: PodView, command: Seq<Seq<char>>) -> StepView {
    strict_step(
        Stage::Workload,
        "run workload "@ + ticked(command[0]) + " inside pod "@ + ticked(p.name),
        ip_command(seq!["netns"@, "exec"@, pod_netns(t.name, p.name)] + command),
    )
}

/// The workload steps of `pods` in order, or the first pod whose workload
/// command is empty.
pub open spec fn workload_result(t: TopologyView, pods: Seq<PodView>) -> Result<Seq<StepView>, FacilityErrorView>
    decreases pods.len(),
{
    if pods.len() == 0 {
        Ok(Seq::empty())
    } else {
        match workload_result(t, pods.drop_last()) {
            Err(e) => Err(e),
            Ok(steps) => match pods.last().workload {
                None => Ok(steps),
                Some(command) => if command.len() == 0 {
                    Err(FacilityErrorView::EmptyWorkload { pod: pods.last().name })
                } else {
                    Ok(steps.push(workload_step(t, pods.last(), command)))
                },
            },
        }
    }
}

/// The step that pings `target` once from inside the namespace of `source`.
pub open spec fn ping_step(t: TopologyView, source: PodView, source_name: Seq<char>, target_name: Seq<char>, target_ip: Ipv4Addr) -> StepView {
    strict_step(
        Stage::Workload,
        "ping pod "@ + ticked(target_name) + " from pod "@ + ticked(source_name),
        ip_command(seq!["netns"@, "exec"@, pod_netns(t.name, source.name), "ping"@, "-c"@, "1"@, ipv4_text(target_ip)]),
    )
}

/// A node added to a builder: its name and its requested slot, if any.
pub struct PendingNodeView {
    pub name: Seq<char>,
    pub index: Option<usize>,
}

/// A pod added to a builder.
pub struct PendingPodView {
    pub name: Seq<char>,
    pub node: Seq<char>,
    pub index: Option<usize>,
    pub workload: Option<Seq<Seq<char>>>,
}

/// A builder: what `build` turns into a topology.
pub struct BuilderView {
    pub name: Seq<char>,
    pub bridge_name: Seq<char>,
    pub bridge_addr: Ipv4Addr,
    pub nodes: Seq<PendingNodeView>,
    pub pods: Seq<PendingPodView>,
}

/// The slot of the `i`-th pending node: the requested one, else its position.
pub open spec fn pending_node_index(nodes: Seq<PendingNodeView>, i: int) -> usize {
    match nodes[i].index {
        Some(x) => x,
        None => i as usize,
    }
}

/// The slot of the `i`-th pending pod: the requested one, else its position.
pub open spec fn pending_pod_index(pods: Seq<PendingPodView>, i: int) -> usize {
    match pods[i].index {
        Some(x) => x,
        None => i as usize,
    }
}

/// What the `i`-th node is refused for, given that the nodes before it were
/// accepted: an invalid name, a name already taken, a slot above 239, or a
/// slot already taken.
pub open spec fn node_refusal(nodes: Seq<PendingNodeView>, i: int) -> Option<FacilityErrorView> {
    let n = nodes[i];
    let index = pending_node_index(nodes, i);
    if name_error("node"@, n.name) is Some {
        name_error("node"@, n.name)
    } else if exists|j: int| 0 <= j < i && (#[trigger] nodes[j]).name == n.name {
        Some(FacilityErrorView::DuplicateName { kind: "node"@, name: n.name })
    } else if index > max_index() {
        Some(FacilityErrorView::TooManyItems { kind: "node index"@, max: 239, actual: index })
    } else if exists|j: int| 0 <= j < i && #[trigger] pending_node_index(nodes, j) == index {
        Some(FacilityErrorView::DuplicateName { kind: "node index"@, name: decimal(index as nat) })
    } else {
        None
    }
}

/// The first refusal among the first `k` nodes.
pub open spec fn nodes_refusal(nodes: Seq<PendingNodeView>, k: int) -> Option<FacilityErrorView>
    decreases k,
{
    if k <= 0 {
        None
    } else {
        match nodes_refusal(nodes, k - 1) {
            Some(e) => Some(e),
            None => node_refusal(nodes, k - 1),
        }
    }
}

/// What the `i`-th pod is refused for, given that the nodes and the pods
/// before it were accepted: an invalid name, a name already taken, an unknown
/// node, a slot above 239, or a slot already taken.
pub open spec fn pod_refusal(nodes: Seq<PendingNodeView>, pods: Seq<PendingPodView>, i: int) -> Option<FacilityErrorView> {
    let p = pods[i];
    let index = pending_pod_index(pods, i);
    if name_error("pod"@, p.name) is Some {
        name_error("pod"@, p.name)
    } else if exists|j: int| 0 <= j < i && (#[trigger] pods[j]).name == p.name {
        Some(FacilityErrorView::DuplicateName { kind: "pod"@, name: p.name })
    } else if !(exists|j: int| 0 <= j < nodes.len() && (#[trigger] nodes[j]).name == p.node) {
        Some(FacilityErrorView::UnknownNode { pod: p.name, node: p.node })
    } else if index > max_index() {
        Some(FacilityErrorView::TooManyItems { kind: "pod index"@, max: 239, actual: index })
    } else if exists|j: int| 0 <= j < i && #[trigger] pending_pod_index(pods, j) == index {
        Some(FacilityErrorView::DuplicateName { kind: "pod index"@, name: decimal(index as nat) })
    } else {
        None
    }
}

/// The first refusal among the first `k` pods.
pub open spec fn pods_refusal(nodes: Seq<PendingNodeView>, pods: Seq<PendingPodView>, k: int) -> Option<FacilityErrorView>
    decreases k,
{
    if k <= 0 {
        None
    } else {
        match pods_refusal(nodes, pods, k - 1) {
            Some(e) => Some(e),
            None => pod_refusal(nodes, pods, k - 1),
        }
    }
}

/// The nodes of a built topology.
pub open spec fn built_nodes(nodes: Seq<PendingNodeView>) -> Seq<NodeView> {
    Seq::new(nodes.len(), |i: int| NodeView { name: nodes[i].name, index: pending_node_index(nodes, i) })
}

/// The pods of a built topology.
pub open spec fn built_pods(pods: Seq<PendingPodView>) -> Seq<PodView> {
    Seq::new(pods.len(), |i: int| PodView {
        name: pods[i].name,
        node: pods[i].node,
        index: pending_pod_index(pods, i),
        workload: pods[i].workload,
    })
}

/// What `build` gives: the first refusal, checked in the order facility name,
/// bridge name, node count, pod count, each node, each pod; else the topology
/// with every slot resolved.
pub open spec fn build_result(b: BuilderView) -> Result<TopologyView, FacilityErrorView> {
    if name_error("facility"@, b.name) is Some {
        Err(name_error("facility"@, b.name).unwrap())
    } else if name_error("bridge"@, b.bridge_name) is Some {
        Err(name_error("bridge"@, b.bridge_name).unwrap())
    } else if b.nodes.len() > max_items() {
        Err(FacilityErrorView::TooManyItems { kind: "nodes"@, max: 240, actual: b.nodes.len() as usize })
    } else if b.pods.len() > max_items() {
        Err(FacilityErrorView::TooManyItems { kind: "pods"@, max: 240, actual: b.pods.len() as usize })
    } else if nodes_refusal(b.nodes, b.nodes.len() as int) is Some {
        Err(nodes_refusal(b.nodes, b.nodes.len() as int).unwrap())
    } else if pods_refusal(b.nodes, b.pods, b.pods.len() as int) is Some {
        Err(pods_refusal(b.nodes, b.pods, b.pods.len() as int).unwrap())
    } else {
        Ok(TopologyView {
            name: b.name,
            bridge_name: b.bridge_name,
            bridge_addr: b.bridge_addr,
            nodes: built_nodes(b.nodes),
            pods: built_pods(b.pods),
        })
    }
}

proof fn lemma_nodes_refusal_none(nodes: Seq<PendingNodeView>, k: int)
    requires
        nodes_refusal(nodes, k) is None,
    ensures
        forall|i: int| 0 <= i < k ==> #[trigger] node_refusal(nodes, i) is None,
    decreases k,
{
    if k > 0 {
        lemma_nodes_refusal_none(nodes, k - 1);
    }
}

proof fn lemma_pods_refusal_none(nodes: Seq<PendingNodeView>, pods: Seq<PendingPodView>, k: int)
    requires
        pods_refusal(nodes, pods, k) is None,
    ensures
        forall|i: int| 0 <= i < k ==> #[trigger] pod_refusal(nodes, pods, i) is None,
    decreases k,
{
    if k > 0 {
        lemma_pods_refusal_none(nodes, pods, k - 1);
    }
}

/// Law: whatever `build` accepts is well formed.
pub proof fn lemma_build_wf(b: BuilderView)
    requires
        build_result(b) is Ok,
    ensures
        wf(build_result(b)->Ok_0),
{
    let t = build_result(b)->Ok_0;
    lemma_nodes_refusal_none(b.nodes, b.nodes.len() as int);
    lemma_pods_refusal_none(b.nodes, b.pods, b.pods.len() as int);
    assert forall|i: int| 0 <= i < t.nodes.len() implies valid_name(#[trigger] t.nodes[i].name) && t.nodes[i].index <= max_index() by {
        assert(node_refusal(b.nodes, i) is None);
    }
    assert forall|i: int, j: int| 0 <= i < j < t.nodes.len() implies (#[trigger] t.nodes[i]).name != (#[trigger] t.nodes[j]).name && t.nodes[i].index != t.nodes[j].index by {
        assert(node_refusal(b.nodes, j) is None);
        assert(b.nodes[i].name == t.nodes[i].name);
        assert(pending_node_index(b.nodes, i) == t.nodes[i].index);
    }
    assert forall|i: int| 0 <= i < t.pods.len() implies valid_name(#[trigger] t.pods[i].name) && t.pods[i].index <= max_index() by {
        assert(pod_refusal(b.nodes, b.pods, i) is None);
    }
    assert forall|i: int| 0 <= i < t.pods.len() implies #[trigger] node_position(t.nodes, t.pods[i].node) is Some by {
        assert(pod_refusal(b.nodes, b.pods, i) is None);
        let j = choose|j: int| 0 <= j < b.nodes.len() && (#[trigger] b.nodes[j]).name == b.pods[i].node;
        lemma_node_position(t.nodes, t.pods[i].node);
        assert(t.nodes[j].name == t.pods[i].node);
    }
    assert forall|i: int, j: int| 0 <= i < j < t.pods.len() implies (#[trigger] t.pods[i]).name != (#[trigger] t.pods[j]).name && t.pods[i].index != t.pods[j].index by {
        assert(pod_refusal(b.nodes, b.pods, j) is None);
        assert(b.pods[i].name == t.pods[i].name);
        assert(pending_pod_index(b.pods, i) == t.pods[i].index);
    }
}

} // verus!
