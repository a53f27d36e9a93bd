//! Topologies of a facility: nodes and pods on a bridge, their derived names
//! and addresses, and the plans that set them up, exercise them and tear them
//! down.

use vstd::prelude::*;
use vstd::utf8::encode_utf8;
use crate::error::{FacilityError, FacilityErrorView, result_view};
use crate::model::{
    cross_node_routes, node_routes, node_of_pod, remote_route_step, setup_steps, nodes_setup_steps,
    pods_setup_steps, workload_result, workload_step, ping_step, cleanup_steps,
    pods_cleanup_reversed, nodes_cleanup_reversed, bridge_setup_steps, bridge_cleanup_step,
    node_setup_steps, node_cleanup_steps, pod_setup_steps, pod_cleanup_step,
    lemma_node_position_prefix, lemma_pod_position_prefix, cidr_text, ip_command, netns_exec_step,
    pod_ip, pod_node_side_ip, pod_position, node_position, lemma_pod_position, uplink_ip,
    build_result, built_nodes, built_pods, is_name_byte, lemma_build_wf, name_error, node_refusal,
    nodes_refusal, pending_node_index, pending_pod_index, pod_refusal, pods_refusal, wf,
    BuilderView, PendingNodeView, PendingPodView, TopologyView, alnum_chars, first_n, ascii_lower,
    is_ascii_alnum, link_prefix, max_index, node_host_veth, node_netns, node_node_veth, pod_netns,
    pod_node_veth, pod_pod_veth, NodeView, PodView,
};
use crate::net::{Ipv4Addr};
use crate::plan::{CommandPlan, CommandSpec, PlanStep, Stage, StepView};
use crate::text::{
    join_strings, join_with, str_equal, str_less, name_less, lemma_name_less_total,
    lemma_name_less_transitive, describe, owned, push_char, push_decimal, push_ticked,
};

verus! {

/// A node of a built topology.
#[derive(Debug, PartialEq, Eq)]
pub struct Node {
    name: String,
    index: usize,
}

impl View for Node {
    type V = NodeView;

    closed spec fn view(&self) -> NodeView {
        NodeView { name: self.name@, index: self.index }
    }
}

/// A pod of a built topology.
#[derive(Debug, PartialEq, Eq)]
pub struct Pod {
    name: String,
    node: String,
    index: usize,
    workload: Option<Vec<String>>,
}

/// An optional list of words, taken by their characters.
pub open spec fn words_view(w: Option<Vec<String>>) -> Option<Seq<Seq<char>>> {
    match w {
        Some(v) => Some(v.deep_view()),
        None => None,
    }
}

impl View for Pod {
    type V = PodView;

    closed spec fn view(&self) -> PodView {
        PodView { name: self.name@, node: self.node@, index: self.index, workload: words_view(self.workload) }
    }
}

impl Node {
    #[verifier::type_invariant]
    closed spec fn slot_in_range(self) -> bool {
        self.index <= max_index()
    }

    pub fn name(&self) -> (r: &str)
        ensures
            r@ == self@.name,
    {
        self.name.as_str()
    }

    /// Every node has a slot of at most 239.
    pub fn slot(&self) -> (r: usize)
        ensures
            r == self@.index,
            r <= max_index(),
    {
        proof { use_type_invariant(self); }
        self.index
    }

    fn netns(&self, facility: &str) -> (r: String)
        ensures
            r@ == node_netns(facility@, self@.name),
    {
        netns_name(facility, "-node-", self.name.as_str())
    }

    fn host_veth(&self, facility: &str) -> (r: String)
        ensures
            r@ == node_host_veth(facility@, self@),
    {
        link_name(facility, "h", self.index)
    }

    fn node_veth(&self, facility: &str) -> (r: String)
        ensures
            r@ == node_node_veth(facility@, self@),
    {
        link_name(facility, "n", self.index)
    }
}

impl Pod {
    #[verifier::type_invariant]
    closed spec fn slot_in_range(self) -> bool {
        self.index <= max_index()
    }

    pub fn name(&self) -> (r: &str)
        ensures
            r@ == self@.name,
    {
        self.name.as_str()
    }

    pub fn node(&self) -> (r: &str)
        ensures
            r@ == self@.node,
    {
        self.node.as_str()
    }

    /// Every pod has a slot of at most 239.
    pub fn slot(&self) -> (r: usize)
        ensures
            r == self@.index,
            r <= max_index(),
    {
        proof { use_type_invariant(self); }
        self.index
    }

    fn netns(&self, facility: &str) -> (r: String)
        ensures
            r@ == pod_netns(facility@, self@.name),
    {
        netns_name(facility, "-pod-", self.name.as_str())
    }

    fn node_veth(&self, facility: &str) -> (r: String)
        ensures
            r@ == pod_node_veth(facility@, self@),
    {
        link_name(facility, "pn", self.index)
    }

    fn pod_veth(&self, facility: &str) -> (r: String)
        ensures
            r@ == pod_pod_veth(facility@, self@),
    {
        link_name(facility, "pp", self.index)
    }
}

pub(crate) fn netns_name(facility: &str, middle: &str, name: &str) -> (r: String)
    ensures
        r@ == "vf-"@ + facility@ + middle@ + name@,
{
    let mut r = owned("vf-");
    r.append(facility);
    r.append(middle);
    r.append(name);
    proof { assert(r@ =~= "vf-"@ + facility@ + middle@ + name@); }
    r
}

fn link_name(facility: &str, tag: &str, index: usize) -> (r: String)
    ensures
        r@ == link_prefix(facility@) + tag@ + crate::text::decimal(index as nat),
{
    let mut r = link_prefix_of(facility);
    r.append(tag);
    push_decimal(&mut r, index);
    proof { assert(r@ =~= link_prefix(facility@) + tag@ + crate::text::decimal(index as nat)); }
    r
}

fn alnum(c: char) -> (r: bool)
    ensures
        r == is_ascii_alnum(c),
{
    ('0' <= c && c <= '9') || ('A' <= c && c <= 'Z') || ('a' <= c && c <= 'z')
}

fn lower(c: char) -> (r: char)
    ensures
        r == ascii_lower(c),
{
    if 'A' <= c && c <= 'Z' {
        ((c as u8) + 32u8) as char
    } else {
        c
    }
}

/// The link-name prefix of a facility.
fn link_prefix_of(facility: &str) -> (r: String)
    ensures
        r@ == link_prefix(facility@),
{
    let mut r = owned("vf");
    let mut taken: usize = 0;
    proof {
        assert(facility@.take(0) =~= Seq::<char>::empty());
        assert(r@ =~= "vf"@ + first_n(alnum_chars(facility@.take(0)), 6).map_values(|c: char| ascii_lower(c)));
    }
    for c in it: facility.chars()
        invariant
            it.seq() == facility@,
            taken <= 6,
            taken == first_n(alnum_chars(it.seq().take(it.index() as int)), 6).len(),
            r@ == "vf"@ + first_n(alnum_chars(it.seq().take(it.index() as int)), 6).map_values(|c: char| ascii_lower(c)),
    {
        let ghost before = it.seq().take(it.index() as int);
        let ghost after = it.seq().take(it.index() + 1);
        proof {
            assert(after.drop_last() =~= before);
            assert(after.last() == c);
        }
        if alnum(c) && taken < 6 {
            push_char(&mut r, lower(c));
            taken = taken + 1;
            proof {
                assert(alnum_chars(after) == alnum_chars(before).push(c));
                assert(first_n(alnum_chars(after), 6) =~= first_n(alnum_chars(before), 6).push(c));
                assert(r@ =~= "vf"@ + first_n(alnum_chars(after), 6).map_values(|c: char| ascii_lower(c)));
            }
        } else {
            proof {
                if is_ascii_alnum(c) {
                    assert(alnum_chars(after) == alnum_chars(before).push(c));
                    assert(first_n(alnum_chars(after), 6) =~= first_n(alnum_chars(before), 6));
                } else {
                    assert(alnum_chars(after) == alnum_chars(before));
                }
            }
        }
    }
    proof { assert(facility@.take(facility@.len() as int) =~= facility@); }
    r
}

/// Whether `name` is a valid name of the given kind (facility, bridge, node
/// or pod).
pub fn validate_name(kind: &'static str, name: &str) -> (r: Result<(), FacilityError>)
    ensures
        result_view(r) == (match name_error(kind@, name@) {
            Some(e) => Err(e),
            None => Ok(()),
        }),
{
    if name.is_empty() {
        return Err(FacilityError::InvalidName { kind, name: owned(name), reason: "must not be empty" });
    }
    if name.len() > 40 {
        return Err(FacilityError::InvalidName {
            kind,
            name: owned(name),
            reason: "must be 40 characters or fewer",
        });
    }
    let bytes = name.as_bytes();
    let n = bytes.len();
    let mut i: usize = 0;
    while i < n
        invariant
            n == bytes@.len(),
            bytes@ == encode_utf8(name@),
            name@.len() > 0,
            n <= 40,
            i <= n,
            forall|j: int| 0 <= j < i ==> is_name_byte(#[trigger] bytes@[j]),
        decreases n - i,
    {
        let b = bytes[i];
        let ok = (48 <= b && b <= 57) || (65 <= b && b <= 90) || (97 <= b && b <= 122) || b == 45 || b
            == 95;
        if !ok {
            proof { assert(!is_name_byte(bytes@[i as int])); }
            return Err(FacilityError::InvalidName {
                kind,
                name: owned(name),
                reason: "use only ASCII letters, digits, hyphen, or underscore",
            });
        }
        i = i + 1;
    }
    Ok(())
}

/// The addresses of a pod's /30: the pod side and the node side.
#[derive(Debug, Clone, PartialEq, Eq)]
pub struct PodAddress {
    pub pod_ip: Ipv4Addr,
    pub pod_cidr: String,
    pub node_side_ip: Ipv4Addr,
    pub node_side_cidr: String,
}

/// A set of nodes and pods on one bridge, well formed by construction.
#[derive(Debug, PartialEq, Eq)]
pub struct Topology {
    name: String,
    bridge_name: String,
    bridge_addr: Ipv4Addr,
    nodes: Vec<Node>,
    pods: Vec<Pod>,
}

impl View for Topology {
    type V = TopologyView;

    closed spec fn view(&self) -> TopologyView {
        TopologyView {
            name: self.name@,
            bridge_name: self.bridge_name@,
            bridge_addr: self.bridge_addr,
            nodes: self.nodes@.map_values(|n: Node| n@),
            pods: self.pods@.map_values(|p: Pod| p@),
        }
    }
}

impl Clone for Node {
    /// A copy of the node.
    fn clone(&self) -> (r: Self)
        ensures
            r@ == self@,
    {
        proof { use_type_invariant(self); }
        Node { name: self.name.clone(), index: self.index }
    }
}

impl Clone for Pod {
    /// A copy of the pod.
    fn clone(&self) -> (r: Self)
        ensures
            r@ == self@,
    {
        proof { use_type_invariant(self); }
        Pod { name: self.name.clone(), node: self.node.clone(), index: self.index, workload: clone_words(&self.workload) }
    }
}

impl Clone for Topology {
    /// A copy of the topology.
    fn clone(&self) -> (r: Self)
        ensures
            r@ == self@,
    {
        proof { use_type_invariant(self); }
        let mut nodes: Vec<Node> = Vec::new();
        let n = self.nodes.len();
        let mut i: usize = 0;
        while i < n
            invariant
                n == self.nodes@.len(),
                i <= n,
                nodes@.map_values(|x: Node| x@) == self.nodes@.take(i as int).map_values(|x: Node| x@),
            decreases n - i,
        {
            let ghost before = nodes@.map_values(|x: Node| x@);
            let c = self.nodes[i].clone();
            nodes.push(c);
            proof {
                assert(nodes@.map_values(|x: Node| x@) =~= before.push(self.nodes@[i as int]@));
                assert(self.nodes@.take(i + 1).map_values(|x: Node| x@) =~= before.push(self.nodes@[i as int]@));
            }
            i = i + 1;
        }
        let mut pods: Vec<Pod> = Vec::new();
        let m = self.pods.len();
        let mut j: usize = 0;
        while j < m
            invariant
                m == self.pods@.len(),
                j <= m,
                pods@.map_values(|x: Pod| x@) == self.pods@.take(j as int).map_values(|x: Pod| x@),
            decreases m - j,
        {
            let ghost before = pods@.map_values(|x: Pod| x@);
            let c = self.pods[j].clone();
            pods.push(c);
            proof {
                assert(pods@.map_values(|x: Pod| x@) =~= before.push(self.pods@[j as int]@));
                assert(self.pods@.take(j + 1).map_values(|x: Pod| x@) =~= before.push(self.pods@[j as int]@));
            }
            j = j + 1;
        }
        proof {
            assert(self.nodes@.take(n as int) =~= self.nodes@);
            assert(self.pods@.take(m as int) =~= self.pods@);
        }
        let r = Topology {
            name: self.name.clone(),
            bridge_name: self.bridge_name.clone(),
            bridge_addr: self.bridge_addr,
            nodes,
            pods,
        };
        proof { assert(r@ =~= self@); }
        r
    }
}

/// Collects nodes and pods; `build` checks them and resolves their slots.
#[derive(Debug, Clone, PartialEq, Eq)]
pub struct TopologyBuilder {
    name: String,
    bridge_name: String,
    bridge_addr: Ipv4Addr,
    nodes: Vec<PendingNode>,
    pods: Vec<PendingPod>,
}

#[derive(Debug, Clone, PartialEq, Eq)]
struct PendingNode {
    name: String,
    index: Option<usize>,
}

#[derive(Debug, Clone, PartialEq, Eq)]
struct PendingPod {
    name: String,
    node: String,
    index: Option<usize>,
    workload: Option<Vec<String>>,
}

impl View for PendingNode {
    type V = PendingNodeView;

    closed spec fn view(&self) -> PendingNodeView {
        PendingNodeView { name: self.name@, index: self.index }
    }
}

impl View for PendingPod {
    type V = PendingPodView;

    closed spec fn view(&self) -> PendingPodView {
        PendingPodView { name: self.name@, node: self.node@, index: self.index, workload: words_view(self.workload) }
    }
}

impl View for TopologyBuilder {
    type V = BuilderView;

    closed spec fn view(&self) -> BuilderView {
        BuilderView {
            name: self.name@,
            bridge_name: self.bridge_name@,
            bridge_addr: self.bridge_addr,
            nodes: self.nodes@.map_values(|n: PendingNode| n@),
            pods: self.pods@.map_values(|p: PendingPod| p@),
        }
    }
}

fn clone_words(w: &Option<Vec<String>>) -> (r: Option<Vec<String>>)
    ensures
        words_view(r) == words_view(*w),
{
    match w {
        Some(v) => {
            let c = v.clone();
            proof { assert(c.deep_view() =~= v.deep_view()); }
            Some(c)
        },
        None => None,
    }
}

proof fn lemma_nodes_refusal_stays(nodes: Seq<PendingNodeView>, k: int, m: int)
    requires
        0 <= k <= m,
        nodes_refusal(nodes, k) is Some,
    ensures
        nodes_refusal(nodes, m) == nodes_refusal(nodes, k),
    decreases m - k,
{
    if m > k {
        lemma_nodes_refusal_stays(nodes, k, m - 1);
    }
}

proof fn lemma_pods_refusal_stays(nodes: Seq<PendingNodeView>, pods: Seq<PendingPodView>, k: int, m: int)
    requires
        0 <= k <= m,
        pods_refusal(nodes, pods, k) is Some,
    ensures
        pods_refusal(nodes, pods, m) == pods_refusal(nodes, pods, k),
    decreases m - k,
{
    if m > k {
        lemma_pods_refusal_stays(nodes, pods, k, m - 1);
    }
}

impl TopologyBuilder {
    /// Uses another bridge.
    pub fn bridge_name(self, name: String) -> (r: Self)
        ensures
            r@ == (BuilderView { bridge_name: name@, ..self@ }),
    {
        let mut s = self;
        s.bridge_name = name;
        s
    }

    /// Gives the bridge another address; node uplinks follow its /24.
    pub fn bridge_addr(self, addr: Ipv4Addr) -> (r: Self)
        ensures
            r@ == (BuilderView { bridge_addr: addr, ..self@ }),
    {
        let mut s = self;
        s.bridge_addr = addr;
        s
    }

    pub fn add_node(self, name: String) -> (r: Self)
        ensures
            r@ == (BuilderView { nodes: self@.nodes.push(PendingNodeView { name: name@, index: None }), ..self@ }),
    {
        let mut s = self;
        s.nodes.push(PendingNode { name, index: None });
        proof { assert(s@.nodes =~= self@.nodes.push(PendingNodeView { name: name@, index: None })); }
        s
    }

    pub fn add_node_with_index(self, name: String, index: usize) -> (r: Self)
        ensures
            r@ == (BuilderView { nodes: self@.nodes.push(PendingNodeView { name: name@, index: Some(index) }), ..self@ }),
    {
        let mut s = self;
        s.nodes.push(PendingNode { name, index: Some(index) });
        proof { assert(s@.nodes =~= self@.nodes.push(PendingNodeView { name: name@, index: Some(index) })); }
        s
    }

    pub fn add_pod(self, name: String, node: String) -> (r: Self)
        ensures
            r@ == (BuilderView {
                pods: self@.pods.push(PendingPodView { name: name@, node: node@, index: None, workload: None }),
                ..self@
            }),
    {
        let mut s = self;
        s.pods.push(PendingPod { name, node, index: None, workload: None });
        proof {
            assert(s@.pods =~= self@.pods.push(PendingPodView { name: name@, node: node@, index: None, workload: None }));
        }
        s
    }

    pub fn add_pod_with_index(self, name: String, node: String, index: usize) -> (r: Self)
        ensures
            r@ == (BuilderView {
                pods: self@.pods.push(PendingPodView { name: name@, node: node@, index: Some(index), workload: None }),
                ..self@
            }),
    {
        let mut s = self;
        s.pods.push(PendingPod { name, node, index: Some(index), workload: None });
        proof {
            assert(s@.pods =~= self@.pods.push(PendingPodView { name: name@, node: node@, index: Some(index), workload: None }));
        }
        s
    }

    pub fn add_workload_pod(self, name: String, node: String, command: Vec<String>) -> (r: Self)
        ensures
            r@ == (BuilderView {
                pods: self@.pods.push(PendingPodView {
                    name: name@,
                    node: node@,
                    index: None,
                    workload: Some(command.deep_view()),
                }),
                ..self@
            }),
    {
        let mut s = self;
        let ghost words = command.deep_view();
        s.pods.push(PendingPod { name, node, index: None, workload: Some(command) });
        proof {
            assert(s@.pods =~= self@.pods.push(PendingPodView { name: name@, node: node@, index: None, workload: Some(words) }));
        }
        s
    }

    pub fn add_workload_pod_with_index(self, name: String, node: String, index: usize, command: Vec<String>) -> (r: Self)
        ensures
            r@ == (BuilderView {
                pods: self@.pods.push(PendingPodView {
                    name: name@,
                    node: node@,
                    index: Some(index),
                    workload: Some(command.deep_view()),
                }),
                ..self@
            }),
    {
        let mut s = self;
        let ghost words = command.deep_view();
        s.pods.push(PendingPod { name, node, index: Some(index), workload: Some(command) });
        proof {
            assert(s@.pods =~= self@.pods.push(PendingPodView { name: name@, node: node@, index: Some(index), workload: Some(words) }));
        }
        s
    }

    /// Checks the collected names, counts and slots and builds the topology;
    /// the error is the first check that fails.
    #[verifier::loop_isolation(false)]
    pub fn build(self) -> (r: Result<Topology, FacilityError>)
        ensures
            result_view(r) == build_result(self@),
    {
        let ghost b = self@;
        match validate_name("facility", self.name.as_str()) {
            Err(e) => return Err(e),
            Ok(()) => {},
        }
        match validate_name("bridge", self.bridge_name.as_str()) {
            Err(e) => return Err(e),
            Ok(()) => {},
        }
        if self.nodes.len() > 240 {
            return Err(FacilityError::TooManyItems { kind: "nodes", max: 240, actual: self.nodes.len() });
        }
        if self.pods.len() > 240 {
            return Err(FacilityError::TooManyItems { kind: "pods", max: 240, actual: self.pods.len() });
        }
        let nn = self.nodes.len();
        let mut nodes: Vec<Node> = Vec::new();
        let mut i: usize = 0;
        while i < nn
            invariant
                b == self@,
                nn == b.nodes.len(),
                i <= nn,
                nodes_refusal(b.nodes, i as int) is None,
                nodes@.len() == i,
                forall|k: int| 0 <= k < i ==> (#[trigger] nodes@[k])@ == built_nodes(b.nodes)[k],
            decreases nn - i,
        {
            let pending = &self.nodes[i];
            proof { assert(b.nodes[i as int] == pending@); }
            match validate_name("node", pending.name.as_str()) {
                Err(e) => {
                    proof { lemma_nodes_refusal_stays(b.nodes, i + 1, nn as int); }
                    return Err(e);
                },
                Ok(()) => {},
            }
            let mut j: usize = 0;
            while j < i
                invariant
                    b == self@,
                    i < nn,
                    nodes@.len() == i,
                    forall|k: int| 0 <= k < i ==> (#[trigger] nodes@[k])@ == built_nodes(b.nodes)[k],
                    pending@ == b.nodes[i as int],
                    j <= i,
                    forall|k: int| 0 <= k < j ==> (#[trigger] b.nodes[k]).name != pending@.name,
                decreases i - j,
            {
                if str_equal(nodes[j].name.as_str(), pending.name.as_str()) {
                    proof {
                        assert(nodes@[j as int]@ == built_nodes(b.nodes)[j as int]);
                        assert(b.nodes[j as int].name == pending@.name);
                        lemma_nodes_refusal_stays(b.nodes, i + 1, nn as int);
                    }
                    return Err(FacilityError::DuplicateName { kind: "node", name: pending.name.clone() });
                }
                proof { assert(nodes@[j as int]@ == built_nodes(b.nodes)[j as int]); }
                j = j + 1;
            }
            let index = match pending.index {
                Some(x) => x,
                None => i,
            };
            proof { assert(index == pending_node_index(b.nodes, i as int)); }
            if index > 239 {
                proof { lemma_nodes_refusal_stays(b.nodes, i + 1, nn as int); }
                return Err(FacilityError::TooManyItems { kind: "node index", max: 239, actual: index });
            }
            let mut j: usize = 0;
            while j < i
                invariant
                    b == self@,
                    i < nn,
                    nodes@.len() == i,
                    forall|k: int| 0 <= k < i ==> (#[trigger] nodes@[k])@ == built_nodes(b.nodes)[k],
                    index == pending_node_index(b.nodes, i as int),
                    j <= i,
                    forall|k: int| 0 <= k < j ==> #[trigger] pending_node_index(b.nodes, k) != index,
                decreases i - j,
            {
                proof { assert(nodes@[j as int]@ == built_nodes(b.nodes)[j as int]); }
                if nodes[j].index == index {
                    proof { lemma_nodes_refusal_stays(b.nodes, i + 1, nn as int); }
                    return Err(FacilityError::DuplicateName {
                        kind: "node index",
                        name: crate::text::decimal_string(index),
                    });
                }
                j = j + 1;
            }
            proof { assert(node_refusal(b.nodes, i as int) is None); }
            nodes.push(Node { name: pending.name.clone(), index });
            i = i + 1;
        }
        let np = self.pods.len();
        let mut pods: Vec<Pod> = Vec::new();
        let mut i: usize = 0;
        while i < np
            invariant
                b == self@,
                nn == b.nodes.len(),
                np == b.pods.len(),
                nodes_refusal(b.nodes, nn as int) is None,
                nodes@.len() == nn,
                forall|k: int| 0 <= k < nn ==> (#[trigger] nodes@[k])@ == built_nodes(b.nodes)[k],
                i <= np,
                pods_refusal(b.nodes, b.pods, i as int) is None,
                pods@.len() == i,
                forall|k: int| 0 <= k < i ==> (#[trigger] pods@[k])@ == built_pods(b.pods)[k],
            decreases np - i,
        {
            let pending = &self.pods[i];
            proof { assert(b.pods[i as int] == pending@); }
            match validate_name("pod", pending.name.as_str()) {
                Err(e) => {
                    proof { lemma_pods_refusal_stays(b.nodes, b.pods, i + 1, np as int); }
                    return Err(e);
                },
                Ok(()) => {},
            }
            let mut j: usize = 0;
            while j < i
                invariant
                    b == self@,
                    i < np,
                    pods@.len() == i,
                    forall|k: int| 0 <= k < i ==> (#[trigger] pods@[k])@ == built_pods(b.pods)[k],
                    pending@ == b.pods[i as int],
                    j <= i,
                    forall|k: int| 0 <= k < j ==> (#[trigger] b.pods[k]).name != pending@.name,
                decreases i - j,
            {
                proof { assert(pods@[j as int]@ == built_pods(b.pods)[j as int]); }
                if str_equal(pods[j].name.as_str(), pending.name.as_str()) {
                    proof {
                        assert(b.pods[j as int].name == pending@.name);
                        lemma_pods_refusal_stays(b.nodes, b.pods, i + 1, np as int);
                    }
                    return Err(FacilityError::DuplicateName { kind: "pod", name: pending.name.clone() });
                }
                j = j + 1;
            }
            let mut found = false;
            let mut j: usize = 0;
            while j < nn
                invariant
                    b == self@,
                    nn == b.nodes.len(),
                    nodes@.len() == nn,
                    forall|k: int| 0 <= k < nn ==> (#[trigger] nodes@[k])@ == built_nodes(b.nodes)[k],
                    pending@ == b.pods[i as int],
                    j <= nn,
                    found <==> exists|k: int| 0 <= k < j && (#[trigger] b.nodes[k]).name == pending@.node,
                decreases nn - j,
            {
                proof { assert(nodes@[j as int]@ == built_nodes(b.nodes)[j as int]); }
                if str_equal(nodes[j].name.as_str(), pending.node.as_str()) {
                    found = true;
                }
                j = j + 1;
            }
            if !found {
                proof { lemma_pods_refusal_stays(b.nodes, b.pods, i + 1, np as int); }
                return Err(FacilityError::UnknownNode { pod: pending.name.clone(), node: pending.node.clone() });
            }
            let index = match pending.index {
                Some(x) => x,
                None => i,
            };
            proof { assert(index == pending_pod_index(b.pods, i as int)); }
            if index > 239 {
                proof { lemma_pods_refusal_stays(b.nodes, b.pods, i + 1, np as int); }
                return Err(FacilityError::TooManyItems { kind: "pod index", max: 239, actual: index });
            }
            let mut j: usize = 0;
            while j < i
                invariant
                    b == self@,
                    i < np,
                    pods@.len() == i,
                    forall|k: int| 0 <= k < i ==> (#[trigger] pods@[k])@ == built_pods(b.pods)[k],
                    index == pending_pod_index(b.pods, i as int),
                    j <= i,
                    forall|k: int| 0 <= k < j ==> #[trigger] pending_pod_index(b.pods, k) != index,
                decreases i - j,
            {
                proof { assert(pods@[j as int]@ == built_pods(b.pods)[j as int]); }
                if pods[j].index == index {
                    proof { lemma_pods_refusal_stays(b.nodes, b.pods, i + 1, np as int); }
                    return Err(FacilityError::DuplicateName {
                        kind: "pod index",
                        name: crate::text::decimal_string(index),
                    });
                }
                j = j + 1;
            }
            proof { assert(pod_refusal(b.nodes, b.pods, i as int) is None); }
            let workload = clone_words(&pending.workload);
            pods.push(Pod { name: pending.name.clone(), node: pending.node.clone(), index, workload });
            i = i + 1;
        }
        proof {
            let tv = TopologyView {
                name: self.name@,
                bridge_name: self.bridge_name@,
                bridge_addr: self.bridge_addr,
                nodes: nodes@.map_values(|n: Node| n@),
                pods: pods@.map_values(|p: Pod| p@),
            };
            assert(tv.nodes =~= built_nodes(b.nodes));
            assert(tv.pods =~= built_pods(b.pods));
            assert(build_result(b) == Ok::<TopologyView, FacilityErrorView>(tv));
            lemma_build_wf(b);
        }
        let t = Topology {
            name: self.name,
            bridge_name: self.bridge_name,
            bridge_addr: self.bridge_addr,
            nodes,
            pods,
        };
        proof {
            assert(t@.nodes =~= built_nodes(b.nodes));
            assert(t@.pods =~= built_pods(b.pods));
            assert(build_result(b) == Ok::<TopologyView, FacilityErrorView>(t@));
            lemma_build_wf(b);
        }
        Ok(t)
    }
}

pub(crate) fn words1(a: String) -> (r: Vec<String>)
    ensures
        r.deep_view() == seq![a@],
{
    let r = vec![a];
    proof { assert(r.deep_view() =~= seq![r@[0]@]); }
    r
}

pub(crate) fn words2(a: String, b: String) -> (r: Vec<String>)
    ensures
        r.deep_view() == seq![a@, b@],
{
    let r = vec![a, b];
    proof { assert(r.deep_view() =~= seq![r@[0]@, r@[1]@]); }
    r
}

pub(crate) fn words3(a: String, b: String, c: String) -> (r: Vec<String>)
    ensures
        r.deep_view() == seq![a@, b@, c@],
{
    let r = vec![a, b, c];
    proof { assert(r.deep_view() =~= seq![r@[0]@, r@[1]@, r@[2]@]); }
    r
}

pub(crate) fn words4(a: String, b: String, c: String, d: String) -> (r: Vec<String>)
    ensures
        r.deep_view() == seq![a@, b@, c@, d@],
{
    let r = vec![a, b, c, d];
    proof { assert(r.deep_view() =~= seq![r@[0]@, r@[1]@, r@[2]@, r@[3]@]); }
    r
}

pub(crate) fn words5(a: String, b: String, c: String, d: String, e: String) -> (r: Vec<String>)
    ensures
        r.deep_view() == seq![a@, b@, c@, d@, e@],
{
    let r = vec![a, b, c, d, e];
    proof { assert(r.deep_view() =~= seq![r@[0]@, r@[1]@, r@[2]@, r@[3]@, r@[4]@]); }
    r
}

pub(crate) fn words6(a: String, b: String, c: String, d: String, e: String, f: String) -> (r: Vec<String>)
    ensures
        r.deep_view() == seq![a@, b@, c@, d@, e@, f@],
{
    let r = vec![a, b, c, d, e, f];
    proof { assert(r.deep_view() =~= seq![r@[0]@, r@[1]@, r@[2]@, r@[3]@, r@[4]@, r@[5]@]); }
    r
}

pub(crate) fn words7(a: String, b: String, c: String, d: String, e: String, f: String, g: String) -> (r: Vec<String>)
    ensures
        r.deep_view() == seq![a@, b@, c@, d@, e@, f@, g@],
{
    let r = vec![a, b, c, d, e, f, g];
    proof { assert(r.deep_view() =~= seq![r@[0]@, r@[1]@, r@[2]@, r@[3]@, r@[4]@, r@[5]@, r@[6]@]); }
    r
}

pub(crate) fn words8(a: String, b: String, c: String, d: String, e: String, f: String, g: String, h: String) -> (r: Vec<String>)
    ensures
        r.deep_view() == seq![a@, b@, c@, d@, e@, f@, g@, h@],
{
    let r = vec![a, b, c, d, e, f, g, h];
    proof { assert(r.deep_view() =~= seq![r@[0]@, r@[1]@, r@[2]@, r@[3]@, r@[4]@, r@[5]@, r@[6]@, r@[7]@]); }
    r
}

/// A step running `ip args...`.
fn ip_step(stage: Stage, description: String, args: Vec<String>, allow_failure: bool) -> (r: PlanStep)
    ensures
        r@ == (StepView {
            stage,
            description: description@,
            command: ip_command(args.deep_view()),
            allow_failure,
        }),
{
    let command = CommandSpec::new(owned("ip"), args);
    if allow_failure {
        PlanStep::best_effort(stage, description, command)
    } else {
        PlanStep::strict(stage, description, command)
    }
}

/// A strict setup step running `ip netns exec <netns> args...`.
fn node_exec_step(netns: &str, description: String, args: Vec<String>) -> (r: PlanStep)
    ensures
        r@ == netns_exec_step(netns@, description@, args.deep_view()),
{
    let mut command_args = words3(owned("netns"), owned("exec"), owned(netns));
    let ghost head = command_args.deep_view();
    let mut rest = args;
    let ghost tail = rest.deep_view();
    command_args.append(&mut rest);
    proof { assert(command_args.deep_view() =~= head + tail); }
    ip_step(Stage::Setup, description, command_args, false)
}

/// `ip` text and a prefix length, as in `10.200.0.1/24`.
fn cidr(ip: Ipv4Addr, bits: &str) -> (r: String)
    ensures
        r@ == cidr_text(ip, bits@),
{
    let mut r = ip.dotted();
    r.append("/");
    r.append(bits);
    proof { assert(r@ =~= cidr_text(ip, bits@)); }
    r
}

/// The lines of a topology summary.
pub open spec fn summary_lines(t: TopologyView) -> Seq<Seq<char>> {
    seq!["facility: "@ + t.name, "bridge: "@ + t.bridge_name + " at "@ + cidr_text(t.bridge_addr, "24"@)]
        + t.nodes.map_values(|n: NodeView| "node: "@ + n.name + " netns="@ + node_netns(t.name, n.name) + " uplink="@ + cidr_text(uplink_ip(t, n), "24"@))
        + t.pods.map_values(|p: PodView| "pod: "@ + p.name + " node="@ + p.node + " netns="@ + pod_netns(t.name, p.name) + " ip="@ + cidr_text(pod_ip(p), "30"@))
}

/// The builder that `Topology::smoke` builds: one node and three pods with
/// workloads.
pub open spec fn smoke_builder() -> BuilderView {
    BuilderView {
        name: "smoke"@,
        bridge_name: "vf-br0"@,
        bridge_addr: Ipv4Addr(10, 200, 0, 1),
        nodes: seq![PendingNodeView { name: "default-node"@, index: None }],
        pods: seq![
            PendingPodView { name: "proxy"@, node: "default-node"@, index: None, workload: Some(seq!["proxy"@, "run"@]) },
            PendingPodView { name: "server"@, node: "default-node"@, index: None, workload: Some(seq!["python3"@, "-m"@, "http.server"@, "8080"@]) },
            PendingPodView { name: "client"@, node: "default-node"@, index: None, workload: Some(seq!["curl"@, "http://10.244.2.2:8080"@]) },
        ],
    }
}

impl Topology {
    #[verifier::type_invariant]
    closed spec fn well_formed(self) -> bool {
        wf(self@)
    }

    /// A builder for facility `name` on bridge `vf-br0` at `10.200.0.1`.
    pub fn builder(name: String) -> (r: TopologyBuilder)
        ensures
            r@ == (BuilderView {
                name: name@,
                bridge_name: "vf-br0"@,
                bridge_addr: Ipv4Addr(10, 200, 0, 1),
                nodes: Seq::empty(),
                pods: Seq::empty(),
            }),
    {
        let r = TopologyBuilder {
            name,
            bridge_name: owned("vf-br0"),
            bridge_addr: Ipv4Addr::new(10, 200, 0, 1),
            nodes: Vec::new(),
            pods: Vec::new(),
        };
        proof {
            assert(r@.nodes =~= Seq::<PendingNodeView>::empty());
            assert(r@.pods =~= Seq::<PendingPodView>::empty());
        }
        r
    }

    /// The smoke facility: node `default-node` with pods `proxy`, `server`
    /// and `client`, each with a workload.
    pub fn smoke() -> (r: Result<Topology, FacilityError>)
        ensures
            result_view(r) == build_result(smoke_builder()),
    {
        let b = Topology::builder(owned("smoke"))
            .add_node(owned("default-node"))
            .add_workload_pod(owned("proxy"), owned("default-node"), words2(owned("proxy"), owned("run")))
            .add_workload_pod(
                owned("server"),
                owned("default-node"),
                words4(owned("python3"), owned("-m"), owned("http.server"), owned("8080")),
            )
            .add_workload_pod(
                owned("client"),
                owned("default-node"),
                words2(owned("curl"), owned("http://10.244.2.2:8080")),
            );
        proof {
            assert(b@.nodes =~= smoke_builder().nodes);
            assert(b@.pods =~= smoke_builder().pods);
        }
        b.build()
    }

    pub fn name(&self) -> (r: &str)
        ensures
            r@ == self@.name,
    {
        self.name.as_str()
    }

    pub fn bridge_name(&self) -> (r: &str)
        ensures
            r@ == self@.bridge_name,
    {
        self.bridge_name.as_str()
    }

    pub fn bridge_addr(&self) -> (r: Ipv4Addr)
        ensures
            r == self@.bridge_addr,
    {
        self.bridge_addr
    }

    /// The bridge address with its /24.
    pub fn bridge_cidr(&self) -> (r: String)
        ensures
            r@ == cidr_text(self@.bridge_addr, "24"@),
    {
        cidr(self.bridge_addr, "24")
    }

    pub fn nodes(&self) -> (r: &[Node])
        ensures
            r@.len() == self@.nodes.len(),
            forall|i: int| 0 <= i < r@.len() ==> (#[trigger] r@[i])@ == self@.nodes[i],
    {
        self.nodes.as_slice()
    }

    pub fn pods(&self) -> (r: &[Pod])
        ensures
            r@.len() == self@.pods.len(),
            forall|i: int| 0 <= i < r@.len() ==> (#[trigger] r@[i])@ == self@.pods[i],
    {
        self.pods.as_slice()
    }

    /// The topology is well formed.
    pub fn well_formed_view(&self)
        ensures
            wf(self@),
    {
        proof { use_type_invariant(self); }
    }

    fn node_index_of(&self, name: &str) -> (r: Option<usize>)
        ensures
            r matches Some(i) ==> node_position(self@.nodes, name@) == Some(i as int) && i < self@.nodes.len()
                && self@.nodes[i as int].name == name@,
            r is None ==> node_position(self@.nodes, name@) is None,
    {
        let n = self.nodes.len();
        let mut i: usize = 0;
        while i < n
            invariant
                n == self@.nodes.len(),
                i <= n,
                node_position(self@.nodes.take(i as int), name@) is None,
            decreases n - i,
        {
            let ghost before = self@.nodes.take(i as int);
            let ghost after = self@.nodes.take(i + 1);
            proof { assert(after.drop_last() =~= before); }
            if str_equal(self.nodes[i].name.as_str(), name) {
                proof {
                    assert(node_position(after, name@) == Some(i as int));
                    lemma_node_position_prefix(self@.nodes, name@, i + 1);
                }
                return Some(i);
            }
            i = i + 1;
        }
        proof { assert(self@.nodes.take(n as int) =~= self@.nodes); }
        None
    }

    fn pod_index_of(&self, name: &str) -> (r: Option<usize>)
        ensures
            r matches Some(i) ==> pod_position(self@.pods, name@) == Some(i as int) && i < self@.pods.len()
                && self@.pods[i as int].name == name@,
            r is None ==> pod_position(self@.pods, name@) is None,
    {
        let n = self.pods.len();
        let mut i: usize = 0;
        while i < n
            invariant
                n == self@.pods.len(),
                i <= n,
                pod_position(self@.pods.take(i as int), name@) is None,
            decreases n - i,
        {
            let ghost before = self@.pods.take(i as int);
            let ghost after = self@.pods.take(i + 1);
            proof { assert(after.drop_last() =~= before); }
            if str_equal(self.pods[i].name.as_str(), name) {
                proof {
                    assert(pod_position(after, name@) == Some(i as int));
                    lemma_pod_position_prefix(self@.pods, name@, i + 1);
                }
                return Some(i);
            }
            i = i + 1;
        }
        proof { assert(self@.pods.take(n as int) =~= self@.pods); }
        None
    }

    fn node_uplink_ip(&self, node: &Node) -> (r: Ipv4Addr)
        ensures
            r == uplink_ip(self@, node@),
    {
        let slot = node.slot();
        Ipv4Addr::new(self.bridge_addr.0, self.bridge_addr.1, self.bridge_addr.2, 10 + slot as u8)
    }

    fn pod_address(&self, pod: &Pod) -> (r: PodAddress)
        ensures
            r.pod_ip == pod_ip(pod@),
            r.node_side_ip == pod_node_side_ip(pod@),
            r.pod_cidr@ == cidr_text(pod_ip(pod@), "30"@),
            r.node_side_cidr@ == cidr_text(pod_node_side_ip(pod@), "30"@),
    {
        let subnet = pod.slot() + 1;
        let node_side_ip = Ipv4Addr::new(10, 244, subnet as u8, 1);
        let pod_ip = Ipv4Addr::new(10, 244, subnet as u8, 2);
        PodAddress {
            pod_ip,
            pod_cidr: cidr(pod_ip, "30"),
            node_side_ip,
            node_side_cidr: cidr(node_side_ip, "30"),
        }
    }

    /// The address of the first pod called `pod_name`.
    pub fn resolve(&self, pod_name: &str) -> (r: Option<Ipv4Addr>)
        ensures
            r == (match pod_position(self@.pods, pod_name@) {
                Some(i) => Some(pod_ip(self@.pods[i])),
                None => None,
            }),
    {
        match self.pod_index_of(pod_name) {
            Some(i) => {
                proof { lemma_pod_position(self@.pods, pod_name@); }
                Some(self.pod_address(&self.pods[i]).pod_ip)
            },
            None => None,
        }
    }

    /// The network namespace of the pod called `pod_name`.
    pub fn pod_namespace(&self, pod_name: &str) -> (r: Result<String, FacilityError>)
        ensures
            result_view(r) == (match pod_position(self@.pods, pod_name@) {
                Some(i) => Ok(pod_netns(self@.name, self@.pods[i].name)),
                None => Err(FacilityErrorView::UnknownPod { name: pod_name@ }),
            }),
    {
        match self.pod_index_of(pod_name) {
            Some(i) => {
                proof { lemma_pod_position(self@.pods, pod_name@); }
                Ok(self.pods[i].netns(self.name.as_str()))
            },
            None => Err(FacilityError::UnknownPod { name: owned(pod_name) }),
        }
    }

    /// The network namespace of the node called `node_name`.
    pub fn node_namespace(&self, node_name: &str) -> (r: Result<String, FacilityError>)
        ensures
            result_view(r) == (match node_position(self@.nodes, node_name@) {
                Some(i) => Ok(node_netns(self@.name, self@.nodes[i].name)),
                None => Err(FacilityErrorView::UnknownNodeName { name: node_name@ }),
            }),
    {
        match self.node_index_of(node_name) {
            Some(i) => Ok(self.nodes[i].netns(self.name.as_str())),
            None => Err(FacilityError::UnknownNodeName { name: owned(node_name) }),
        }
    }

    pub fn node_namespace_names(&self) -> (r: Vec<String>)
        ensures
            r.deep_view() == self@.nodes.map_values(|n: NodeView| node_netns(self@.name, n.name)),
    {
        let mut r: Vec<String> = Vec::new();
        let n = self.nodes.len();
        let mut i: usize = 0;
        while i < n
            invariant
                n == self@.nodes.len(),
                i <= n,
                r.deep_view() == self@.nodes.take(i as int).map_values(|n: NodeView| node_netns(self@.name, n.name)),
            decreases n - i,
        {
            let ns = self.nodes[i].netns(self.name.as_str());
            let ghost before = r.deep_view();
            r.push(ns);
            proof {
                assert(self.nodes@[i as int]@ == self@.nodes[i as int]);
                assert(r.deep_view() =~= before.push(ns@));
                assert(r.deep_view() =~= self@.nodes.take(i + 1).map_values(|n: NodeView| node_netns(self@.name, n.name)));
            }
            i = i + 1;
        }
        proof { assert(self@.nodes.take(n as int) =~= self@.nodes); }
        r
    }

    pub fn pod_namespace_names(&self) -> (r: Vec<String>)
        ensures
            r.deep_view() == self@.pods.map_values(|p: PodView| pod_netns(self@.name, p.name)),
    {
        let mut r: Vec<String> = Vec::new();
        let n = self.pods.len();
        let mut i: usize = 0;
        while i < n
            invariant
                n == self@.pods.len(),
                i <= n,
                r.deep_view() == self@.pods.take(i as int).map_values(|p: PodView| pod_netns(self@.name, p.name)),
            decreases n - i,
        {
            let ns = self.pods[i].netns(self.name.as_str());
            let ghost before = r.deep_view();
            r.push(ns);
            proof {
                assert(self.pods@[i as int]@ == self@.pods[i as int]);
                assert(r.deep_view() =~= before.push(ns@));
                assert(r.deep_view() =~= self@.pods.take(i + 1).map_values(|p: PodView| pod_netns(self@.name, p.name)));
            }
            i = i + 1;
        }
        proof { assert(self@.pods.take(n as int) =~= self@.pods); }
        r
    }

    /// The uplink address of `node` in this facility's network, with its /24.
    pub fn node_uplink_cidr(&self, node: &Node) -> (r: String)
        ensures
            r@ == cidr_text(uplink_ip(self@, node@), "24"@),
    {
        cidr(self.node_uplink_ip(node), "24")
    }

    /// The pod-side address of `pod`, with its /30.
    pub fn pod_cidr(&self, pod: &Pod) -> (r: String)
        ensures
            r@ == cidr_text(pod_ip(pod@), "30"@),
    {
        self.pod_address(pod).pod_cidr
    }

    /// One line for the facility, one for the bridge, one per node and one
    /// per pod.
    pub fn render_summary(&self) -> (r: String)
        ensures
            r@ == join_with(summary_lines(self@), "\n"@),
    {
        let mut lines: Vec<String> = Vec::new();
        let mut first = owned("facility: ");
        first.append(self.name.as_str());
        lines.push(first);
        let mut second = owned("bridge: ");
        second.append(self.bridge_name.as_str());
        second.append(" at ");
        let c = cidr(self.bridge_addr, "24");
        second.append(c.as_str());
        lines.push(second);
        proof { assert(lines.deep_view() =~= summary_lines(self@).take(2)); }
        let nn = self.nodes.len();
        let mut i: usize = 0;
        while i < nn
            invariant
                nn == self@.nodes.len(),
                i <= nn,
                lines.deep_view() == summary_lines(self@).take(2 + i),
            decreases nn - i,
        {
            let node = &self.nodes[i];
            let mut line = owned("node: ");
            line.append(node.name.as_str());
            line.append(" netns=");
            let ns = node.netns(self.name.as_str());
            line.append(ns.as_str());
            line.append(" uplink=");
            let up = cidr(self.node_uplink_ip(node), "24");
            line.append(up.as_str());
            let ghost before = lines.deep_view();
            lines.push(line);
            proof {
                assert(node@ == self@.nodes[i as int]);
                assert(lines.deep_view() =~= before.push(line@));
                assert(summary_lines(self@)[2 + i] == line@);
                assert(lines.deep_view() =~= summary_lines(self@).take(2 + i + 1));
            }
            i = i + 1;
        }
        let np = self.pods.len();
        let mut j: usize = 0;
        while j < np
            invariant
                nn == self@.nodes.len(),
                np == self@.pods.len(),
                j <= np,
                lines.deep_view() == summary_lines(self@).take(2 + nn + j),
            decreases np - j,
        {
            let pod = &self.pods[j];
            let address = self.pod_address(pod);
            let mut line = owned("pod: ");
            line.append(pod.name.as_str());
            line.append(" node=");
            line.append(pod.node.as_str());
            line.append(" netns=");
            let ns = pod.netns(self.name.as_str());
            line.append(ns.as_str());
            line.append(" ip=");
            line.append(address.pod_cidr.as_str());
            let ghost before = lines.deep_view();
            lines.push(line);
            proof {
                assert(pod@ == self@.pods[j as int]);
                assert(lines.deep_view() =~= before.push(line@));
                assert(summary_lines(self@)[2 + nn + j] == line@);
                assert(lines.deep_view() =~= summary_lines(self@).take(2 + nn + j + 1));
            }
            j = j + 1;
        }
        proof { assert(summary_lines(self@).take(2 + nn + np) =~= summary_lines(self@)); }
        join_strings(&lines, "\n")
    }
}

impl Topology {
    fn bridge_setup(&self, plan: &mut CommandPlan)
        ensures
            final(plan)@ == old(plan)@ + bridge_setup_steps(self@),
    {
        let br = self.bridge_name.as_str();
        let mut d1 = describe("create bridge ", br);
        d1.append(" to stand in for the cluster underlay");
        let s1 = ip_step(Stage::Setup, d1, words5(owned("link"), owned("add"), owned(br), owned("type"), owned("bridge")), false);
        let c = cidr(self.bridge_addr, "24");
        let d2 = describe("assign bridge address ", c.as_str());
        let s2 = ip_step(Stage::Setup, d2, words5(owned("addr"), owned("add"), c, owned("dev"), owned(br)), false);
        let mut d3 = describe("bring bridge ", br);
        d3.append(" up");
        let s3 = ip_step(Stage::Setup, d3, words4(owned("link"), owned("set"), owned(br), owned("up")), false);
        plan.push(s1);
        plan.push(s2);
        plan.push(s3);
        proof { assert(final(plan)@ =~= old(plan)@ + bridge_setup_steps(self@)); }
    }

    fn bridge_cleanup(&self, plan: &mut CommandPlan)
        ensures
            final(plan)@ == old(plan)@.push(bridge_cleanup_step(self@)),
    {
        let br = self.bridge_name.as_str();
        let d = describe("delete bridge ", br);
        plan.push(ip_step(Stage::Cleanup, d, words3(owned("link"), owned("del"), owned(br)), true));
    }

    fn node_setup(&self, plan: &mut CommandPlan, node: &Node)
        ensures
            final(plan)@ == old(plan)@ + node_setup_steps(self@, node@),
    {
        let facility = self.name.as_str();
        let name = node.name.as_str();
        let ns = node.netns(facility);
        let h = node.host_veth(facility);
        let v = node.node_veth(facility);
        let up = cidr(self.node_uplink_ip(node), "24");
        let br_ip = self.bridge_addr.dotted();

        let s1 = ip_step(Stage::Setup, describe("create node namespace ", ns.as_str()),
            words3(owned("netns"), owned("add"), ns.clone()), false);
        let mut d2 = describe("create veth pair ", h.as_str());
        d2.append(" <-> ");
        push_ticked(&mut d2, v.as_str());
        d2.append(" for node ");
        push_ticked(&mut d2, name);
        let s2 = ip_step(Stage::Setup, d2, words8(owned("link"), owned("add"), h.clone(), owned("type"), owned("veth"), owned("peer"), owned("name"), v.clone()), false);
        let mut d3 = describe("move ", v.as_str());
        d3.append(" into node namespace");
        let s3 = ip_step(Stage::Setup, d3, words5(owned("link"), owned("set"), v.clone(), owned("netns"), ns.clone()), false);
        let mut d4 = describe("attach ", h.as_str());
        d4.append(" to bridge ");
        push_ticked(&mut d4, self.bridge_name.as_str());
        let s4 = ip_step(Stage::Setup, d4, words5(owned("link"), owned("set"), h.clone(), owned("master"), self.bridge_name.clone()), false);
        let mut d5 = describe("bring host side ", h.as_str());
        d5.append(" up");
        let s5 = ip_step(Stage::Setup, d5, words4(owned("link"), owned("set"), h.clone(), owned("up")), false);
        let s6 = node_exec_step(ns.as_str(), describe("bring loopback up in node ", name),
            words5(owned("ip"), owned("link"), owned("set"), owned("lo"), owned("up")));
        let mut d7 = describe("rename node uplink ", v.as_str());
        d7.append(" to `eth0`");
        let s7 = node_exec_step(ns.as_str(), d7,
            words6(owned("ip"), owned("link"), owned("set"), v.clone(), owned("name"), owned("eth0")));
        let s8 = node_exec_step(ns.as_str(), describe("assign node uplink address ", up.as_str()),
            words6(owned("ip"), owned("addr"), owned("add"), up.clone(), owned("dev"), owned("eth0")));
        let s9 = node_exec_step(ns.as_str(), describe("bring node uplink up for ", name),
            words5(owned("ip"), owned("link"), owned("set"), owned("eth0"), owned("up")));
        let s10 = node_exec_step(ns.as_str(), describe("set node default route through ", br_ip.as_str()),
            words6(owned("ip"), owned("route"), owned("add"), owned("default"), owned("via"), br_ip.clone()));
        let s11 = node_exec_step(ns.as_str(), describe("enable IPv4 forwarding in node ", name),
            words3(owned("sysctl"), owned("-w"), owned("net.ipv4.ip_forward=1")));
        plan.push(s1);
        plan.push(s2);
        plan.push(s3);
        plan.push(s4);
        plan.push(s5);
        plan.push(s6);
        plan.push(s7);
        plan.push(s8);
        plan.push(s9);
        plan.push(s10);
        plan.push(s11);
        proof { assert(final(plan)@ =~= old(plan)@ + node_setup_steps(self@, node@)); }
    }

    fn node_cleanup(&self, plan: &mut CommandPlan, node: &Node)
        ensures
            final(plan)@ == old(plan)@ + node_cleanup_steps(self@, node@),
    {
        let facility = self.name.as_str();
        let ns = node.netns(facility);
        let h = node.host_veth(facility);
        let s1 = ip_step(Stage::Cleanup, describe("delete node namespace ", ns.as_str()),
            words3(owned("netns"), owned("del"), ns.clone()), true);
        let s2 = ip_step(Stage::Cleanup, describe("delete host veth ", h.as_str()),
            words3(owned("link"), owned("del"), h.clone()), true);
        plan.push(s1);
        plan.push(s2);
        proof { assert(final(plan)@ =~= old(plan)@ + node_cleanup_steps(self@, node@)); }
    }

    fn pod_setup(&self, plan: &mut CommandPlan, pod: &Pod)
        ensures
            final(plan)@ == old(plan)@ + pod_setup_steps(self@, pod@),
    {
        let facility = self.name.as_str();
        let name = pod.name.as_str();
        let pns = pod.netns(facility);
        let nns = netns_name(facility, "-node-", pod.node.as_str());
        let address = self.pod_address(pod);
        let pn = pod.node_veth(facility);
        let pp = pod.pod_veth(facility);
        let side_ip = address.node_side_ip.dotted();

        let s1 = ip_step(Stage::Setup, describe("create pod namespace ", pns.as_str()),
            words3(owned("netns"), owned("add"), pns.clone()), false);
        let mut d2 = describe("create veth pair ", pn.as_str());
        d2.append(" <-> ");
        push_ticked(&mut d2, pp.as_str());
        d2.append(" for pod ");
        push_ticked(&mut d2, name);
        let s2 = ip_step(Stage::Setup, d2, words8(owned("link"), owned("add"), pn.clone(), owned("type"), owned("veth"), owned("peer"), owned("name"), pp.clone()), false);
        let mut d3 = describe("move ", pn.as_str());
        d3.append(" into node namespace");
        let s3 = ip_step(Stage::Setup, d3, words5(owned("link"), owned("set"), pn.clone(), owned("netns"), nns.clone()), false);
        let mut d4 = describe("move ", pp.as_str());
        d4.append(" into pod namespace");
        let s4 = ip_step(Stage::Setup, d4, words5(owned("link"), owned("set"), pp.clone(), owned("netns"), pns.clone()), false);
        let mut d5 = describe("assign node-side pod link ", pn.as_str());
        d5.append(" to ");
        push_ticked(&mut d5, address.node_side_cidr.as_str());
        let s5 = node_exec_step(nns.as_str(), d5,
            words6(owned("ip"), owned("addr"), owned("add"), address.node_side_cidr.clone(), owned("dev"), pn.clone()));
        let mut d6 = describe("bring node-side pod link ", pn.as_str());
        d6.append(" up");
        let s6 = node_exec_step(nns.as_str(), d6,
            words5(owned("ip"), owned("link"), owned("set"), pn.clone(), owned("up")));
        let s7 = node_exec_step(pns.as_str(), describe("bring loopback up in pod ", name),
            words5(owned("ip"), owned("link"), owned("set"), owned("lo"), owned("up")));
        let mut d8 = describe("rename pod link ", pp.as_str());
        d8.append(" to `eth0`");
        let s8 = node_exec_step(pns.as_str(), d8,
            words6(owned("ip"), owned("link"), owned("set"), pp.clone(), owned("name"), owned("eth0")));
        let s9 = node_exec_step(pns.as_str(), describe("assign pod address ", address.pod_cidr.as_str()),
            words6(owned("ip"), owned("addr"), owned("add"), address.pod_cidr.clone(), owned("dev"), owned("eth0")));
        let s10 = node_exec_step(pns.as_str(), describe("bring pod link up for ", name),
            words5(owned("ip"), owned("link"), owned("set"), owned("eth0"), owned("up")));
        let mut d11 = describe("route pod ", name);
        d11.append(" through its node-side peer");
        let s11 = node_exec_step(pns.as_str(), d11,
            words6(owned("ip"), owned("route"), owned("add"), owned("default"), owned("via"), side_ip));
        plan.push(s1);
        plan.push(s2);
        plan.push(s3);
        plan.push(s4);
        plan.push(s5);
        plan.push(s6);
        plan.push(s7);
        plan.push(s8);
        plan.push(s9);
        plan.push(s10);
        plan.push(s11);
        proof { assert(final(plan)@ =~= old(plan)@ + pod_setup_steps(self@, pod@)); }
    }

    fn pod_cleanup(&self, plan: &mut CommandPlan, pod: &Pod)
        ensures
            final(plan)@ == old(plan)@.push(pod_cleanup_step(self@, pod@)),
    {
        let pns = pod.netns(self.name.as_str());
        let s = ip_step(Stage::Cleanup, describe("delete pod namespace ", pns.as_str()),
            words3(owned("netns"), owned("del"), pns.clone()), true);
        plan.push(s);
    }
}

impl Topology {
    fn cross_node_routes(&self, plan: &mut CommandPlan)
        ensures
            final(plan)@ == old(plan)@ + cross_node_routes(self@, self@.nodes),
    {
        proof { use_type_invariant(self); }
        let ghost t = self@;
        let facility = self.name.as_str();
        let nn = self.nodes.len();
        let np = self.pods.len();
        let mut i: usize = 0;
        while i < nn
            invariant
                t == self@,
                wf(t),
                nn == t.nodes.len(),
                np == t.pods.len(),
                i <= nn,
                facility@ == t.name,
                plan@ == old(plan)@ + cross_node_routes(t, t.nodes.take(i as int)),
            decreases nn - i,
        {
            let node = &self.nodes[i];
            let ns = node.netns(facility);
            let ghost start = plan@;
            let mut j: usize = 0;
            while j < np
                invariant
                    t == self@,
                    wf(t),
                    nn == t.nodes.len(),
                    np == t.pods.len(),
                    i < nn,
                    node@ == t.nodes[i as int],
                    ns@ == node_netns(t.name, node@.name),
                    j <= np,
                    plan@ == start + node_routes(t, node@, t.pods.take(j as int)),
                decreases np - j,
            {
                let pod = &self.pods[j];
                proof {
                    assert(pod@ == t.pods[j as int]);
                    assert(t.pods.take(j + 1).drop_last() =~= t.pods.take(j as int));
                    assert(t.pods.take(j + 1).last() == pod@);
                }
                if !str_equal(pod.node.as_str(), node.name.as_str()) {
                    let k = self.node_index_of(pod.node.as_str()).unwrap();
                    let remote = &self.nodes[k];
                    proof {
                        assert(node_position(t.nodes, pod@.node) is Some);
                        assert(remote@ == node_of_pod(t, pod@));
                    }
                    let address = self.pod_address(pod);
                    let mut d = describe("route remote pod ", pod.name.as_str());
                    d.append(" through node ");
                    push_ticked(&mut d, remote.name.as_str());
                    let step = node_exec_step(ns.as_str(), d,
                        words6(owned("ip"), owned("route"), owned("add"), cidr(address.pod_ip, "32"), owned("via"), self.node_uplink_ip(remote).dotted()));
                    plan.push(step);
                    proof {
                        assert(step@ == remote_route_step(t, node@, pod@));
                        assert(plan@ =~= start + node_routes(t, node@, t.pods.take(j + 1)));
                    }
                } else {
                    proof { assert(plan@ =~= start + node_routes(t, node@, t.pods.take(j + 1))); }
                }
                j = j + 1;
            }
            proof {
                assert(t.pods.take(np as int) =~= t.pods);
                assert(t.nodes.take(i + 1).drop_last() =~= t.nodes.take(i as int));
                assert(t.nodes.take(i + 1).last() == node@);
                assert(plan@ =~= old(plan)@ + cross_node_routes(t, t.nodes.take(i + 1)));
            }
            i = i + 1;
        }
        proof { assert(t.nodes.take(nn as int) =~= t.nodes); }
    }

    /// The plan that creates the whole facility: bridge, nodes, pods, and the
    /// routes between nodes.
    pub fn setup_plan(&self) -> (r: CommandPlan)
        ensures
            r@ == setup_steps(self@),
    {
        let ghost t = self@;
        let mut plan = CommandPlan::new();
        self.bridge_setup(&mut plan);
        let nn = self.nodes.len();
        let mut i: usize = 0;
        while i < nn
            invariant
                t == self@,
                nn == t.nodes.len(),
                i <= nn,
                plan@ == bridge_setup_steps(t) + nodes_setup_steps(t, t.nodes.take(i as int)),
            decreases nn - i,
        {
            self.node_setup(&mut plan, &self.nodes[i]);
            proof {
                assert(t.nodes.take(i + 1).drop_last() =~= t.nodes.take(i as int));
                assert(plan@ =~= bridge_setup_steps(t) + nodes_setup_steps(t, t.nodes.take(i + 1)));
            }
            i = i + 1;
        }
        proof { assert(t.nodes.take(nn as int) =~= t.nodes); }
        let np = self.pods.len();
        let mut j: usize = 0;
        while j < np
            invariant
                t == self@,
                np == t.pods.len(),
                j <= np,
                plan@ == bridge_setup_steps(t) + nodes_setup_steps(t, t.nodes) + pods_setup_steps(t, t.pods.take(j as int)),
            decreases np - j,
        {
            self.pod_setup(&mut plan, &self.pods[j]);
            proof {
                assert(t.pods.take(j + 1).drop_last() =~= t.pods.take(j as int));
                assert(plan@ =~= bridge_setup_steps(t) + nodes_setup_steps(t, t.nodes) + pods_setup_steps(t, t.pods.take(j + 1)));
            }
            j = j + 1;
        }
        proof { assert(t.pods.take(np as int) =~= t.pods); }
        self.cross_node_routes(&mut plan);
        plan
    }

    pub fn bridge_setup_plan(&self) -> (r: CommandPlan)
        ensures
            r@ == bridge_setup_steps(self@),
    {
        let mut plan = CommandPlan::new();
        self.bridge_setup(&mut plan);
        proof { assert(plan@ =~= bridge_setup_steps(self@)); }
        plan
    }

    /// The plan that creates the node called `node_name`.
    pub fn node_setup_plan(&self, node_name: &str) -> (r: Result<CommandPlan, FacilityError>)
        ensures
            result_view(r) == (match node_position(self@.nodes, node_name@) {
                Some(i) => Ok(node_setup_steps(self@, self@.nodes[i])),
                None => Err(FacilityErrorView::UnknownNodeName { name: node_name@ }),
            }),
    {
        match self.node_index_of(node_name) {
            Some(i) => {
                let mut plan = CommandPlan::new();
                self.node_setup(&mut plan, &self.nodes[i]);
                proof { assert(plan@ =~= node_setup_steps(self@, self@.nodes[i as int])); }
                Ok(plan)
            },
            None => Err(FacilityError::UnknownNodeName { name: owned(node_name) }),
        }
    }

    /// The plan that creates the pod called `pod_name`.
    pub fn pod_setup_plan(&self, pod_name: &str) -> (r: Result<CommandPlan, FacilityError>)
        ensures
            result_view(r) == (match pod_position(self@.pods, pod_name@) {
                Some(i) => Ok(pod_setup_steps(self@, self@.pods[i])),
                None => Err(FacilityErrorView::UnknownPod { name: pod_name@ }),
            }),
    {
        match self.pod_index_of(pod_name) {
            Some(i) => {
                let mut plan = CommandPlan::new();
                self.pod_setup(&mut plan, &self.pods[i]);
                proof { assert(plan@ =~= pod_setup_steps(self@, self@.pods[i as int])); }
                Ok(plan)
            },
            None => Err(FacilityError::UnknownPod { name: owned(pod_name) }),
        }
    }

    /// The plan that runs each pod's workload in its namespace; refused at
    /// the first pod whose workload command is empty.
    pub fn workload_plan(&self) -> (r: Result<CommandPlan, FacilityError>)
        ensures
            result_view(r) == workload_result(self@, self@.pods),
    {
        let ghost t = self@;
        let mut plan = CommandPlan::new();
        let np = self.pods.len();
        let mut i: usize = 0;
        while i < np
            invariant
                t == self@,
                np == t.pods.len(),
                i <= np,
                workload_result(t, t.pods.take(i as int)) == Ok::<Seq<StepView>, FacilityErrorView>(plan@),
            decreases np - i,
        {
            let pod = &self.pods[i];
            let ghost after = t.pods.take(i + 1);
            proof {
                assert(after.drop_last() =~= t.pods.take(i as int));
                assert(after.last() == pod@);
            }
            match &pod.workload {
                Some(command) => {
                    if command.len() == 0 {
                        proof {
                            assert(workload_result(t, after) is Err);
                            lemma_workload_error_stays(t, t.pods, i + 1);
                        }
                        return Err(FacilityError::EmptyWorkload { pod: pod.name.clone() });
                    }
                    let pns = pod.netns(self.name.as_str());
                    let mut args = words3(owned("netns"), owned("exec"), pns);
                    let ghost head = args.deep_view();
                    let mut rest = command.clone();
                    proof { assert(rest.deep_view() =~= command.deep_view()); }
                    let ghost tail = rest.deep_view();
                    args.append(&mut rest);
                    proof { assert(args.deep_view() =~= head + tail); }
                    let mut d = describe("run workload ", command[0].as_str());
                    d.append(" inside pod ");
                    push_ticked(&mut d, pod.name.as_str());
                    let step = ip_step(Stage::Workload, d, args, false);
                    plan.push(step);
                    proof {
                        assert(step@ == workload_step(t, pod@, command.deep_view()));
                    }
                },
                None => {},
            }
            i = i + 1;
        }
        proof { assert(t.pods.take(np as int) =~= t.pods); }
        Ok(plan)
    }

    /// A one-step plan that pings `target_pod` from inside `source_pod`.
    pub fn ping_plan(&self, source_pod: &str, target_pod: &str) -> (r: Result<CommandPlan, FacilityError>)
        ensures
            result_view(r) == (match pod_position(self@.pods, source_pod@) {
                None => Err(FacilityErrorView::UnknownPod { name: source_pod@ }),
                Some(i) => match pod_position(self@.pods, target_pod@) {
                    None => Err(FacilityErrorView::UnknownPod { name: target_pod@ }),
                    Some(j) => Ok(seq![ping_step(self@, self@.pods[i], source_pod@, target_pod@, pod_ip(self@.pods[j]))]),
                },
            }),
    {
        let i = match self.pod_index_of(source_pod) {
            Some(i) => i,
            None => return Err(FacilityError::UnknownPod { name: owned(source_pod) }),
        };
        let target_ip = match self.resolve(target_pod) {
            Some(ip) => ip,
            None => return Err(FacilityError::UnknownPod { name: owned(target_pod) }),
        };
        proof { lemma_pod_position(self@.pods, source_pod@); }
        let source = &self.pods[i];
        let mut d = describe("ping pod ", target_pod);
        d.append(" from pod ");
        push_ticked(&mut d, source_pod);
        let args = words7(owned("netns"), owned("exec"), source.netns(self.name.as_str()), owned("ping"), owned("-c"), owned("1"), target_ip.dotted());
        let mut plan = CommandPlan::new();
        plan.push(ip_step(Stage::Workload, d, args, false));
        proof {
            assert(plan@ =~= seq![ping_step(self@, self@.pods[i as int], source_pod@, target_pod@, target_ip)]);
        }
        Ok(plan)
    }

    /// The plan that removes the facility: pods in reverse order, then nodes
    /// in reverse order, then the bridge; every step is best effort.
    pub fn cleanup_plan(&self) -> (r: CommandPlan)
        ensures
            r@ == cleanup_steps(self@),
    {
        let ghost t = self@;
        let mut plan = CommandPlan::new();
        let np = self.pods.len();
        let mut i: usize = np;
        proof { assert(t.pods.subrange(np as int, np as int) =~= Seq::<PodView>::empty()); }
        while i > 0
            invariant
                t == self@,
                np == t.pods.len(),
                i <= np,
                plan@ == pods_cleanup_reversed(t, t.pods.subrange(i as int, np as int)),
            decreases i,
        {
            self.pod_cleanup(&mut plan, &self.pods[i - 1]);
            proof {
                let s = t.pods.subrange(i - 1, np as int);
                assert(s.drop_first() =~= t.pods.subrange(i as int, np as int));
                assert(s.first() == t.pods[i - 1]);
            }
            i = i - 1;
        }
        proof { assert(t.pods.subrange(0, np as int) =~= t.pods); }
        let ghost after_pods = plan@;
        let nn = self.nodes.len();
        let mut k: usize = nn;
        proof { assert(t.nodes.subrange(nn as int, nn as int) =~= Seq::<NodeView>::empty()); }
        while k > 0
            invariant
                t == self@,
                nn == t.nodes.len(),
                k <= nn,
                plan@ == after_pods + nodes_cleanup_reversed(t, t.nodes.subrange(k as int, nn as int)),
            decreases k,
        {
            self.node_cleanup(&mut plan, &self.nodes[k - 1]);
            proof {
                let s = t.nodes.subrange(k - 1, nn as int);
                assert(s.drop_first() =~= t.nodes.subrange(k as int, nn as int));
                assert(s.first() == t.nodes[k - 1]);
                assert(plan@ =~= after_pods + nodes_cleanup_reversed(t, s));
            }
            k = k - 1;
        }
        proof { assert(t.nodes.subrange(0, nn as int) =~= t.nodes); }
        self.bridge_cleanup(&mut plan);
        proof { assert(plan@ =~= cleanup_steps(t)); }
        plan
    }

    pub fn bridge_cleanup_plan(&self) -> (r: CommandPlan)
        ensures
            r@ == seq![bridge_cleanup_step(self@)],
    {
        let mut plan = CommandPlan::new();
        self.bridge_cleanup(&mut plan);
        proof { assert(plan@ =~= seq![bridge_cleanup_step(self@)]); }
        plan
    }

    /// The plan that removes the node called `node_name`.
    pub fn node_cleanup_plan(&self, node_name: &str) -> (r: Result<CommandPlan, FacilityError>)
        ensures
            result_view(r) == (match node_position(self@.nodes, node_name@) {
                Some(i) => Ok(node_cleanup_steps(self@, self@.nodes[i])),
                None => Err(FacilityErrorView::UnknownNodeName { name: node_name@ }),
            }),
    {
        match self.node_index_of(node_name) {
            Some(i) => {
                let mut plan = CommandPlan::new();
                self.node_cleanup(&mut plan, &self.nodes[i]);
                proof { assert(plan@ =~= node_cleanup_steps(self@, self@.nodes[i as int])); }
                Ok(plan)
            },
            None => Err(FacilityError::UnknownNodeName { name: owned(node_name) }),
        }
    }

    /// The plan that removes the pod called `pod_name`.
    pub fn pod_cleanup_plan(&self, pod_name: &str) -> (r: Result<CommandPlan, FacilityError>)
        ensures
            result_view(r) == (match pod_position(self@.pods, pod_name@) {
                Some(i) => Ok(seq![pod_cleanup_step(self@, self@.pods[i])]),
                None => Err(FacilityErrorView::UnknownPod { name: pod_name@ }),
            }),
    {
        match self.pod_index_of(pod_name) {
            Some(i) => {
                let mut plan = CommandPlan::new();
                self.pod_cleanup(&mut plan, &self.pods[i]);
                proof { assert(plan@ =~= seq![pod_cleanup_step(self@, self@.pods[i as int])]); }
                Ok(plan)
            },
            None => Err(FacilityError::UnknownPod { name: owned(pod_name) }),
        }
    }
}

/// Once a pod with an empty workload is met, the workload plan stays refused.
proof fn lemma_workload_error_stays(t: TopologyView, pods: Seq<PodView>, k: int)
    requires
        0 <= k <= pods.len(),
        workload_result(t, pods.take(k)) is Err,
    ensures
        workload_result(t, pods) == workload_result(t, pods.take(k)),
    decreases pods.len() - k,
{
    if k < pods.len() {
        assert(pods.take(k + 1).drop_last() =~= pods.take(k));
        lemma_workload_error_stays(t, pods, k + 1);
    } else {
        assert(pods.take(k) =~= pods);
    }
}

/// Names in strictly increasing order.
#[verifier::opaque]
pub open spec fn sorted_names(s: Seq<Seq<char>>) -> bool {
    forall|i: int, j: int| 0 <= i < j < s.len() ==> name_less(#[trigger] s[i], #[trigger] s[j])
}

proof fn lemma_insert_sorted(s: Seq<Seq<char>>, p: int, x: Seq<char>)
    requires
        sorted_names(s),
        0 <= p <= s.len(),
        forall|q: int| 0 <= q < p ==> name_less(#[trigger] s[q], x),
        p < s.len() ==> name_less(x, s[p]),
    ensures
        sorted_names(s.insert(p, x)),
{
    reveal(sorted_names);
    let t = s.insert(p, x);
    assert forall|i: int, j: int| 0 <= i < j < t.len() implies name_less(#[trigger] t[i], #[trigger] t[j]) by {
        if j < p {
            assert(t[i] == s[i] && t[j] == s[j]);
        } else if j == p {
            assert(t[i] == s[i] && t[j] == x);
        } else if i < p {
            assert(t[i] == s[i] && t[j] == s[j - 1]);
            if j - 1 > p {
                lemma_name_less_transitive(x, s[p], s[j - 1]);
            }
            lemma_name_less_transitive(s[i], x, s[j - 1]);
        } else if i == p {
            assert(t[i] == x && t[j] == s[j - 1]);
            if j - 1 > p {
                lemma_name_less_transitive(x, s[p], s[j - 1]);
            }
        } else {
            assert(t[i] == s[i - 1] && t[j] == s[j - 1]);
        }
    }
}

/// A table of names and addresses taken by views.
pub open spec fn table_view(r: Seq<(String, Ipv4Addr)>) -> Seq<(Seq<char>, Ipv4Addr)> {
    r.map_values(|e: (String, Ipv4Addr)| (e.0@, e.1))
}

/// The names of a table.
pub open spec fn table_names(es: Seq<(Seq<char>, Ipv4Addr)>) -> Seq<Seq<char>> {
    es.map_values(|e: (Seq<char>, Ipv4Addr)| e.0)
}

/// Each entry is the name and address of one of the first `k` pods.
#[verifier::opaque]
pub open spec fn entries_from(es: Seq<(Seq<char>, Ipv4Addr)>, pods: Seq<PodView>, k: int) -> bool {
    forall|i: int| 0 <= i < es.len() ==> exists|j: int| 0 <= j < k && #[trigger] es[i] == (pods[j].name, pod_ip(pods[j]))
}

/// Each of the first `k` pods has an entry.
#[verifier::opaque]
pub open spec fn covers(es: Seq<(Seq<char>, Ipv4Addr)>, pods: Seq<PodView>, k: int) -> bool {
    forall|j: int| 0 <= j < k ==> exists|i: int| 0 <= i < es.len() && (#[trigger] es[i]).0 == (#[trigger] pods[j]).name
}

proof fn lemma_table_insert(es: Seq<(Seq<char>, Ipv4Addr)>, pods: Seq<PodView>, k: int, p: int)
    requires
        entries_from(es, pods, k),
        covers(es, pods, k),
        0 <= k < pods.len(),
        0 <= p <= es.len(),
    ensures
        entries_from(es.insert(p, (pods[k].name, pod_ip(pods[k]))), pods, k + 1),
        covers(es.insert(p, (pods[k].name, pod_ip(pods[k]))), pods, k + 1),
{
    reveal(entries_from);
    reveal(covers);
    let x = (pods[k].name, pod_ip(pods[k]));
    let t = es.insert(p, x);
    assert forall|i: int| 0 <= i < t.len() implies exists|j: int| 0 <= j < k + 1 && #[trigger] t[i] == (pods[j].name, pod_ip(pods[j])) by {
        if i == p {
            assert(t[i] == (pods[k].name, pod_ip(pods[k])));
        } else {
            let o = if i < p { i } else { i - 1 };
            assert(t[i] == es[o]);
            let j = choose|j: int| 0 <= j < k && #[trigger] es[o] == (pods[j].name, pod_ip(pods[j]));
            assert(t[i] == (pods[j].name, pod_ip(pods[j])));
        }
    }
    assert forall|j: int| 0 <= j < k + 1 implies exists|i: int| 0 <= i < t.len() && (#[trigger] t[i]).0 == (#[trigger] pods[j]).name by {
        if j == k {
            assert(t[p].0 == pods[j].name);
        } else {
            let o = choose|i: int| 0 <= i < es.len() && (#[trigger] es[i]).0 == (#[trigger] pods[j]).name;
            let i = if o < p { o } else { o + 1 };
            assert(t[i] == es[o]);
        }
    }
}

proof fn lemma_fresh_name(es: Seq<(Seq<char>, Ipv4Addr)>, pods: Seq<PodView>, k: int)
    requires
        entries_from(es, pods, k),
        0 <= k < pods.len(),
        forall|a: int, b: int| 0 <= a < b < pods.len() ==> (#[trigger] pods[a]).name != (#[trigger] pods[b]).name,
    ensures
        forall|i: int| 0 <= i < es.len() ==> (#[trigger] table_names(es)[i]) != pods[k].name,
{
    reveal(entries_from);
    assert forall|i: int| 0 <= i < es.len() implies (#[trigger] table_names(es)[i]) != pods[k].name by {
        let j = choose|j: int| 0 <= j < k && #[trigger] es[i] == (pods[j].name, pod_ip(pods[j]));
        assert(table_names(es)[i] == es[i].0);
    }
}

proof fn lemma_table_resolves(t: TopologyView, es: Seq<(Seq<char>, Ipv4Addr)>)
    requires
        entries_from(es, t.pods, t.pods.len() as int),
        forall|a: int, b: int| 0 <= a < b < t.pods.len() ==> (#[trigger] t.pods[a]).name != (#[trigger] t.pods[b]).name,
    ensures
        forall|i: int| 0 <= i < es.len() ==> (pod_position(t.pods, (#[trigger] es[i]).0) matches Some(q)
            && pod_ip(t.pods[q]) == es[i].1),
{
    reveal(entries_from);
    assert forall|i: int| 0 <= i < es.len() implies (pod_position(t.pods, (#[trigger] es[i]).0) matches Some(q)
        && pod_ip(t.pods[q]) == es[i].1) by {
        let j = choose|j: int| 0 <= j < t.pods.len() && #[trigger] es[i] == (t.pods[j].name, pod_ip(t.pods[j]));
        lemma_pod_position(t.pods, t.pods[j].name);
        if pod_position(t.pods, t.pods[j].name) != Some(j) {
            let q = pod_position(t.pods, t.pods[j].name)->0;
            assert(t.pods[q].name == t.pods[j].name);
        }
    }
}

/// The name of every pod paired with its address, ordered by name (the
/// order of a map from names to addresses).
pub fn resolver_table(topology: &Topology) -> (r: Vec<(String, Ipv4Addr)>)
    ensures
        r@.len() == topology@.pods.len(),
        sorted_names(table_names(table_view(r@))),
        forall|i: int| 0 <= i < r@.len() ==> topology.resolves_to(#[trigger] table_view(r@)[i].0, table_view(r@)[i].1),
        covers(table_view(r@), topology@.pods, topology@.pods.len() as int),
{
    proof { use_type_invariant(topology); }
    let ghost pv = topology@.pods;
    proof { assert(forall|a: int, b: int| 0 <= a < b < pv.len() ==> (#[trigger] pv[a]).name != (#[trigger] pv[b]).name); }
    let pods = topology.pods();
    let n = pods.len();
    let mut r: Vec<(String, Ipv4Addr)> = Vec::new();
    proof {
        assert(table_view(r@) =~= Seq::<(Seq<char>, Ipv4Addr)>::empty());
        assert(table_names(table_view(r@)) =~= Seq::<Seq<char>>::empty());
        reveal(sorted_names);
        reveal(entries_from);
        reveal(covers);
    }
    let mut k: usize = 0;
    while k < n
        invariant
            n == pv.len(),
            pv == topology@.pods,
            pods@.len() == n,
            forall|j: int| 0 <= j < n ==> (#[trigger] pods@[j])@ == pv[j],
            forall|a: int, b: int| 0 <= a < b < n ==> (#[trigger] pv[a]).name != (#[trigger] pv[b]).name,
            k <= n,
            r@.len() == k,
            sorted_names(table_names(table_view(r@))),
            entries_from(table_view(r@), pv, k as int),
            covers(table_view(r@), pv, k as int),
        decreases n - k,
    {
        let ghost es = table_view(r@);
        let ghost names = table_names(es);
        let name = owned(pods[k].name());
        let ip = topology.resolve(pods[k].name());
        proof {
            lemma_pod_position(pv, pv[k as int].name);
            if pod_position(pv, pv[k as int].name) != Some(k as int) {
                let q = pod_position(pv, pv[k as int].name)->0;
                assert(pv[q].name == pv[k as int].name);
            }
            lemma_fresh_name(es, pv, k as int);
        }
        let len = r.len();
        let mut p: usize = 0;
        while p < len
            invariant
                len == r@.len(),
                es == table_view(r@),
                names == table_names(es),
                p <= len,
                forall|q: int| 0 <= q < p ==> name_less(#[trigger] names[q], name@),
                forall|i: int| 0 <= i < names.len() ==> names[i] != name@,
            ensures
                p <= len,
                forall|q: int| 0 <= q < p ==> name_less(#[trigger] names[q], name@),
                p < len ==> name_less(name@, names[p as int]),
            decreases len - p,
        {
            proof { assert(names[p as int] == r@[p as int].0@); }
            if str_less(name.as_str(), r[p].0.as_str()) {
                break;
            }
            proof {
                assert(names[p as int] != name@);
                lemma_name_less_total(names[p as int], name@);
            }
            p = p + 1;
        }
        proof {
            lemma_insert_sorted(names, p as int, name@);
            lemma_table_insert(es, pv, k as int, p as int);
        }
        let ghost name_view = name@;
        let addr = ip.unwrap();
        r.insert(p, (name, addr));
        proof {
            assert(table_view(r@) =~= es.insert(p as int, (pv[k as int].name, pod_ip(pv[k as int]))));
            assert(table_names(table_view(r@)) =~= names.insert(p as int, name_view));
        }
        k = k + 1;
    }
    proof { lemma_table_resolves(topology@, table_view(r@)); }
    r
}

impl Topology {
    /// `resolve` gives `ip` for `name`.
    pub open spec fn resolves_to(&self, name: Seq<char>, ip: Ipv4Addr) -> bool {
        pod_position(self@.pods, name) matches Some(i) && pod_ip(self@.pods[i]) == ip
    }
}

} // verus!