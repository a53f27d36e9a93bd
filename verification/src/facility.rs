//! The facility a saved state describes: its bridge address and the
//! topology built from its nodes and pods.

use vstd::prelude::*;
use crate::cli::{ContextView, FacilityContext, FacilityState, NodeStateView, PodStateView, StateView};
use crate::error::{result_view, FacilityError};
use crate::model::{build_result, BuilderView, PendingNodeView, PendingPodView};
use crate::net::Ipv4Addr;
use crate::parse::{all_digits, digits_value, is_digit, lemma_digits_value_grows, parse_u32_digits};
use crate::text::{owned, str_equal};
use vstd::utf8::encode_utf8;
use crate::topology::{words2, words4, Topology};

verus! {

/// The digits at the end of `s`, as many as there are.
pub open spec fn trailing_digits(s: Seq<char>) -> Seq<char>
    decreases s.len(),
{
    if s.len() == 0 || !is_digit(s.last()) {
        Seq::empty()
    } else {
        trailing_digits(s.drop_last()).push(s.last())
    }
}

/// The number that `s` ends with, when it ends with digits whose value
/// fits in a `u32`.
pub open spec fn trailing_number_spec(s: Seq<char>) -> Option<u32> {
    parse_u32_digits(trailing_digits(s))
}

proof fn lemma_trailing_digits(s: Seq<char>, k: int)
    requires
        0 <= k <= s.len(),
        forall|j: int| k <= j < s.len() ==> is_digit(#[trigger] s[j]),
        k == 0 || !is_digit(s[k - 1]),
    ensures
        trailing_digits(s) == s.skip(k),
    decreases s.len(),
{
    if k == s.len() {
        assert(s.skip(k) =~= Seq::<char>::empty());
    } else {
        lemma_trailing_digits(s.drop_last(), k);
        assert(s.drop_last().skip(k).push(s.last()) =~= s.skip(k));
    }
}

/// The number at the end of `value`, if it ends with digits that fit in a
/// `u32`.
pub fn trailing_number(value: &str) -> (r: Option<u32>)
    ensures
        r == trailing_number_spec(value@),
{
    let n = value.unicode_len();
    let mut k: usize = n;
    while k > 0
        invariant
            n == value@.len(),
            k <= n,
            forall|j: int| k <= j < n ==> is_digit(#[trigger] value@[j]),
        ensures
            k <= n,
            forall|j: int| k <= j < n ==> is_digit(#[trigger] value@[j]),
            k == 0 || !is_digit(value@[k - 1]),
        decreases k,
    {
        let c = value.get_char(k - 1);
        if !('0' <= c && c <= '9') {
            break;
        }
        k = k - 1;
    }
    let ghost digits = value@.skip(k as int);
    proof { lemma_trailing_digits(value@, k as int); }
    if k == n {
        return None;
    }
    let mut acc: u32 = 0;
    let mut i: usize = k;
    while i < n
        invariant
            n == value@.len(),
            k < n,
            k <= i <= n,
            digits == value@.skip(k as int),
            trailing_digits(value@) == digits,
            all_digits(digits),
            acc as nat == digits_value(digits.take(i - k)),
        decreases n - i,
    {
        let c = value.get_char(i);
        let ghost prefix = digits.take(i - k);
        let ghost next = digits.take(i - k + 1);
        proof {
            assert(next.drop_last() =~= prefix);
            assert(next.last() == c);
            assert(digits[i - k] == value@[i as int]);
        }
        let d = (c as u32) - 48;
        proof { assert(digits_value(next) == acc * 10 + d); }
        match acc.checked_mul(10) {
            None => {
                proof { lemma_digits_value_grows(digits, i - k + 1); }
                return None;
            },
            Some(tens) => match tens.checked_add(d) {
                None => {
                    proof { lemma_digits_value_grows(digits, i - k + 1); }
                    return None;
                },
                Some(v) => {
                    acc = v;
                },
            },
        }
        i = i + 1;
    }
    proof { assert(digits.take(n - k) =~= digits); }
    Some(acc)
}

/// The hash of a bridge name's UTF-8 bytes: from 0, each byte is added
/// to 31 times the hash so far, modulo 2^32.
pub open spec fn name_hash(bytes: Seq<u8>) -> u32
    decreases bytes.len(),
{
    if bytes.len() == 0 {
        0
    } else {
        name_hash(bytes.drop_last()).wrapping_mul(31).wrapping_add(bytes.last() as u32)
    }
}

/// The third octet of a bridge's `10.200.x.1` address: 0 for `vf-br0`;
/// else the number the name ends with, modulo 240, with 0 taken as 1;
/// else the name's hash modulo 240, plus 1.
pub open spec fn bridge_octet_spec(bridge: Seq<char>) -> u8 {
    if bridge == "vf-br0"@ {
        0
    } else {
        match trailing_number_spec(bridge) {
            Some(v) => if v % 240 == 0 { 1 } else { (v % 240) as u8 },
            None => (name_hash(encode_utf8(bridge)) % 240 + 1) as u8,
        }
    }
}

/// The third octet of the address of bridge `bridge`.
pub fn bridge_network_octet(bridge: &str) -> (r: u8)
    ensures
        r == bridge_octet_spec(bridge@),
{
    if str_equal(bridge, "vf-br0") {
        proof { reveal_strlit("vf-br0"); }
        return 0;
    }
    proof { reveal_strlit("vf-br0"); }
    match trailing_number(bridge) {
        Some(value) => {
            let slot = value % 240;
            return if slot == 0 { 1 } else { slot as u8 };
        },
        None => {},
    }
    (text_hash(bridge) % 240 + 1) as u8
}

/// The hash of the UTF-8 bytes of `text`.
pub fn text_hash(text: &str) -> (r: u32)
    ensures
        r == name_hash(encode_utf8(text@)),
{
    let bytes = text.as_bytes();
    let n = bytes.len();
    let mut hash: u32 = 0;
    let mut i: usize = 0;
    while i < n
        invariant
            n == bytes@.len(),
            bytes@ == encode_utf8(text@),
            i <= n,
            hash == name_hash(bytes@.take(i as int)),
        decreases n - i,
    {
        proof { assert(bytes@.take(i + 1).drop_last() =~= bytes@.take(i as int)); }
        hash = hash.wrapping_mul(31).wrapping_add(bytes[i] as u32);
        i = i + 1;
    }
    proof { assert(bytes@.take(n as int) =~= bytes@); }
    hash
}

/// The address of bridge `bridge`: `10.200.x.1` with `x` its octet.
pub fn bridge_addr_for_name(bridge: &str) -> (r: Ipv4Addr)
    ensures
        r == Ipv4Addr(10, 200, bridge_octet_spec(bridge@), 1),
{
    Ipv4Addr::new(10, 200, bridge_network_octet(bridge), 1)
}

/// The workload of a default pod.
pub open spec fn default_workload(name: Seq<char>) -> Seq<Seq<char>> {
    if name == "proxy"@ {
        seq!["proxy"@, "run"@]
    } else if name == "server"@ {
        seq!["python3"@, "-m"@, "http.server"@, "8080"@]
    } else {
        seq!["curl"@, "http://10.244.2.2:8080"@]
    }
}

/// The pods `proxy`, `server` and `client` on `default-node`, at the given
/// slots when there are slots.
pub open spec fn default_pods(with_slots: bool) -> Seq<PendingPodView> {
    seq![
        PendingPodView { name: "proxy"@, node: "default-node"@, index: if with_slots { Some(0usize) } else { None }, workload: Some(default_workload("proxy"@)) },
        PendingPodView { name: "server"@, node: "default-node"@, index: if with_slots { Some(1usize) } else { None }, workload: Some(default_workload("server"@)) },
        PendingPodView { name: "client"@, node: "default-node"@, index: if with_slots { Some(2usize) } else { None }, workload: Some(default_workload("client"@)) },
    ]
}

/// The saved nodes, each at its slot.
pub open spec fn saved_nodes(nodes: Seq<NodeStateView>) -> Seq<PendingNodeView> {
    nodes.map_values(|n: NodeStateView| PendingNodeView { name: n.name, index: Some(n.slot) })
}

/// The saved pods, each at its slot and without a workload.
pub open spec fn saved_pods(pods: Seq<PodStateView>) -> Seq<PendingPodView> {
    pods.map_values(|p: PodStateView| PendingPodView { name: p.name, node: p.node, index: Some(p.slot), workload: None })
}

/// Some saved node is `default-node`.
pub open spec fn has_default_node(nodes: Seq<NodeStateView>) -> bool {
    exists|i: int| 0 <= i < nodes.len() && (#[trigger] nodes[i]).name == "default-node"@
}

/// The builder for a saved facility. With no saved nodes it is the smoke
/// layout (`default-node` and its three pods). Otherwise the saved nodes at
/// their slots, and the three default pods at slots 0, 1 and 2 when one of
/// the nodes is `default-node`. The saved pods come last, at their slots.
pub open spec fn state_builder(c: ContextView, s: StateView) -> BuilderView {
    BuilderView {
        name: c.name,
        bridge_name: c.bridge,
        bridge_addr: Ipv4Addr(10, 200, bridge_octet_spec(c.bridge), 1),
        nodes: if s.nodes.len() == 0 {
            seq![PendingNodeView { name: "default-node"@, index: None }]
        } else {
            saved_nodes(s.nodes)
        },
        pods: if s.nodes.len() == 0 {
            default_pods(false) + saved_pods(s.pods)
        } else if has_default_node(s.nodes) {
            default_pods(true) + saved_pods(s.pods)
        } else {
            saved_pods(s.pods)
        },
    }
}

fn workload_of(name: &str) -> (r: Vec<String>)
    requires
        name@ == "proxy"@ || name@ == "server"@ || name@ == "client"@,
    ensures
        r.deep_view() == default_workload(name@),
{
    if str_equal(name, "proxy") {
        words2(owned("proxy"), owned("run"))
    } else if str_equal(name, "server") {
        words4(owned("python3"), owned("-m"), owned("http.server"), owned("8080"))
    } else {
        proof {
            reveal_strlit("proxy");
            reveal_strlit("server");
            reveal_strlit("client");
        }
        words2(owned("curl"), owned("http://10.244.2.2:8080"))
    }
}

/// The topology of a saved facility: `build` of its builder.
pub fn topology_for_state(context: &FacilityContext, state: &FacilityState) -> (r: Result<Topology, FacilityError>)
    ensures
        result_view(r) == build_result(state_builder(context@, state@)),
{
    let ghost target = state_builder(context@, state@);
    let mut builder = Topology::builder(context.name.clone())
        .bridge_name(context.bridge.clone())
        .bridge_addr(bridge_addr_for_name(context.bridge.as_str()));
    proof { reveal_strlit("proxy"); reveal_strlit("server"); reveal_strlit("client"); }
    let ghost pods_before: Seq<PendingPodView>;
    if state.nodes.len() == 0 {
        builder = builder
            .add_node(owned("default-node"))
            .add_workload_pod(owned("proxy"), owned("default-node"), workload_of("proxy"))
            .add_workload_pod(owned("server"), owned("default-node"), workload_of("server"))
            .add_workload_pod(owned("client"), owned("default-node"), workload_of("client"));
        proof {
            pods_before = default_pods(false);
            assert(builder@.nodes =~= target.nodes);
            assert(builder@.pods =~= pods_before);
        }
    } else {
        let n = state.nodes.len();
        let mut i: usize = 0;
        let mut has_default = false;
        while i < n
            invariant
                n == state@.nodes.len(),
                i <= n,
                builder@.name == target.name,
                builder@.bridge_name == target.bridge_name,
                builder@.bridge_addr == target.bridge_addr,
                builder@.nodes == saved_nodes(state@.nodes.take(i as int)),
                builder@.pods == Seq::<PendingPodView>::empty(),
                has_default <==> has_default_node(state@.nodes.take(i as int)),
            decreases n - i,
        {
            let node = &state.nodes[i];
            let ghost prev = state@.nodes.take(i as int);
            let ghost next = state@.nodes.take(i + 1);
            builder = builder.add_node_with_index(node.name.clone(), node.slot);
            if str_equal(node.name.as_str(), "default-node") {
                has_default = true;
            }
            proof {
                assert(next =~= prev.push(state@.nodes[i as int]));
                assert(saved_nodes(next) =~= saved_nodes(prev).push(PendingNodeView { name: node.name@, index: Some(node.slot) }));
                if has_default_node(next) {
                    let j = choose|j: int| 0 <= j < next.len() && (#[trigger] next[j]).name == "default-node"@;
                    if j < i {
                        assert(prev[j] == next[j]);
                    }
                }
                if has_default_node(prev) {
                    let j = choose|j: int| 0 <= j < prev.len() && (#[trigger] prev[j]).name == "default-node"@;
                    assert(next[j] == prev[j]);
                }
                if node.name@ == "default-node"@ {
                    assert(next[i as int].name == "default-node"@);
                }
            }
            i = i + 1;
        }
        proof { assert(state@.nodes.take(n as int) =~= state@.nodes); }
        if has_default {
            builder = builder
                .add_workload_pod_with_index(owned("proxy"), owned("default-node"), 0, workload_of("proxy"))
                .add_workload_pod_with_index(owned("server"), owned("default-node"), 1, workload_of("server"))
                .add_workload_pod_with_index(owned("client"), owned("default-node"), 2, workload_of("client"));
            proof {
                pods_before = default_pods(true);
                assert(builder@.pods =~= pods_before);
            }
        } else {
            proof { pods_before = Seq::empty(); }
        }
    }
    let m = state.pods.len();
    let mut k: usize = 0;
    while k < m
        invariant
            m == state@.pods.len(),
            k <= m,
            builder@.name == target.name,
            builder@.bridge_name == target.bridge_name,
            builder@.bridge_addr == target.bridge_addr,
            builder@.nodes == target.nodes,
            builder@.pods == pods_before + saved_pods(state@.pods.take(k as int)),
            target.pods == pods_before + saved_pods(state@.pods),
        decreases m - k,
    {
        let pod = &state.pods[k];
        let ghost prev = state@.pods.take(k as int);
        let ghost next = state@.pods.take(k + 1);
        builder = builder.add_pod_with_index(pod.name.clone(), pod.node.clone(), pod.slot);
        proof {
            assert(next =~= prev.push(state@.pods[k as int]));
            assert(saved_pods(next) =~= saved_pods(prev).push(PendingPodView { name: pod.name@, node: pod.node@, index: Some(pod.slot), workload: None }));
            assert(builder@.pods =~= pods_before + saved_pods(next));
        }
        k = k + 1;
    }
    proof {
        assert(state@.pods.take(m as int) =~= state@.pods);
        assert(builder@ == target);
    }
    builder.build()
}

} // verus!
