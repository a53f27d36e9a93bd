//! What `status` reports: the networks, nodes and pods of each facility
//! that are present on the host, the overall state, and the report's text.

use vstd::prelude::*;
use crate::model::{cidr_text, node_netns, pod_ip, pod_netns, uplink_ip, NodeView, PodView, TopologyView};
use crate::text::{owned, push_char, str_equal};
use crate::topology::{netns_name, Topology};
use crate::ids::{item_id, item_id_spec};

verus! {

/// A bridge that is present, with its address.
pub struct NetworkRow {
    pub bridge: String,
    pub cidr: String,
}

/// A node whose namespace is present: its ID, network (bridge) and
/// address on the network.
pub struct NodeRow {
    pub id: String,
    pub network: String,
    pub internal_ip: String,
}

/// A pod whose namespace is present: its ID, network, node and address.
pub struct PodRow {
    pub id: String,
    pub network: String,
    pub node: String,
    pub ip: String,
}

pub struct NetworkRowView {
    pub bridge: Seq<char>,
    pub cidr: Seq<char>,
}

pub struct NodeRowView {
    pub id: Seq<char>,
    pub network: Seq<char>,
    pub internal_ip: Seq<char>,
}

pub struct PodRowView {
    pub id: Seq<char>,
    pub network: Seq<char>,
    pub node: Seq<char>,
    pub ip: Seq<char>,
}

impl View for NetworkRow {
    type V = NetworkRowView;

    open spec fn view(&self) -> NetworkRowView {
        NetworkRowView { bridge: self.bridge@, cidr: self.cidr@ }
    }
}

impl View for NodeRow {
    type V = NodeRowView;

    open spec fn view(&self) -> NodeRowView {
        NodeRowView { id: self.id@, network: self.network@, internal_ip: self.internal_ip@ }
    }
}

impl View for PodRow {
    type V = PodRowView;

    open spec fn view(&self) -> PodRowView {
        PodRowView { id: self.id@, network: self.network@, node: self.node@, ip: self.ip@ }
    }
}

/// `name` is one of `list`.
pub fn is_listed(list: &Vec<String>, name: &str) -> (r: bool)
    ensures
        r == list.deep_view().contains(name@),
{
    let n = list.len();
    let mut i: usize = 0;
    while i < n
        invariant
            n == list@.len(),
            i <= n,
            forall|j: int| 0 <= j < i ==> list.deep_view()[j] != name@,
        decreases n - i,
    {
        proof { assert(list.deep_view()[i as int] == list@[i as int]@); }
        if str_equal(list[i].as_str(), name) {
            return true;
        }
        i = i + 1;
    }
    false
}

/// The row of a present bridge: its reported address, else the address the
/// topology gives it.
pub open spec fn network_row_spec(t: TopologyView, reported: Option<Seq<char>>) -> NetworkRowView {
    NetworkRowView {
        bridge: t.bridge_name,
        cidr: match reported {
            Some(c) => c,
            None => cidr_text(t.bridge_addr, "24"@),
        },
    }
}

pub fn network_row(topology: &Topology, reported: Option<String>) -> (r: NetworkRow)
    ensures
        r@ == network_row_spec(topology@, match reported { Some(c) => Some(c@), None => None }),
{
    let cidr = match reported {
        Some(c) => c,
        None => topology.bridge_cidr(),
    };
    NetworkRow { bridge: owned(topology.bridge_name()), cidr }
}

/// The row of a node.
pub open spec fn node_row_spec(t: TopologyView, n: NodeView) -> NodeRowView {
    NodeRowView {
        id: item_id_spec("node"@, t.name, n.name),
        network: t.bridge_name,
        internal_ip: cidr_text(uplink_ip(t, n), "24"@),
    }
}

/// The rows of the nodes whose namespace is listed, in order.
pub open spec fn node_rows_spec(t: TopologyView, nodes: Seq<NodeView>, netns: Seq<Seq<char>>) -> Seq<NodeRowView>
    decreases nodes.len(),
{
    if nodes.len() == 0 {
        Seq::empty()
    } else {
        let before = node_rows_spec(t, nodes.drop_last(), netns);
        if netns.contains(node_netns(t.name, nodes.last().name)) {
            before.push(node_row_spec(t, nodes.last()))
        } else {
            before
        }
    }
}

/// The row of a pod.
pub open spec fn pod_row_spec(t: TopologyView, p: PodView) -> PodRowView {
    PodRowView {
        id: item_id_spec("pod"@, t.name, p.name),
        network: t.bridge_name,
        node: p.node,
        ip: cidr_text(pod_ip(p), "30"@),
    }
}

/// The rows of the pods whose namespace is listed, in order.
pub open spec fn pod_rows_spec(t: TopologyView, pods: Seq<PodView>, netns: Seq<Seq<char>>) -> Seq<PodRowView>
    decreases pods.len(),
{
    if pods.len() == 0 {
        Seq::empty()
    } else {
        let before = pod_rows_spec(t, pods.drop_last(), netns);
        if netns.contains(pod_netns(t.name, pods.last().name)) {
            before.push(pod_row_spec(t, pods.last()))
        } else {
            before
        }
    }
}

/// The rows of a facility's nodes whose namespace is in `netns`.
pub fn node_rows(topology: &Topology, netns: &Vec<String>) -> (r: Vec<NodeRow>)
    ensures
        r@.map_values(|x: NodeRow| x@) == node_rows_spec(topology@, topology@.nodes, netns.deep_view()),
{
    let nodes = topology.nodes();
    let n = nodes.len();
    let mut rows: Vec<NodeRow> = Vec::new();
    let mut i: usize = 0;
    while i < n
        invariant
            n == topology@.nodes.len(),
            nodes@.len() == n,
            forall|j: int| 0 <= j < n ==> (#[trigger] nodes@[j])@ == topology@.nodes[j],
            i <= n,
            rows@.map_values(|x: NodeRow| x@) == node_rows_spec(topology@, topology@.nodes.take(i as int), netns.deep_view()),
        decreases n - i,
    {
        let node = &nodes[i];
        let ghost prev = topology@.nodes.take(i as int);
        let ghost next = topology@.nodes.take(i + 1);
        proof {
            assert(next.drop_last() =~= prev);
            assert(next.last() == node@);
        }
        let ns = netns_name(topology.name(), "-node-", node.name());
        if is_listed(netns, ns.as_str()) {
            let ghost before = rows@.map_values(|x: NodeRow| x@);
            let row = NodeRow {
                id: item_id("node", topology.name(), node.name()),
                network: owned(topology.bridge_name()),
                internal_ip: topology.node_uplink_cidr(node),
            };
            proof { assert(row@ == node_row_spec(topology@, node@)); }
            rows.push(row);
            proof { assert(rows@.map_values(|x: NodeRow| x@) =~= before.push(node_row_spec(topology@, node@))); }
        }
        i = i + 1;
    }
    proof { assert(topology@.nodes.take(n as int) =~= topology@.nodes); }
    rows
}

/// The rows of a facility's pods whose namespace is in `netns`.
pub fn pod_rows(topology: &Topology, netns: &Vec<String>) -> (r: Vec<PodRow>)
    ensures
        r@.map_values(|x: PodRow| x@) == pod_rows_spec(topology@, topology@.pods, netns.deep_view()),
{
    let pods = topology.pods();
    let n = pods.len();
    let mut rows: Vec<PodRow> = Vec::new();
    let mut i: usize = 0;
    while i < n
        invariant
            n == topology@.pods.len(),
            pods@.len() == n,
            forall|j: int| 0 <= j < n ==> (#[trigger] pods@[j])@ == topology@.pods[j],
            i <= n,
            rows@.map_values(|x: PodRow| x@) == pod_rows_spec(topology@, topology@.pods.take(i as int), netns.deep_view()),
        decreases n - i,
    {
        let pod = &pods[i];
        let ghost prev = topology@.pods.take(i as int);
        let ghost next = topology@.pods.take(i + 1);
        proof {
            assert(next.drop_last() =~= prev);
            assert(next.last() == pod@);
        }
        let ns = netns_name(topology.name(), "-pod-", pod.name());
        if is_listed(netns, ns.as_str()) {
            let ghost before = rows@.map_values(|x: PodRow| x@);
            let row = PodRow {
                id: item_id("pod", topology.name(), pod.name()),
                network: owned(topology.bridge_name()),
                node: owned(pod.node()),
                ip: topology.pod_cidr(pod),
            };
            proof { assert(row@ == pod_row_spec(topology@, pod@)); }
            rows.push(row);
            proof { assert(rows@.map_values(|x: PodRow| x@) =~= before.push(pod_row_spec(topology@, pod@))); }
        }
        i = i + 1;
    }
    proof { assert(topology@.pods.take(n as int) =~= topology@.pods); }
    rows
}

/// `down` when nothing is present, `running` when networks, nodes and pods
/// all are, `partial` otherwise.
pub open spec fn status_word_spec(networks: nat, nodes: nat, pods: nat) -> Seq<char> {
    if networks == 0 && nodes == 0 && pods == 0 {
        "down"@
    } else if networks > 0 && nodes > 0 && pods > 0 {
        "running"@
    } else {
        "partial"@
    }
}

pub fn status_word(networks: usize, nodes: usize, pods: usize) -> (r: &'static str)
    ensures
        r@ == status_word_spec(networks as nat, nodes as nat, pods as nat),
{
    if networks == 0 && nodes == 0 && pods == 0 {
        "down"
    } else if networks > 0 && nodes > 0 && pods > 0 {
        "running"
    } else {
        "partial"
    }
}

/// `s` left-aligned in a column of `width` characters (`{:<width}`).
pub open spec fn pad(s: Seq<char>, width: nat) -> Seq<char> {
    if s.len() >= width {
        s
    } else {
        s + Seq::new((width - s.len()) as nat, |i: int| ' ')
    }
}

fn push_padded(r: &mut String, s: &str, width: usize)
    ensures
        final(r)@ == old(r)@ + pad(s@, width as nat),
{
    let ghost start = r@;
    r.append(s);
    let n = s.unicode_len();
    let mut k: usize = n;
    while k < width
        invariant
            n == s@.len(),
            k == n || (n < k && k <= width),
            r@ == start + s@ + Seq::new((k - n) as nat, |i: int| ' '),
        decreases width - k,
    {
        let ghost before = r@;
        push_char(r, ' ');
        proof {
            assert(Seq::new((k - n) as nat, |i: int| ' ').push(' ') =~= Seq::new((k + 1 - n) as nat, |i: int| ' '));
            assert(r@ =~= start + s@ + Seq::new((k + 1 - n) as nat, |i: int| ' '));
        }
        k = k + 1;
    }
    proof {
        if n >= width {
            assert(k == n);
            assert(Seq::new((k - n) as nat, |i: int| ' ') =~= Seq::<char>::empty());
            assert(r@ =~= start + s@);
        } else {
            assert(k == width);
            assert(r@ =~= start + pad(s@, width as nat));
        }
    }
}

/// `NAME  BRIDGE-IP  STATUS`
pub open spec fn network_header() -> Seq<char> {
    pad("NAME"@, 14) + "  "@ + pad("BRIDGE-IP"@, 18) + "  STATUS\n"@
}

/// `ID  NETWORK  INTERNAL-IP  STATUS`
pub open spec fn node_header() -> Seq<char> {
    pad("ID"@, 24) + "  "@ + pad("NETWORK"@, 14) + "  "@ + pad("INTERNAL-IP"@, 18) + "  STATUS\n"@
}

/// `ID  NETWORK  NODE  IP  STATUS`
pub open spec fn pod_header() -> Seq<char> {
    pad("ID"@, 24) + "  "@ + pad("NETWORK"@, 14) + "  "@ + pad("NODE"@, 14) + "  "@ + pad("IP"@, 18) + "  STATUS\n"@
}

pub open spec fn network_line(r: NetworkRowView) -> Seq<char> {
    pad(r.bridge, 14) + "  "@ + pad(r.cidr, 18) + "  present\n"@
}

pub open spec fn node_row_line(r: NodeRowView) -> Seq<char> {
    pad(r.id, 24) + "  "@ + pad(r.network, 14) + "  "@ + pad(r.internal_ip, 18) + "  present\n"@
}

pub open spec fn pod_row_line(r: PodRowView) -> Seq<char> {
    pad(r.id, 24) + "  "@ + pad(r.network, 14) + "  "@ + pad(r.node, 14) + "  "@ + pad(r.ip, 18) + "  present\n"@
}

pub open spec fn network_lines(rows: Seq<NetworkRowView>) -> Seq<char>
    decreases rows.len(),
{
    if rows.len() == 0 {
        Seq::empty()
    } else {
        network_lines(rows.drop_last()) + network_line(rows.last())
    }
}

pub open spec fn node_lines(rows: Seq<NodeRowView>) -> Seq<char>
    decreases rows.len(),
{
    if rows.len() == 0 {
        Seq::empty()
    } else {
        node_lines(rows.drop_last()) + node_row_line(rows.last())
    }
}

pub open spec fn pod_lines(rows: Seq<PodRowView>) -> Seq<char>
    decreases rows.len(),
{
    if rows.len() == 0 {
        Seq::empty()
    } else {
        pod_lines(rows.drop_last()) + pod_row_line(rows.last())
    }
}

/// The text of the status report: the state (with a hint when it is
/// `down`), then the networks, nodes and pods, each section a header row
/// and one row per item, or a line saying there are none.
pub open spec fn status_text(networks: Seq<NetworkRowView>, nodes: Seq<NodeRowView>, pods: Seq<PodRowView>) -> Seq<char> {
    let word = status_word_spec(networks.len(), nodes.len(), pods.len());
    "STATE: "@ + word + "\n"@
        + (if word == "down"@ { "hint: run `cargo run -- up` to create this topology\n"@ } else { Seq::empty() })
        + "\n"@
        + "NETWORKS\n"@
        + (if networks.len() == 0 { "No networks found.\n"@ } else { network_header() + network_lines(networks) })
        + "\n"@
        + "NODES\n"@
        + (if nodes.len() == 0 { "No nodes found.\n"@ } else { node_header() + node_lines(nodes) })
        + "\n"@
        + "PODS\n"@
        + (if pods.len() == 0 { "No pods found.\n"@ } else { pod_header() + pod_lines(pods) })
}

fn push_network_line(r: &mut String, row: &NetworkRow)
    ensures
        final(r)@ == old(r)@ + network_line(row@),
{
    push_padded(r, row.bridge.as_str(), 14);
    r.append("  ");
    push_padded(r, row.cidr.as_str(), 18);
    r.append("  present\n");
    proof { assert(r@ =~= old(r)@ + network_line(row@)); }
}

fn push_node_line(r: &mut String, row: &NodeRow)
    ensures
        final(r)@ == old(r)@ + node_row_line(row@),
{
    push_padded(r, row.id.as_str(), 24);
    r.append("  ");
    push_padded(r, row.network.as_str(), 14);
    r.append("  ");
    push_padded(r, row.internal_ip.as_str(), 18);
    r.append("  present\n");
    proof { assert(r@ =~= old(r)@ + node_row_line(row@)); }
}

fn push_pod_line(r: &mut String, row: &PodRow)
    ensures
        final(r)@ == old(r)@ + pod_row_line(row@),
{
    push_padded(r, row.id.as_str(), 24);
    r.append("  ");
    push_padded(r, row.network.as_str(), 14);
    r.append("  ");
    push_padded(r, row.node.as_str(), 14);
    r.append("  ");
    push_padded(r, row.ip.as_str(), 18);
    r.append("  present\n");
    proof { assert(r@ =~= old(r)@ + pod_row_line(row@)); }
}

fn push_network_section(r: &mut String, rows: &Vec<NetworkRow>)
    ensures
        final(r)@ == old(r)@ + (if rows@.len() == 0 { "No networks found.\n"@ } else {
            network_header() + network_lines(rows@.map_values(|x: NetworkRow| x@))
        }),
{
    let ghost start = r@;
    let ghost views = rows@.map_values(|x: NetworkRow| x@);
    if rows.len() == 0 {
        r.append("No networks found.\n");
        return;
    }
    push_padded(r, "NAME", 14);
    r.append("  ");
    push_padded(r, "BRIDGE-IP", 18);
    r.append("  STATUS\n");
    proof { assert(r@ =~= start + network_header() + network_lines(views.take(0))); }
    let n = rows.len();
    let mut i: usize = 0;
    while i < n
        invariant
            n == rows@.len(),
            views == rows@.map_values(|x: NetworkRow| x@),
            i <= n,
            r@ == start + network_header() + network_lines(views.take(i as int)),
        decreases n - i,
    {
        push_network_line(r, &rows[i]);
        proof {
            assert(views.take(i + 1).drop_last() =~= views.take(i as int));
            assert(views.take(i + 1).last() == rows@[i as int]@);
            assert(r@ =~= start + network_header() + network_lines(views.take(i + 1)));
        }
        i = i + 1;
    }
    proof { assert(views.take(n as int) =~= views); }
}

fn push_node_section(r: &mut String, rows: &Vec<NodeRow>)
    ensures
        final(r)@ == old(r)@ + (if rows@.len() == 0 { "No nodes found.\n"@ } else {
            node_header() + node_lines(rows@.map_values(|x: NodeRow| x@))
        }),
{
    let ghost start = r@;
    let ghost views = rows@.map_values(|x: NodeRow| x@);
    if rows.len() == 0 {
        r.append("No nodes found.\n");
        return;
    }
    push_padded(r, "ID", 24);
    r.append("  ");
    push_padded(r, "NETWORK", 14);
    r.append("  ");
    push_padded(r, "INTERNAL-IP", 18);
    r.append("  STATUS\n");
    proof { assert(r@ =~= start + node_header() + node_lines(views.take(0))); }
    let n = rows.len();
    let mut i: usize = 0;
    while i < n
        invariant
            n == rows@.len(),
            views == rows@.map_values(|x: NodeRow| x@),
            i <= n,
            r@ == start + node_header() + node_lines(views.take(i as int)),
        decreases n - i,
    {
        push_node_line(r, &rows[i]);
        proof {
            assert(views.take(i + 1).drop_last() =~= views.take(i as int));
            assert(views.take(i + 1).last() == rows@[i as int]@);
            assert(r@ =~= start + node_header() + node_lines(views.take(i + 1)));
        }
        i = i + 1;
    }
    proof { assert(views.take(n as int) =~= views); }
}

fn push_pod_section(r: &mut String, rows: &Vec<PodRow>)
    ensures
        final(r)@ == old(r)@ + (if rows@.len() == 0 { "No pods found.\n"@ } else {
            pod_header() + pod_lines(rows@.map_values(|x: PodRow| x@))
        }),
{
    let ghost start = r@;
    let ghost views = rows@.map_values(|x: PodRow| x@);
    if rows.len() == 0 {
        r.append("No pods found.\n");
        return;
    }
    push_padded(r, "ID", 24);
    r.append("  ");
    push_padded(r, "NETWORK", 14);
    r.append("  ");
    push_padded(r, "NODE", 14);
    r.append("  ");
    push_padded(r, "IP", 18);
    r.append("  STATUS\n");
    proof { assert(r@ =~= start + pod_header() + pod_lines(views.take(0))); }
    let n = rows.len();
    let mut i: usize = 0;
    while i < n
        invariant
            n == rows@.len(),
            views == rows@.map_values(|x: PodRow| x@),
            i <= n,
            r@ == start + pod_header() + pod_lines(views.take(i as int)),
        decreases n - i,
    {
        push_pod_line(r, &rows[i]);
        proof {
            assert(views.take(i + 1).drop_last() =~= views.take(i as int));
            assert(views.take(i + 1).last() == rows@[i as int]@);
            assert(r@ =~= start + pod_header() + pod_lines(views.take(i + 1)));
        }
        i = i + 1;
    }
    proof { assert(views.take(n as int) =~= views); }
}

/// The text of the status report for these rows.
pub fn render_status(networks: &Vec<NetworkRow>, nodes: &Vec<NodeRow>, pods: &Vec<PodRow>) -> (r: String)
    ensures
        r@ == status_text(
            networks@.map_values(|x: NetworkRow| x@),
            nodes@.map_values(|x: NodeRow| x@),
            pods@.map_values(|x: PodRow| x@),
        ),
{
    let word = status_word(networks.len(), nodes.len(), pods.len());
    let mut r = owned("STATE: ");
    r.append(word);
    r.append("\n");
    if str_equal(word, "down") {
        r.append("hint: run `cargo run -- up` to create this topology\n");
    }
    let ghost head = r@;
    r.append("\n");
    r.append("NETWORKS\n");
    push_network_section(&mut r, networks);
    r.append("\n");
    r.append("NODES\n");
    push_node_section(&mut r, nodes);
    r.append("\n");
    r.append("PODS\n");
    push_pod_section(&mut r, pods);
    proof {
        let nv = networks@.map_values(|x: NetworkRow| x@);
        let dv = nodes@.map_values(|x: NodeRow| x@);
        let pv = pods@.map_values(|x: PodRow| x@);
        assert(nv.len() == networks@.len());
        assert(dv.len() == nodes@.len());
        assert(pv.len() == pods@.len());
        assert(r@ =~= status_text(nv, dv, pv));
    }
    r
}

} // verus!
