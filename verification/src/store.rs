//! The state file: one `facility=`, `node=` or `pod=` line per item, read
//! back into the saved states.

use vstd::prelude::*;
use crate::cli::{
    context_from_lines, context_text, default_bridge_for_name, default_bridge_spec, default_context,
    default_context_view, empty_state, empty_state_view, lemma_matching_position,
    lemma_state_position, matching_position, select_spec, state_index, state_position, states_view,
    upsert_spec, upsert_state, ContextView, FacilityContext, FacilityState, NodeState,
    NodeStateView, PodState, PodStateView, StateView,
};
use crate::parse::{
    all_digits, digits_value, first_index_of, is_digit, lemma_first_index_of, strip_cr, lines_of,
    parse_usize, parse_usize_spec, split_at_char, split_once_at, split_once_spec, split_pieces,
    text_lines,
};
use crate::text::{decimal, digit_char, push_decimal, str_equal};

verus! {

/// Where reading the state file stands: the states read so far, and what
/// the older one-facility format has given (its context, nodes and pods,
/// and whether a `name=` or `bridge=` line was seen).
pub struct LoadView {
    pub states: Seq<StateView>,
    pub legacy: ContextView,
    pub legacy_nodes: Seq<NodeStateView>,
    pub legacy_pods: Seq<PodStateView>,
    pub saw_legacy: bool,
}

/// Nothing read yet.
pub open spec fn load_start() -> LoadView {
    LoadView {
        states: Seq::empty(),
        legacy: default_context_view(),
        legacy_nodes: Seq::empty(),
        legacy_pods: Seq::empty(),
        saw_legacy: false,
    }
}

/// The states after a node line of facility `facility`: the node joins the
/// first state of that facility, or a new state on its default bridge.
pub open spec fn with_node(states: Seq<StateView>, facility: Seq<char>, node: NodeStateView) -> Seq<StateView> {
    match state_position(states, facility) {
        Some(i) => states.update(i, StateView { nodes: states[i].nodes.push(node), ..states[i] }),
        None => states.push(StateView {
            context: ContextView { name: facility, bridge: default_bridge_spec(facility) },
            nodes: seq![node],
            pods: Seq::empty(),
        }),
    }
}

/// The states after a pod line of facility `facility`.
pub open spec fn with_pod(states: Seq<StateView>, facility: Seq<char>, pod: PodStateView) -> Seq<StateView> {
    match state_position(states, facility) {
        Some(i) => states.update(i, StateView { pods: states[i].pods.push(pod), ..states[i] }),
        None => states.push(StateView {
            context: ContextView { name: facility, bridge: default_bridge_spec(facility) },
            nodes: Seq::empty(),
            pods: seq![pod],
        }),
    }
}

/// One line of the state file. A line is `key=value`, the value split at
/// commas: `facility=name,bridge` starts an empty state (in place of one of
/// that name); `node=facility,name,slot` and `pod=facility,name,node,slot`
/// add to a state; `name=`, `bridge=` (non-empty), `node=name,slot` and
/// `pod=name,node,slot` are the older format. Anything else, and a slot
/// that is not a number, leaves the line unread.
pub open spec fn load_line(acc: LoadView, line: Seq<char>) -> LoadView {
    match split_once_spec(line, '=') {
        None => acc,
        Some((key, value)) => {
            let parts = split_pieces(value, ',');
            if key == "facility"@ {
                if parts.len() == 2 {
                    LoadView {
                        states: upsert_spec(acc.states, empty_state_view(ContextView { name: parts[0], bridge: parts[1] })),
                        ..acc
                    }
                } else {
                    acc
                }
            } else if key == "name"@ && value.len() > 0 {
                LoadView { legacy: ContextView { name: value, ..acc.legacy }, saw_legacy: true, ..acc }
            } else if key == "bridge"@ && value.len() > 0 {
                LoadView { legacy: ContextView { bridge: value, ..acc.legacy }, saw_legacy: true, ..acc }
            } else if key == "node"@ {
                if parts.len() == 3 {
                    match parse_usize_spec(parts[2]) {
                        Some(slot) => LoadView {
                            states: with_node(acc.states, parts[0], NodeStateView { name: parts[1], slot }),
                            ..acc
                        },
                        None => acc,
                    }
                } else if parts.len() == 2 {
                    match parse_usize_spec(parts[1]) {
                        Some(slot) => LoadView {
                            legacy_nodes: acc.legacy_nodes.push(NodeStateView { name: parts[0], slot }),
                            ..acc
                        },
                        None => acc,
                    }
                } else {
                    acc
                }
            } else if key == "pod"@ {
                if parts.len() == 4 {
                    match parse_usize_spec(parts[3]) {
                        Some(slot) => LoadView {
                            states: with_pod(acc.states, parts[0], PodStateView { name: parts[1], node: parts[2], slot }),
                            ..acc
                        },
                        None => acc,
                    }
                } else if parts.len() == 3 {
                    match parse_usize_spec(parts[2]) {
                        Some(slot) => LoadView {
                            legacy_pods: acc.legacy_pods.push(PodStateView { name: parts[0], node: parts[1], slot }),
                            ..acc
                        },
                        None => acc,
                    }
                } else {
                    acc
                }
            } else {
                acc
            }
        },
    }
}

/// Reading `lines` in order from `acc`.
pub open spec fn load_from(acc: LoadView, lines: Seq<Seq<char>>) -> LoadView
    decreases lines.len(),
{
    if lines.len() == 0 {
        acc
    } else {
        load_line(load_from(acc, lines.drop_last()), lines.last())
    }
}

/// The states once every line is read: what the older format gave, if
/// anything, becomes one more state (in place of one of its name).
pub open spec fn load_finish(acc: LoadView) -> Seq<StateView> {
    if acc.saw_legacy || acc.legacy_nodes.len() > 0 || acc.legacy_pods.len() > 0 {
        upsert_spec(acc.states, StateView { context: acc.legacy, nodes: acc.legacy_nodes, pods: acc.legacy_pods })
    } else {
        acc.states
    }
}

/// The states saved in the text of a state file.
pub open spec fn states_from_text(data: Seq<char>) -> Seq<StateView> {
    load_finish(load_from(load_start(), text_lines(data)))
}

struct Loader {
    states: Vec<FacilityState>,
    legacy: FacilityContext,
    legacy_nodes: Vec<NodeState>,
    legacy_pods: Vec<PodState>,
    saw_legacy: bool,
}

impl View for Loader {
    type V = LoadView;

    closed spec fn view(&self) -> LoadView {
        LoadView {
            states: states_view(self.states@),
            legacy: self.legacy@,
            legacy_nodes: self.legacy_nodes@.map_values(|n: NodeState| n@),
            legacy_pods: self.legacy_pods@.map_values(|p: PodState| p@),
            saw_legacy: self.saw_legacy,
        }
    }
}

fn add_node(states: &mut Vec<FacilityState>, facility: String, node: NodeState)
    ensures
        states_view(final(states)@) == with_node(states_view(old(states)@), facility@, node@),
{
    let ghost nv = node@;
    let ghost before = states_view(states@);
    proof { lemma_state_position(before, facility@); }
    match state_index(states.as_slice(), facility.as_str()) {
        Some(i) => {
            let mut st = states.remove(i);
            st.nodes.push(node);
            proof { assert(st@.nodes =~= before[i as int].nodes.push(nv)); }
            states.insert(i, st);
            proof {
                assert(states_view(states@) =~= with_node(before, facility@, nv));
            }
        },
        None => {
            let bridge = default_bridge_for_name(facility.as_str());
            let mut st = empty_state(FacilityContext { name: facility, bridge });
            st.nodes.push(node);
            proof { assert(st@.nodes =~= seq![nv]); }
            states.push(st);
            proof {
                assert(states_view(states@) =~= with_node(before, facility@, nv));
            }
        },
    }
}

fn add_pod(states: &mut Vec<FacilityState>, facility: String, pod: PodState)
    ensures
        states_view(final(states)@) == with_pod(states_view(old(states)@), facility@, pod@),
{
    let ghost pv = pod@;
    let ghost before = states_view(states@);
    proof { lemma_state_position(before, facility@); }
    match state_index(states.as_slice(), facility.as_str()) {
        Some(i) => {
            let mut st = states.remove(i);
            st.pods.push(pod);
            proof { assert(st@.pods =~= before[i as int].pods.push(pv)); }
            states.insert(i, st);
            proof {
                assert(states_view(states@) =~= with_pod(before, facility@, pv));
            }
        },
        None => {
            let bridge = default_bridge_for_name(facility.as_str());
            let mut st = empty_state(FacilityContext { name: facility, bridge });
            st.pods.push(pod);
            proof { assert(st@.pods =~= seq![pv]); }
            states.push(st);
            proof {
                assert(states_view(states@) =~= with_pod(before, facility@, pv));
            }
        },
    }
}

fn piece(parts: &Vec<String>, i: usize) -> (r: String)
    requires
        i < parts@.len(),
    ensures
        r@ == parts.deep_view()[i as int],
{
    parts[i].clone()
}

impl Loader {
    #[verifier::loop_isolation(false)]
    fn read_line(&mut self, line: &str)
        ensures
            final(self)@ == load_line(old(self)@, line@),
    {
        proof {
            reveal_strlit("facility");
            reveal_strlit("name");
            reveal_strlit("bridge");
            reveal_strlit("node");
            reveal_strlit("pod");
        }
        let (key, value) = match split_once_at(line, '=') {
            None => return,
            Some(kv) => kv,
        };
        let parts = split_at_char(value.as_str(), ',');
        let n = parts.len();
        proof { assert(n == split_pieces(value@, ',').len()); }
        if str_equal(key.as_str(), "facility") {
            if n == 2 {
                let context = FacilityContext { name: piece(&parts, 0), bridge: piece(&parts, 1) };
                upsert_state(&mut self.states, empty_state(context));
            }
        } else if str_equal(key.as_str(), "name") && value.unicode_len() > 0 {
            self.legacy.name = value;
            self.saw_legacy = true;
        } else if str_equal(key.as_str(), "bridge") && value.unicode_len() > 0 {
            self.legacy.bridge = value;
            self.saw_legacy = true;
        } else if str_equal(key.as_str(), "node") {
            if n == 3 {
                if let Some(slot) = parse_usize(parts[2].as_str()) {
                    proof { assert(parts.deep_view()[2] == parts@[2]@); }
                    add_node(&mut self.states, piece(&parts, 0), NodeState { name: piece(&parts, 1), slot });
                }
            } else if n == 2 {
                if let Some(slot) = parse_usize(parts[1].as_str()) {
                    proof { assert(parts.deep_view()[1] == parts@[1]@); }
                    let ghost before = self@.legacy_nodes;
                    let node = NodeState { name: piece(&parts, 0), slot };
                    let ghost nv = node@;
                    self.legacy_nodes.push(node);
                    proof { assert(self@.legacy_nodes =~= before.push(nv)); }
                }
            }
        } else if str_equal(key.as_str(), "pod") {
            if n == 4 {
                if let Some(slot) = parse_usize(parts[3].as_str()) {
                    proof { assert(parts.deep_view()[3] == parts@[3]@); }
                    add_pod(&mut self.states, piece(&parts, 0), PodState { name: piece(&parts, 1), node: piece(&parts, 2), slot });
                }
            } else if n == 3 {
                if let Some(slot) = parse_usize(parts[2].as_str()) {
                    proof { assert(parts.deep_view()[2] == parts@[2]@); }
                    let ghost before = self@.legacy_pods;
                    let pod = PodState { name: piece(&parts, 0), node: piece(&parts, 1), slot };
                    let ghost pv = pod@;
                    self.legacy_pods.push(pod);
                    proof { assert(self@.legacy_pods =~= before.push(pv)); }
                }
            }
        }
    }
}

/// Reads the saved states from the text of a state file.
pub fn parse_states(data: &str) -> (r: Vec<FacilityState>)
    ensures
        states_view(r@) == states_from_text(data@),
{
    let lines = lines_of(data);
    let mut loader = Loader {
        states: Vec::new(),
        legacy: default_context(),
        legacy_nodes: Vec::new(),
        legacy_pods: Vec::new(),
        saw_legacy: false,
    };
    proof {
        assert(loader@.states =~= Seq::<StateView>::empty());
        assert(loader@.legacy_nodes =~= Seq::<NodeStateView>::empty());
        assert(loader@.legacy_pods =~= Seq::<PodStateView>::empty());
    }
    let n = lines.len();
    let mut i: usize = 0;
    while i < n
        invariant
            n == lines@.len(),
            lines.deep_view() == text_lines(data@),
            i <= n,
            loader@ == load_from(load_start(), text_lines(data@).take(i as int)),
        decreases n - i,
    {
        let ghost prefix = text_lines(data@).take(i as int);
        let ghost next = text_lines(data@).take(i + 1);
        proof {
            assert(next.drop_last() =~= prefix);
            assert(next.last() == lines@[i as int]@);
        }
        loader.read_line(lines[i].as_str());
        i = i + 1;
    }
    proof { assert(text_lines(data@).take(n as int) =~= text_lines(data@)); }
    let Loader { states, legacy, legacy_nodes, legacy_pods, saw_legacy } = loader;
    let mut states = states;
    if saw_legacy || legacy_nodes.len() > 0 || legacy_pods.len() > 0 {
        upsert_state(&mut states, FacilityState { context: legacy, nodes: legacy_nodes, pods: legacy_pods });
    }
    states
}

/// `facility=name,bridge`
pub open spec fn facility_line(c: ContextView) -> Seq<char> {
    "facility="@ + c.name + ","@ + c.bridge
}

/// `node=facility,name,slot`
pub open spec fn node_line(facility: Seq<char>, n: NodeStateView) -> Seq<char> {
    "node="@ + facility + ","@ + n.name + ","@ + decimal(n.slot as nat)
}

/// `pod=facility,name,node,slot`
pub open spec fn pod_line(facility: Seq<char>, p: PodStateView) -> Seq<char> {
    "pod="@ + facility + ","@ + p.name + ","@ + p.node + ","@ + decimal(p.slot as nat)
}

/// The lines of one state: its facility, then its nodes, then its pods.
pub open spec fn state_lines(s: StateView) -> Seq<Seq<char>> {
    seq![facility_line(s.context)]
        + s.nodes.map_values(|n: NodeStateView| node_line(s.context.name, n))
        + s.pods.map_values(|p: PodStateView| pod_line(s.context.name, p))
}

/// The lines of all states, in order.
pub open spec fn file_lines(states: Seq<StateView>) -> Seq<Seq<char>>
    decreases states.len(),
{
    if states.len() == 0 {
        Seq::empty()
    } else {
        file_lines(states.drop_last()) + state_lines(states.last())
    }
}

/// Each line followed by a newline.
pub open spec fn joined_lines(lines: Seq<Seq<char>>) -> Seq<char>
    decreases lines.len(),
{
    if lines.len() == 0 {
        Seq::empty()
    } else {
        joined_lines(lines.drop_last()) + lines.last() + seq!['\n']
    }
}

/// The text a list of states is saved as.
pub open spec fn states_text(states: Seq<StateView>) -> Seq<char> {
    joined_lines(file_lines(states))
}

proof fn lemma_joined_push(lines: Seq<Seq<char>>, l: Seq<char>)
    ensures
        joined_lines(lines.push(l)) == joined_lines(lines) + l + seq!['\n'],
{
    assert(lines.push(l).drop_last() =~= lines);
}

fn append_line_end(r: &mut String)
    ensures
        final(r)@ == old(r)@ + seq!['\n'],
{
    r.append("\n");
    proof {
        reveal_strlit("\n");
    }
}

/// The text of a state file holding `states`.
pub fn render_states(states: &[FacilityState]) -> (r: String)
    ensures
        r@ == states_text(states_view(states@)),
{
    let ghost sv = states_view(states@);
    let mut r = String::new();
    let n = states.len();
    let mut i: usize = 0;
    while i < n
        invariant
            n == states@.len(),
            sv == states_view(states@),
            i <= n,
            r@ == joined_lines(file_lines(sv.take(i as int))),
        decreases n - i,
    {
        let st = &states[i];
        let ghost base = file_lines(sv.take(i as int));
        let ghost c = st@.context;
        let ghost before = r@;
        r.append("facility=");
        r.append(st.context.name.as_str());
        r.append(",");
        r.append(st.context.bridge.as_str());
        append_line_end(&mut r);
        proof {
            lemma_joined_push(base, facility_line(c));
            assert(r@ =~= before + facility_line(c) + seq!['\n']);
        }
        let ghost head = base + seq![facility_line(c)];
        proof {
            assert(head =~= base.push(facility_line(c)));
            assert(head + st@.nodes.take(0).map_values(|x: NodeStateView| node_line(c.name, x)) =~= head);
        }
        let m = st.nodes.len();
        let mut j: usize = 0;
        while j < m
            invariant
                m == st@.nodes.len(),
                c == st@.context,
                j <= m,
                r@ == joined_lines(head + st@.nodes.take(j as int).map_values(|x: NodeStateView| node_line(c.name, x))),
            decreases m - j,
        {
            let node = &st.nodes[j];
            let ghost lines = head + st@.nodes.take(j as int).map_values(|x: NodeStateView| node_line(c.name, x));
            let ghost before = r@;
            r.append("node=");
            r.append(st.context.name.as_str());
            r.append(",");
            r.append(node.name.as_str());
            r.append(",");
            push_decimal(&mut r, node.slot);
            append_line_end(&mut r);
            proof {
                assert(st@.nodes[j as int] == node@);
                lemma_joined_push(lines, node_line(c.name, node@));
                assert(r@ =~= before + node_line(c.name, node@) + seq!['\n']);
                assert(head + st@.nodes.take(j + 1).map_values(|x: NodeStateView| node_line(c.name, x))
                    =~= lines.push(node_line(c.name, node@)));
            }
            j = j + 1;
        }
        proof { assert(st@.nodes.take(m as int) =~= st@.nodes); }
        let ghost mid = head + st@.nodes.map_values(|x: NodeStateView| node_line(c.name, x));
        proof { assert(mid + st@.pods.take(0).map_values(|x: PodStateView| pod_line(c.name, x)) =~= mid); }
        let k = st.pods.len();
        let mut q: usize = 0;
        while q < k
            invariant
                k == st@.pods.len(),
                c == st@.context,
                q <= k,
                r@ == joined_lines(mid + st@.pods.take(q as int).map_values(|x: PodStateView| pod_line(c.name, x))),
            decreases k - q,
        {
            let pod = &st.pods[q];
            let ghost lines = mid + st@.pods.take(q as int).map_values(|x: PodStateView| pod_line(c.name, x));
            let ghost before = r@;
            r.append("pod=");
            r.append(st.context.name.as_str());
            r.append(",");
            r.append(pod.name.as_str());
            r.append(",");
            r.append(pod.node.as_str());
            r.append(",");
            push_decimal(&mut r, pod.slot);
            append_line_end(&mut r);
            proof {
                assert(st@.pods[q as int] == pod@);
                lemma_joined_push(lines, pod_line(c.name, pod@));
                assert(r@ =~= before + pod_line(c.name, pod@) + seq!['\n']);
                assert(mid + st@.pods.take(q + 1).map_values(|x: PodStateView| pod_line(c.name, x))
                    =~= lines.push(pod_line(c.name, pod@)));
            }
            q = q + 1;
        }
        proof {
            assert(st@.pods.take(k as int) =~= st@.pods);
            assert(sv.take(i + 1).drop_last() =~= sv.take(i as int));
            assert(sv[i as int] == st@);
            assert(file_lines(sv.take(i + 1)) =~= mid + st@.pods.map_values(|x: PodStateView| pod_line(c.name, x)));
        }
        i = i + 1;
    }
    proof { assert(sv.take(n as int) =~= sv); }
    r
}

/// No character of `f` is `sep`.
pub open spec fn free_of(f: Seq<char>, sep: char) -> bool {
    forall|i: int| 0 <= i < f.len() ==> f[i] != sep
}

proof fn lemma_split_append(s: Seq<char>, l: Seq<char>, sep: char)
    requires
        free_of(l, sep),
    ensures
        split_pieces(s + l, sep) == split_pieces(s, sep).update(
            split_pieces(s, sep).len() - 1,
            split_pieces(s, sep).last() + l,
        ),
        split_pieces(s + l, sep).len() == split_pieces(s, sep).len(),
    decreases l.len(),
{
    lemma_pieces_nonempty(s, sep);
    if l.len() == 0 {
        assert(s + l =~= s);
        let p = split_pieces(s, sep);
        assert(p.last() + l =~= p.last());
        assert(p.update(p.len() - 1, p.last() + l) =~= p);
    } else {
        let init = l.drop_last();
        lemma_split_append(s, init, sep);
        assert((s + l).drop_last() =~= s + init);
        assert((s + l).last() == l.last());
        assert(l.last() == l[l.len() - 1]);
        let p = split_pieces(s, sep);
        let q = split_pieces(s + init, sep);
        assert(q.last().push(l.last()) =~= p.last() + l);
        assert(q.update(q.len() - 1, q.last().push(l.last())) =~= p.update(p.len() - 1, p.last() + l));
    }
}

proof fn lemma_pieces_nonempty(s: Seq<char>, sep: char)
    ensures
        split_pieces(s, sep).len() >= 1,
    decreases s.len(),
{
    if s.len() > 0 {
        lemma_pieces_nonempty(s.drop_last(), sep);
    }
}

proof fn lemma_split_sep(s: Seq<char>, sep: char)
    ensures
        split_pieces(s.push(sep), sep) == split_pieces(s, sep).push(Seq::empty()),
{
    assert(s.push(sep).drop_last() =~= s);
}

/// `a,b` splits into `a` and `b`.
proof fn lemma_split_two(a: Seq<char>, b: Seq<char>)
    requires
        free_of(a, ','),
        free_of(b, ','),
    ensures
        split_pieces(a + ","@ + b, ',') == seq![a, b],
{
    reveal_strlit(",");
    lemma_split_append(Seq::empty(), a, ',');
    assert(Seq::<char>::empty() + a =~= a);
    assert(split_pieces(Seq::<char>::empty(), ',') =~= seq![Seq::<char>::empty()]);
    assert(split_pieces(a, ',') =~= seq![a]);
    lemma_split_sep(a, ',');
    assert(a + ","@ =~= a.push(','));
    lemma_split_append(a.push(','), b, ',');
    assert(a + ","@ + b =~= a.push(',') + b);
    assert(split_pieces(a + ","@ + b, ',') =~= seq![a, b]);
}

/// `s,b` splits into the pieces of `s`, then `b`.
proof fn lemma_split_more(s: Seq<char>, b: Seq<char>)
    requires
        free_of(b, ','),
    ensures
        split_pieces(s + ","@ + b, ',') == split_pieces(s, ',').push(b),
{
    reveal_strlit(",");
    lemma_split_sep(s, ',');
    assert(s + ","@ =~= s.push(','));
    lemma_split_append(s.push(','), b, ',');
    assert(s + ","@ + b =~= s.push(',') + b);
    let p = split_pieces(s, ',').push(Seq::<char>::empty());
    assert(Seq::<char>::empty() + b =~= b);
    assert(p.update(p.len() - 1, p.last() + b) =~= split_pieces(s, ',').push(b));
}

/// No line holds a newline or ends with a carriage return.
pub open spec fn plain_lines(lines: Seq<Seq<char>>) -> bool {
    forall|i: int| 0 <= i < lines.len() ==> free_of(#[trigger] lines[i], '\n')
        && !(lines[i].len() > 0 && lines[i].last() == '\r')
}

proof fn lemma_pieces_of_joined(lines: Seq<Seq<char>>)
    requires
        plain_lines(lines),
    ensures
        split_pieces(joined_lines(lines), '\n') == lines.push(Seq::empty()),
    decreases lines.len(),
{
    if lines.len() == 0 {
        assert(split_pieces(Seq::<char>::empty(), '\n') =~= seq![Seq::<char>::empty()]);
        assert(lines.push(Seq::empty()) =~= seq![Seq::<char>::empty()]);
    } else {
        let init = lines.drop_last();
        let l = lines.last();
        assert forall|i: int| 0 <= i < init.len() implies free_of(#[trigger] init[i], '\n')
            && !(init[i].len() > 0 && init[i].last() == '\r') by {
            assert(init[i] == lines[i]);
        }
        lemma_pieces_of_joined(init);
        assert(lines[lines.len() - 1] == l);
        lemma_split_append(joined_lines(init), l, '\n');
        lemma_split_sep(joined_lines(init) + l, '\n');
        assert(joined_lines(lines) =~= (joined_lines(init) + l).push('\n'));
        let p = init.push(Seq::<char>::empty());
        assert(Seq::<char>::empty() + l =~= l);
        assert(p.update(p.len() - 1, p.last() + l).push(Seq::empty()) =~= lines.push(Seq::empty()));
    }
}

/// The lines of text written line by line are those lines.
pub proof fn lemma_text_lines_of_joined(lines: Seq<Seq<char>>)
    requires
        plain_lines(lines),
    ensures
        text_lines(joined_lines(lines)) == lines,
{
    lemma_pieces_of_joined(lines);
    let pieces = split_pieces(joined_lines(lines), '\n');
    assert(pieces.drop_last() =~= lines);
    assert forall|i: int| 0 <= i < lines.len() implies strip_cr(#[trigger] lines[i]) == lines[i] by {}
    assert(lines.map_values(|l: Seq<char>| strip_cr(l)) =~= lines);
}

/// `key=value` with no `=` in `key` splits at that `=`.
proof fn lemma_split_key(key: Seq<char>, value: Seq<char>)
    requires
        free_of(key, '='),
    ensures
        split_once_spec(key + seq!['='] + value, '=') == Some((key, value)),
{
    let line = key + seq!['='] + value;
    lemma_first_index_of(line, '=');
    assert(line[key.len() as int] == '=');
    match first_index_of(line, '=') {
        Some(i) => {
            if i < key.len() {
                assert(line[i] == key[i]);
            }
            assert(i == key.len());
            assert(line.take(i) =~= key);
            assert(line.skip(i + 1) =~= value);
        },
        None => {},
    }
}

proof fn lemma_decimal_digits(n: nat)
    ensures
        decimal(n).len() > 0,
        all_digits(decimal(n)),
        digits_value(decimal(n)) == n,
        free_of(decimal(n), ','),
        free_of(decimal(n), '\n'),
        decimal(n).last() != '\r',
        decimal(n)[0] != '+',
    decreases n,
{
    if n < 10 {
        let d = decimal(n);
        assert(d =~= seq![digit_char(n)]);
        assert(d.drop_last() =~= Seq::<char>::empty());
        assert((digit_char(n) as u32) == n + 48);
        assert(digits_value(d) == digits_value(d.drop_last()) * 10 + ((d.last() as u32) - 48) as nat);
    } else {
        lemma_decimal_digits(n / 10);
        let d = decimal(n);
        let init = decimal(n / 10);
        assert(d.drop_last() =~= init);
        assert(d.last() == digit_char(n % 10));
        assert((digit_char(n % 10) as u32) == n % 10 + 48);
        assert(digits_value(d) == digits_value(init) * 10 + ((d.last() as u32) - 48) as nat);
        assert(n == (n / 10) * 10 + n % 10);
        assert(d[0] == init[0]);
        assert forall|i: int| 0 <= i < d.len() implies is_digit(#[trigger] d[i]) by {
            if i < init.len() {
                assert(d[i] == init[i]);
            }
        }
    }
}

proof fn lemma_parse_decimal(n: usize)
    ensures
        parse_usize_spec(decimal(n as nat)) == Some(n),
{
    lemma_decimal_digits(n as nat);
}

proof fn lemma_load_concat(acc: LoadView, a: Seq<Seq<char>>, b: Seq<Seq<char>>)
    ensures
        load_from(acc, a + b) == load_from(load_from(acc, a), b),
    decreases b.len(),
{
    if b.len() == 0 {
        assert(a + b =~= a);
    } else {
        lemma_load_concat(acc, a, b.drop_last());
        assert((a + b).drop_last() =~= a + b.drop_last());
        assert((a + b).last() == b.last());
    }
}

/// The states read so far are `states`, and nothing of the older format.
pub open spec fn loaded(states: Seq<StateView>) -> LoadView {
    LoadView { states, ..load_start() }
}

/// A state that the state file holds as it is: no name, bridge or node
/// holds a comma or a newline, and the bridge does not end with a carriage
/// return.
pub open spec fn storable_state(s: StateView) -> bool {
    &&& free_of(s.context.name, ',') && free_of(s.context.name, '\n')
    &&& free_of(s.context.bridge, ',') && free_of(s.context.bridge, '\n')
    &&& !(s.context.bridge.len() > 0 && s.context.bridge.last() == '\r')
    &&& forall|i: int| 0 <= i < s.nodes.len() ==> free_of((#[trigger] s.nodes[i]).name, ',')
        && free_of(s.nodes[i].name, '\n')
    &&& forall|i: int| 0 <= i < s.pods.len() ==> free_of((#[trigger] s.pods[i]).name, ',')
        && free_of(s.pods[i].name, '\n') && free_of(s.pods[i].node, ',') && free_of(s.pods[i].node, '\n')
}

/// States that the state file holds as they are: each storable, and no two
/// of the same facility.
pub open spec fn storable(states: Seq<StateView>) -> bool {
    &&& forall|i: int| 0 <= i < states.len() ==> storable_state(#[trigger] states[i])
    &&& forall|i: int, j: int| 0 <= i < j < states.len() ==> (#[trigger] states[i]).context.name != (#[trigger] states[j]).context.name
}

proof fn lemma_free_concat(a: Seq<char>, b: Seq<char>, c: char)
    requires
        free_of(a, c),
        free_of(b, c),
    ensures
        free_of(a + b, c),
{
    assert forall|i: int| 0 <= i < (a + b).len() implies (a + b)[i] != c by {
        if i < a.len() {
            assert((a + b)[i] == a[i]);
        } else {
            assert((a + b)[i] == b[i - a.len()]);
        }
    }
}

proof fn lemma_facility_line(acc_states: Seq<StateView>, c: ContextView)
    requires
        free_of(c.name, ','),
        free_of(c.bridge, ','),
        state_position(acc_states, c.name) is None,
    ensures
        load_line(loaded(acc_states), facility_line(c)) == loaded(acc_states.push(empty_state_view(c))),
{
    reveal_strlit("facility=");
    reveal_strlit("facility");
    reveal_strlit("name");
    reveal_strlit("bridge");
    reveal_strlit(",");
    let value = c.name + ","@ + c.bridge;
    assert(facility_line(c) =~= "facility"@ + seq!['='] + value);
    lemma_split_key("facility"@, value);
    lemma_split_two(c.name, c.bridge);
}

proof fn lemma_node_line(states: Seq<StateView>, x: StateView, n: NodeStateView)
    requires
        free_of(x.context.name, ','),
        free_of(n.name, ','),
        state_position(states, x.context.name) is None,
    ensures
        load_line(loaded(states.push(x)), node_line(x.context.name, n))
            == loaded(states.push(StateView { nodes: x.nodes.push(n), ..x })),
{
    reveal_strlit("node=");
    reveal_strlit("facility");
    reveal_strlit("name");
    reveal_strlit("bridge");
    reveal_strlit("node");
    reveal_strlit(",");
    assert("node"@[1] != "name"@[1]);
    assert("node"@ != "name"@);
    let f = x.context.name;
    let dec = decimal(n.slot as nat);
    lemma_decimal_digits(n.slot as nat);
    lemma_parse_decimal(n.slot);
    let value = f + ","@ + n.name + ","@ + dec;
    assert(node_line(f, n) =~= "node"@ + seq!['='] + value);
    lemma_split_key("node"@, value);
    lemma_split_two(f, n.name);
    lemma_split_more(f + ","@ + n.name, dec);
    let all = states.push(x);
    crate::cli::lemma_state_position(states, f);
    crate::cli::lemma_state_position(all, f);
    assert(all[states.len() as int] == x);
    assert(state_position(all, f) == Some(states.len() as int));
    assert(all.update(states.len() as int, StateView { nodes: x.nodes.push(n), ..x })
        =~= states.push(StateView { nodes: x.nodes.push(n), ..x }));
}

proof fn lemma_pod_line(states: Seq<StateView>, x: StateView, p: PodStateView)
    requires
        free_of(x.context.name, ','),
        free_of(p.name, ','),
        free_of(p.node, ','),
        state_position(states, x.context.name) is None,
    ensures
        load_line(loaded(states.push(x)), pod_line(x.context.name, p))
            == loaded(states.push(StateView { pods: x.pods.push(p), ..x })),
{
    reveal_strlit("pod=");
    reveal_strlit("facility");
    reveal_strlit("name");
    reveal_strlit("bridge");
    reveal_strlit("node");
    reveal_strlit("pod");
    reveal_strlit(",");
    let f = x.context.name;
    let dec = decimal(p.slot as nat);
    lemma_decimal_digits(p.slot as nat);
    lemma_parse_decimal(p.slot);
    let value = f + ","@ + p.name + ","@ + p.node + ","@ + dec;
    assert(pod_line(f, p) =~= "pod"@ + seq!['='] + value);
    lemma_split_key("pod"@, value);
    lemma_split_two(f, p.name);
    lemma_split_more(f + ","@ + p.name, p.node);
    lemma_split_more(f + ","@ + p.name + ","@ + p.node, dec);
    let all = states.push(x);
    crate::cli::lemma_state_position(states, f);
    crate::cli::lemma_state_position(all, f);
    assert(all[states.len() as int] == x);
    assert(state_position(all, f) == Some(states.len() as int));
    assert(all.update(states.len() as int, StateView { pods: x.pods.push(p), ..x })
        =~= states.push(StateView { pods: x.pods.push(p), ..x }));
}

proof fn lemma_load_nodes(states: Seq<StateView>, x: StateView, ns: Seq<NodeStateView>)
    requires
        free_of(x.context.name, ','),
        forall|i: int| 0 <= i < ns.len() ==> free_of((#[trigger] ns[i]).name, ','),
        state_position(states, x.context.name) is None,
    ensures
        load_from(loaded(states.push(x)), ns.map_values(|n: NodeStateView| node_line(x.context.name, n)))
            == loaded(states.push(StateView { nodes: x.nodes + ns, ..x })),
    decreases ns.len(),
{
    let lines = ns.map_values(|n: NodeStateView| node_line(x.context.name, n));
    if ns.len() == 0 {
        assert(x.nodes + ns =~= x.nodes);
        assert(StateView { nodes: x.nodes + ns, ..x } == x);
    } else {
        let init = ns.drop_last();
        assert forall|i: int| 0 <= i < init.len() implies free_of((#[trigger] init[i]).name, ',') by {
            assert(init[i] == ns[i]);
        }
        lemma_load_nodes(states, x, init);
        assert(lines.drop_last() =~= init.map_values(|n: NodeStateView| node_line(x.context.name, n)));
        assert(lines.last() == node_line(x.context.name, ns.last()));
        let y = StateView { nodes: x.nodes + init, ..x };
        assert(ns.last() == ns[ns.len() - 1]);
        lemma_node_line(states, y, ns.last());
        assert((x.nodes + init).push(ns.last()) =~= x.nodes + ns);
    }
}

proof fn lemma_load_pods(states: Seq<StateView>, x: StateView, ps: Seq<PodStateView>)
    requires
        free_of(x.context.name, ','),
        forall|i: int| 0 <= i < ps.len() ==> free_of((#[trigger] ps[i]).name, ',') && free_of(ps[i].node, ','),
        state_position(states, x.context.name) is None,
    ensures
        load_from(loaded(states.push(x)), ps.map_values(|p: PodStateView| pod_line(x.context.name, p)))
            == loaded(states.push(StateView { pods: x.pods + ps, ..x })),
    decreases ps.len(),
{
    let lines = ps.map_values(|p: PodStateView| pod_line(x.context.name, p));
    if ps.len() == 0 {
        assert(x.pods + ps =~= x.pods);
        assert(StateView { pods: x.pods + ps, ..x } == x);
    } else {
        let init = ps.drop_last();
        assert forall|i: int| 0 <= i < init.len() implies free_of((#[trigger] init[i]).name, ',') && free_of(init[i].node, ',') by {
            assert(init[i] == ps[i]);
        }
        lemma_load_pods(states, x, init);
        assert(lines.drop_last() =~= init.map_values(|p: PodStateView| pod_line(x.context.name, p)));
        assert(lines.last() == pod_line(x.context.name, ps.last()));
        let y = StateView { pods: x.pods + init, ..x };
        assert(ps.last() == ps[ps.len() - 1]);
        lemma_pod_line(states, y, ps.last());
        assert((x.pods + init).push(ps.last()) =~= x.pods + ps);
    }
}

proof fn lemma_load_state(states: Seq<StateView>, s: StateView)
    requires
        storable_state(s),
        state_position(states, s.context.name) is None,
    ensures
        load_from(loaded(states), state_lines(s)) == loaded(states.push(s)),
{
    let fl = seq![facility_line(s.context)];
    let nl = s.nodes.map_values(|n: NodeStateView| node_line(s.context.name, n));
    let pl = s.pods.map_values(|p: PodStateView| pod_line(s.context.name, p));
    let a = loaded(states);
    assert(state_lines(s) == fl + nl + pl);
    lemma_load_concat(a, fl + nl, pl);
    lemma_load_concat(a, fl, nl);
    assert(fl.drop_last() =~= Seq::<Seq<char>>::empty());
    assert(load_from(a, Seq::<Seq<char>>::empty()) == a);
    assert(load_from(a, fl) == load_line(a, facility_line(s.context)));
    lemma_facility_line(states, s.context);
    let x = empty_state_view(s.context);
    assert(load_from(a, fl) == loaded(states.push(x)));
    lemma_load_nodes(states, x, s.nodes);
    assert(x.nodes + s.nodes =~= s.nodes);
    let y = StateView { nodes: s.nodes, ..x };
    assert(StateView { nodes: x.nodes + s.nodes, ..x } == y);
    assert(load_from(a, fl + nl) == loaded(states.push(y)));
    lemma_load_pods(states, y, s.pods);
    assert(y.pods + s.pods =~= s.pods);
    assert(StateView { pods: y.pods + s.pods, ..y } == s);
}

proof fn lemma_load_file(states: Seq<StateView>)
    requires
        storable(states),
    ensures
        load_from(load_start(), file_lines(states)) == loaded(states),
    decreases states.len(),
{
    if states.len() == 0 {
        assert(states =~= Seq::<StateView>::empty());
        assert(loaded(states) == load_start());
    } else {
        let init = states.drop_last();
        let s = states.last();
        assert forall|i: int, j: int| 0 <= i < j < init.len() implies (#[trigger] init[i]).context.name != (#[trigger] init[j]).context.name by {
            assert(init[i] == states[i] && init[j] == states[j]);
        }
        assert forall|i: int| 0 <= i < init.len() implies storable_state(#[trigger] init[i]) by {
            assert(init[i] == states[i]);
        }
        lemma_load_file(init);
        lemma_load_concat(load_start(), file_lines(init), state_lines(s));
        crate::cli::lemma_state_position(init, s.context.name);
        if state_position(init, s.context.name) is Some {
            let i = state_position(init, s.context.name)->0;
            assert(init[i] == states[i]);
            assert(states[states.len() - 1] == s);
        }
        assert(storable_state(states[states.len() - 1]));
        lemma_load_state(init, s);
        assert(init.push(s) =~= states);
    }
}

proof fn lemma_state_lines_plain(s: StateView)
    requires
        storable_state(s),
    ensures
        plain_lines(state_lines(s)),
{
    reveal_strlit("facility=");
    reveal_strlit("node=");
    reveal_strlit("pod=");
    reveal_strlit(",");
    let c = s.context;
    let lines = state_lines(s);
    let fl = facility_line(c);
    lemma_free_concat("facility="@, c.name, '\n');
    lemma_free_concat("facility="@ + c.name, ","@, '\n');
    lemma_free_concat("facility="@ + c.name + ","@, c.bridge, '\n');
    if c.bridge.len() > 0 {
        assert(fl.last() == c.bridge.last());
    } else {
        assert(fl.last() == ',');
    }
    assert forall|i: int| 0 <= i < lines.len() implies free_of(#[trigger] lines[i], '\n')
        && !(lines[i].len() > 0 && lines[i].last() == '\r') by {
        if i == 0 {
            assert(lines[i] == fl);
        } else if i < 1 + s.nodes.len() {
            let n = s.nodes[i - 1];
            assert(lines[i] == node_line(c.name, n));
            let dec = decimal(n.slot as nat);
            lemma_decimal_digits(n.slot as nat);
            lemma_free_concat("node="@, c.name, '\n');
            lemma_free_concat("node="@ + c.name, ","@, '\n');
            lemma_free_concat("node="@ + c.name + ","@, n.name, '\n');
            lemma_free_concat("node="@ + c.name + ","@ + n.name, ","@, '\n');
            lemma_free_concat("node="@ + c.name + ","@ + n.name + ","@, dec, '\n');
            assert(lines[i].last() == dec.last());
        } else {
            let p = s.pods[i - 1 - s.nodes.len()];
            assert(lines[i] == pod_line(c.name, p));
            let dec = decimal(p.slot as nat);
            lemma_decimal_digits(p.slot as nat);
            lemma_free_concat("pod="@, c.name, '\n');
            lemma_free_concat("pod="@ + c.name, ","@, '\n');
            lemma_free_concat("pod="@ + c.name + ","@, p.name, '\n');
            lemma_free_concat("pod="@ + c.name + ","@ + p.name, ","@, '\n');
            lemma_free_concat("pod="@ + c.name + ","@ + p.name + ","@, p.node, '\n');
            lemma_free_concat("pod="@ + c.name + ","@ + p.name + ","@ + p.node, ","@, '\n');
            lemma_free_concat("pod="@ + c.name + ","@ + p.name + ","@ + p.node + ","@, dec, '\n');
            assert(lines[i].last() == dec.last());
        }
    }
}

proof fn lemma_file_lines_plain(states: Seq<StateView>)
    requires
        forall|i: int| 0 <= i < states.len() ==> storable_state(#[trigger] states[i]),
    ensures
        plain_lines(file_lines(states)),
    decreases states.len(),
{
    if states.len() > 0 {
        let init = states.drop_last();
        assert forall|i: int| 0 <= i < init.len() implies storable_state(#[trigger] init[i]) by {
            assert(init[i] == states[i]);
        }
        lemma_file_lines_plain(init);
        assert(states[states.len() - 1] == states.last());
        lemma_state_lines_plain(states.last());
        let a = file_lines(init);
        let b = state_lines(states.last());
        assert forall|i: int| 0 <= i < (a + b).len() implies free_of(#[trigger] (a + b)[i], '\n')
            && !((a + b)[i].len() > 0 && (a + b)[i].last() == '\r') by {
            if i < a.len() {
                assert((a + b)[i] == a[i]);
            } else {
                assert((a + b)[i] == b[i - a.len()]);
            }
        }
    }
}

/// Writing storable states to the state file and reading the file back
/// gives the same states, in the same order.
pub proof fn lemma_states_round_trip(states: Seq<StateView>)
    requires
        storable(states),
    ensures
        states_from_text(states_text(states)) == states,
{
    lemma_file_lines_plain(states);
    lemma_text_lines_of_joined(file_lines(states));
    lemma_load_file(states);
}

/// Saving a state (in place of the one of its facility, or after the
/// others) and reading the file back: the state read for its context is
/// the state saved, when the states saved are storable.
pub proof fn lemma_saved_state_reads_back(states: Seq<StateView>, s: StateView)
    requires
        storable(upsert_spec(states, s)),
    ensures
        select_spec(states_from_text(states_text(upsert_spec(states, s))), s.context) == s,
{
    let saved = upsert_spec(states, s);
    lemma_states_round_trip(saved);
    lemma_state_position(states, s.context.name);
    let k = match state_position(states, s.context.name) {
        Some(i) => i,
        None => states.len() as int,
    };
    assert(saved[k] == s);
    lemma_matching_position(saved, s.context);
    match matching_position(saved, s.context) {
        Some(i) => {
            if i != k {
                if i < k {
                    assert(saved[i].context.name != saved[k].context.name);
                } else {
                    assert(saved[k].context.name != saved[i].context.name);
                }
            }
        },
        None => {},
    }
}

/// The lines of a context file.
proof fn lemma_context_lines(c: ContextView)
    requires
        free_of(c.name, '\n'),
        free_of(c.bridge, '\n'),
        !(c.name.len() > 0 && c.name.last() == '\r'),
        !(c.bridge.len() > 0 && c.bridge.last() == '\r'),
    ensures
        text_lines(context_text(c)) == seq!["name="@ + c.name, "bridge="@ + c.bridge],
{
    reveal_strlit("name=");
    reveal_strlit("bridge=");
    reveal_strlit("\nbridge=");
    reveal_strlit("\n");
    let lines = seq!["name="@ + c.name, "bridge="@ + c.bridge];
    lemma_free_concat("name="@, c.name, '\n');
    lemma_free_concat("bridge="@, c.bridge, '\n');
    assert(lines[0] == "name="@ + c.name);
    assert(lines[1] == "bridge="@ + c.bridge);
    if c.name.len() == 0 {
        assert(lines[0].last() == '=');
    } else {
        assert(lines[0].last() == c.name.last());
    }
    if c.bridge.len() == 0 {
        assert(lines[1].last() == '=');
    } else {
        assert(lines[1].last() == c.bridge.last());
    }
    assert(plain_lines(lines));
    lemma_text_lines_of_joined(lines);
    assert(lines.drop_last().drop_last() =~= Seq::<Seq<char>>::empty());
    let first = seq!["name="@ + c.name];
    assert(lines.drop_last() =~= first);
    assert(first.drop_last() =~= Seq::<Seq<char>>::empty());
    assert(joined_lines(first) == joined_lines(Seq::<Seq<char>>::empty()) + first[0] + seq!['\n']);
    assert(joined_lines(first) =~= "name="@ + c.name + seq!['\n']);
    assert(joined_lines(lines) == joined_lines(first) + lines[1] + seq!['\n']);
    assert(joined_lines(lines) =~= context_text(c));
}

/// Saving a context and reading it back gives the same context, when its
/// name and bridge are not empty, hold no newline and do not end with a
/// carriage return.
pub proof fn lemma_context_round_trip(c: ContextView)
    requires
        c.name.len() > 0,
        c.bridge.len() > 0,
        free_of(c.name, '\n'),
        free_of(c.bridge, '\n'),
        c.name.last() != '\r',
        c.bridge.last() != '\r',
    ensures
        context_from_lines(text_lines(context_text(c))) == c,
{
    reveal_strlit("name");
    reveal_strlit("bridge");
    reveal_strlit("name=");
    reveal_strlit("bridge=");
    lemma_context_lines(c);
    let lines = seq!["name="@ + c.name, "bridge="@ + c.bridge];
    assert("name="@ + c.name =~= "name"@ + seq!['='] + c.name);
    assert("bridge="@ + c.bridge =~= "bridge"@ + seq!['='] + c.bridge);
    lemma_split_key("name"@, c.name);
    lemma_split_key("bridge"@, c.bridge);
    let first = seq!["name="@ + c.name];
    assert(lines.drop_last() =~= first);
    assert(first.drop_last() =~= Seq::<Seq<char>>::empty());
    assert(first.last() == "name"@ + seq!['='] + c.name);
    assert(context_from_lines(Seq::<Seq<char>>::empty()) == default_context_view());
    assert(context_from_lines(first.drop_last()) == default_context_view());
    assert(context_from_lines(first) == ContextView { name: c.name, bridge: default_context_view().bridge });
    assert(lines.last() == "bridge"@ + seq!['='] + c.bridge);
    assert("bridge"@ != "name"@);
    assert(context_from_lines(lines) == ContextView { name: c.name, bridge: c.bridge });
}

} // verus!
