//! The command line's own logic: the saved context, the per-facility state of
//! created nodes and pods with their slots, and reading the arguments.

use vstd::prelude::*;
use crate::commands::facility_from_bridge_spec;
use crate::model::first_n;
use crate::parse::{lines_of, split_once_at, split_once_spec, text_lines};
use crate::text::{owned, str_equal};

verus! {

/// The facility and bridge that commands act on.
#[derive(Debug, Clone, PartialEq, Eq)]
pub struct FacilityContext {
    pub name: String,
    pub bridge: String,
}

/// A node created through the command line, with its slot.
#[derive(Debug, Clone, PartialEq, Eq)]
pub struct NodeState {
    pub name: String,
    pub slot: usize,
}

/// A pod created through the command line, with its node and slot.
#[derive(Debug, Clone, PartialEq, Eq)]
pub struct PodState {
    pub name: String,
    pub node: String,
    pub slot: usize,
}

/// What the command line remembers of one facility.
#[derive(Debug, Clone, PartialEq, Eq)]
pub struct FacilityState {
    pub context: FacilityContext,
    pub nodes: Vec<NodeState>,
    pub pods: Vec<PodState>,
}

pub struct ContextView {
    pub name: Seq<char>,
    pub bridge: Seq<char>,
}

pub struct NodeStateView {
    pub name: Seq<char>,
    pub slot: usize,
}

pub struct PodStateView {
    pub name: Seq<char>,
    pub node: Seq<char>,
    pub slot: usize,
}

pub struct StateView {
    pub context: ContextView,
    pub nodes: Seq<NodeStateView>,
    pub pods: Seq<PodStateView>,
}

impl View for FacilityContext {
    type V = ContextView;

    open spec fn view(&self) -> ContextView {
        ContextView { name: self.name@, bridge: self.bridge@ }
    }
}

impl View for NodeState {
    type V = NodeStateView;

    open spec fn view(&self) -> NodeStateView {
        NodeStateView { name: self.name@, slot: self.slot }
    }
}

impl View for PodState {
    type V = PodStateView;

    open spec fn view(&self) -> PodStateView {
        PodStateView { name: self.name@, node: self.node@, slot: self.slot }
    }
}

impl View for FacilityState {
    type V = StateView;

    open spec fn view(&self) -> StateView {
        StateView {
            context: self.context@,
            nodes: self.nodes@.map_values(|n: NodeState| n@),
            pods: self.pods@.map_values(|p: PodState| p@),
        }
    }
}

impl FacilityContext {
    /// A copy with the same name and bridge.
    pub fn duplicate(&self) -> (r: Self)
        ensures
            r@ == self@,
    {
        FacilityContext { name: self.name.clone(), bridge: self.bridge.clone() }
    }
}

impl NodeState {
    pub fn duplicate(&self) -> (r: Self)
        ensures
            r@ == self@,
    {
        NodeState { name: self.name.clone(), slot: self.slot }
    }
}

impl PodState {
    pub fn duplicate(&self) -> (r: Self)
        ensures
            r@ == self@,
    {
        PodState { name: self.name.clone(), node: self.node.clone(), slot: self.slot }
    }
}

/// The context of the smoke facility.
pub open spec fn default_context_view() -> ContextView {
    ContextView { name: "smoke"@, bridge: "vf-br0"@ }
}

/// Facility `smoke` on bridge `vf-br0`.
pub fn default_context() -> (r: FacilityContext)
    ensures
        r@ == default_context_view(),
{
    FacilityContext { name: owned("smoke"), bridge: owned("vf-br0") }
}

/// The bridge a facility gets unless told otherwise: `vf-br0` for `smoke`,
/// else `vf-` and at most the first 36 characters of the name.
pub open spec fn default_bridge_spec(name: Seq<char>) -> Seq<char> {
    if name == "smoke"@ {
        "vf-br0"@
    } else {
        "vf-"@ + first_n(name, 36)
    }
}

pub fn default_bridge_for_name(name: &str) -> (r: String)
    ensures
        r@ == default_bridge_spec(name@),
{
    if str_equal(name, "smoke") {
        return owned("vf-br0");
    }
    let n = name.unicode_len();
    let k = if n <= 36 { n } else { 36 };
    let mut r = owned("vf-");
    r.append(name.substring_char(0, k));
    proof {
        assert(name@.subrange(0, k as int) =~= first_n(name@, 36));
        assert(r@ =~= default_bridge_spec(name@));
    }
    r
}

/// Whether `--i-understand` is among the arguments.
pub open spec fn confirmed_spec(args: Seq<Seq<char>>) -> bool {
    exists|i: int| 0 <= i < args.len() && args[i] == "--i-understand"@
}

pub fn has_confirmed_apply(args: &[String]) -> (r: bool)
    ensures
        r == confirmed_spec(args@.map_values(|a: String| a@)),
{
    let ghost v = args@.map_values(|a: String| a@);
    let n = args.len();
    let mut i: usize = 0;
    while i < n
        invariant
            n == args@.len(),
            v == args@.map_values(|a: String| a@),
            i <= n,
            forall|j: int| 0 <= j < i ==> v[j] != "--i-understand"@,
        decreases n - i,
    {
        if str_equal(args[i].as_str(), "--i-understand") {
            proof { assert(v[i as int] == "--i-understand"@); }
            return true;
        }
        i = i + 1;
    }
    false
}

/// The context after the lines of a context file, starting from the default:
/// a `name=` or `bridge=` line with a non-empty value sets that field.
pub open spec fn context_from_lines(lines: Seq<Seq<char>>) -> ContextView
    decreases lines.len(),
{
    if lines.len() == 0 {
        default_context_view()
    } else {
        let c = context_from_lines(lines.drop_last());
        match split_once_spec(lines.last(), '=') {
            Some((key, value)) => if key == "name"@ && value.len() > 0 {
                ContextView { name: value, bridge: c.bridge }
            } else if key == "bridge"@ && value.len() > 0 {
                ContextView { name: c.name, bridge: value }
            } else {
                c
            },
            None => c,
        }
    }
}

/// Reads a saved context from the text of its file.
pub fn parse_context(data: &str) -> (r: FacilityContext)
    ensures
        r@ == context_from_lines(text_lines(data@)),
{
    let lines = lines_of(data);
    let mut context = default_context();
    let n = lines.len();
    let mut i: usize = 0;
    while i < n
        invariant
            n == lines@.len(),
            lines.deep_view() == text_lines(data@),
            i <= n,
            context@ == context_from_lines(text_lines(data@).take(i as int)),
        decreases n - i,
    {
        let ghost prefix = text_lines(data@).take(i as int);
        let ghost next = text_lines(data@).take(i + 1);
        proof {
            assert(next.drop_last() =~= prefix);
            assert(next.last() == lines@[i as int]@);
        }
        match split_once_at(lines[i].as_str(), '=') {
            Some((key, value)) => {
                if str_equal(key.as_str(), "name") && value.unicode_len() > 0 {
                    context.name = value;
                } else if str_equal(key.as_str(), "bridge") && value.unicode_len() > 0 {
                    context.bridge = value;
                }
            },
            None => {},
        }
        i = i + 1;
    }
    proof { assert(text_lines(data@).take(n as int) =~= text_lines(data@)); }
    context
}

/// The text a context is saved as.
pub open spec fn context_text(c: ContextView) -> Seq<char> {
    "name="@ + c.name + "\nbridge="@ + c.bridge + "\n"@
}

pub fn render_context(context: &FacilityContext) -> (r: String)
    ensures
        r@ == context_text(context@),
{
    let mut r = owned("name=");
    r.append(context.name.as_str());
    r.append("\nbridge=");
    r.append(context.bridge.as_str());
    r.append("\n");
    proof { assert(r@ =~= context_text(context@)); }
    r
}

/// A state with no nodes and no pods.
pub open spec fn empty_state_view(c: ContextView) -> StateView {
    StateView { context: c, nodes: Seq::empty(), pods: Seq::empty() }
}

pub fn empty_state(context: FacilityContext) -> (r: FacilityState)
    ensures
        r@ == empty_state_view(context@),
{
    let r = FacilityState { context, nodes: Vec::new(), pods: Vec::new() };
    proof {
        assert(r@.nodes =~= Seq::<NodeStateView>::empty());
        assert(r@.pods =~= Seq::<PodStateView>::empty());
    }
    r
}

/// Position of the first state of the facility called `name`.
pub open spec fn state_position(states: Seq<StateView>, name: Seq<char>) -> Option<int>
    decreases states.len(),
{
    if states.len() == 0 {
        None
    } else {
        match state_position(states.drop_last(), name) {
            Some(i) => Some(i),
            None => if states.last().context.name == name {
                Some(states.len() - 1)
            } else {
                None
            },
        }
    }
}

pub proof fn lemma_state_position(states: Seq<StateView>, name: Seq<char>)
    ensures
        state_position(states, name) matches Some(i) ==> 0 <= i < states.len() && states[i].context.name == name
            && forall|j: int| 0 <= j < i ==> (#[trigger] states[j]).context.name != name,
        state_position(states, name) is None ==> forall|j: int| 0 <= j < states.len() ==> (#[trigger] states[j]).context.name != name,
    decreases states.len(),
{
    if states.len() > 0 {
        lemma_state_position(states.drop_last(), name);
        assert(forall|j: int| 0 <= j < states.len() - 1 ==> states.drop_last()[j] == states[j]);
    }
}

/// The views of a list of states.
pub open spec fn states_view(states: Seq<FacilityState>) -> Seq<StateView> {
    states.map_values(|s: FacilityState| s@)
}

pub fn state_index(states: &[FacilityState], name: &str) -> (r: Option<usize>)
    ensures
        match r {
            Some(i) => state_position(states_view(states@), name@) == Some(i as int),
            None => state_position(states_view(states@), name@) is None,
        },
{
    let ghost v = states_view(states@);
    let n = states.len();
    let mut i: usize = 0;
    while i < n
        invariant
            n == states@.len(),
            v == states_view(states@),
            i <= n,
            forall|j: int| 0 <= j < i ==> (#[trigger] v[j]).context.name != name@,
        decreases n - i,
    {
        if str_equal(states[i].context.name.as_str(), name) {
            proof {
                lemma_state_position(v, name@);
                assert(v[i as int].context.name == name@);
            }
            return Some(i);
        }
        i = i + 1;
    }
    proof { lemma_state_position(v, name@); }
    None
}

/// Replaces the first state of the same facility, or appends.
pub open spec fn upsert_spec(states: Seq<StateView>, state: StateView) -> Seq<StateView> {
    match state_position(states, state.context.name) {
        Some(i) => states.update(i, state),
        None => states.push(state),
    }
}

pub fn upsert_state(states: &mut Vec<FacilityState>, state: FacilityState)
    ensures
        states_view(final(states)@) == upsert_spec(states_view(old(states)@), state@),
{
    let ghost sv = state@;
    match state_index(states.as_slice(), state.context.name.as_str()) {
        Some(i) => {
            proof { lemma_state_position(states_view(old(states)@), sv.context.name); }
            states.set(i, state);
            proof { assert(states_view(states@) =~= upsert_spec(states_view(old(states)@), sv)); }
        },
        None => {
            states.push(state);
            proof { assert(states_view(states@) =~= upsert_spec(states_view(old(states)@), sv)); }
        },
    }
}

/// Position of the first state with the given facility and bridge.
pub open spec fn matching_position(states: Seq<StateView>, c: ContextView) -> Option<int>
    decreases states.len(),
{
    if states.len() == 0 {
        None
    } else {
        match matching_position(states.drop_last(), c) {
            Some(i) => Some(i),
            None => if states.last().context == c {
                Some(states.len() - 1)
            } else {
                None
            },
        }
    }
}

pub proof fn lemma_matching_position(states: Seq<StateView>, c: ContextView)
    ensures
        matching_position(states, c) matches Some(i) ==> 0 <= i < states.len() && states[i].context == c
            && forall|j: int| 0 <= j < i ==> (#[trigger] states[j]).context != c,
        matching_position(states, c) is None ==> forall|j: int| 0 <= j < states.len() ==> (#[trigger] states[j]).context != c,
    decreases states.len(),
{
    if states.len() > 0 {
        lemma_matching_position(states.drop_last(), c);
        assert(forall|j: int| 0 <= j < states.len() - 1 ==> states.drop_last()[j] == states[j]);
    }
}

/// The state saved for `context`: the first one with its facility and
/// bridge, else an empty one.
pub open spec fn select_spec(states: Seq<StateView>, c: ContextView) -> StateView {
    match matching_position(states, c) {
        Some(i) => states[i],
        None => empty_state_view(c),
    }
}

pub fn select_state(states: Vec<FacilityState>, context: &FacilityContext) -> (r: FacilityState)
    ensures
        r@ == select_spec(states_view(states@), context@),
{
    let ghost v = states_view(states@);
    let mut pool = states;
    let n = pool.len();
    let mut i: usize = 0;
    while i < n
        invariant
            n == pool@.len(),
            v == states_view(pool@),
            v == states_view(states@),
            i <= n,
            forall|j: int| 0 <= j < i ==> (#[trigger] v[j]).context != context@,
        decreases n - i,
    {
        if str_equal(pool[i].context.name.as_str(), context.name.as_str())
            && str_equal(pool[i].context.bridge.as_str(), context.bridge.as_str()) {
            proof {
                lemma_matching_position(v, context@);
                assert(v[i as int].context == context@);
            }
            let found = pool.remove(i);
            proof {
                assert(found@ == v[i as int]);
                assert(matching_position(v, context@) == Some(i as int));
            }
            return found;
        }
        proof { assert(v[i as int].context != context@); }
        i = i + 1;
    }
    proof { lemma_matching_position(v, context@); }
    empty_state(context.duplicate())
}

/// The largest node slot, if there are nodes.
pub open spec fn max_node_slot(nodes: Seq<NodeStateView>) -> Option<nat>
    decreases nodes.len(),
{
    if nodes.len() == 0 {
        None
    } else {
        match max_node_slot(nodes.drop_last()) {
            Some(m) => Some(if nodes.last().slot > m { nodes.last().slot as nat } else { m }),
            None => Some(nodes.last().slot as nat),
        }
    }
}

/// The largest pod slot, if there are pods.
pub open spec fn max_pod_slot(pods: Seq<PodStateView>) -> Option<nat>
    decreases pods.len(),
{
    if pods.len() == 0 {
        None
    } else {
        match max_pod_slot(pods.drop_last()) {
            Some(m) => Some(if pods.last().slot > m { pods.last().slot as nat } else { m }),
            None => Some(pods.last().slot as nat),
        }
    }
}

/// The slot a new node gets: one past the largest, or 0.
pub open spec fn next_node_slot_spec(s: StateView) -> nat {
    match max_node_slot(s.nodes) {
        Some(m) => m + 1,
        None => 0,
    }
}

/// The slots of the three default pods: `proxy` 0, `server` 1, `client` 2.
pub open spec fn default_pod_slot_max() -> nat {
    2
}

/// The slot a new pod gets: one past the largest of the pods' slots and the
/// default pods' slots.
pub open spec fn next_pod_slot_spec(s: StateView) -> nat {
    match max_pod_slot(s.pods) {
        Some(m) => if m > default_pod_slot_max() { m + 1 } else { default_pod_slot_max() + 1 },
        None => default_pod_slot_max() + 1,
    }
}

/// Every node and pod slot is below `bound`.
pub open spec fn slots_below(s: StateView, bound: int) -> bool {
    &&& forall|i: int| 0 <= i < s.nodes.len() ==> (#[trigger] s.nodes[i]).slot < bound
    &&& forall|i: int| 0 <= i < s.pods.len() ==> (#[trigger] s.pods[i]).slot < bound
}

/// Every slot of `state` is below `bound`.
pub fn slots_fit(state: &FacilityState, bound: usize) -> (r: bool)
    ensures
        r == slots_below(state@, bound as int),
{
    let n = state.nodes.len();
    let mut i: usize = 0;
    while i < n
        invariant
            n == state@.nodes.len(),
            i <= n,
            forall|j: int| 0 <= j < i ==> (#[trigger] state@.nodes[j]).slot < bound,
        decreases n - i,
    {
        if state.nodes[i].slot >= bound {
            proof { assert(state@.nodes[i as int].slot >= bound); }
            return false;
        }
        i = i + 1;
    }
    let m = state.pods.len();
    let mut k: usize = 0;
    while k < m
        invariant
            m == state@.pods.len(),
            k <= m,
            forall|j: int| 0 <= j < n ==> (#[trigger] state@.nodes[j]).slot < bound,
            n == state@.nodes.len(),
            forall|j: int| 0 <= j < k ==> (#[trigger] state@.pods[j]).slot < bound,
        decreases m - k,
    {
        if state.pods[k].slot >= bound {
            proof { assert(state@.pods[k as int].slot >= bound); }
            return false;
        }
        k = k + 1;
    }
    true
}

proof fn lemma_max_node_slot_bound(nodes: Seq<NodeStateView>, bound: int)
    requires
        forall|i: int| 0 <= i < nodes.len() ==> (#[trigger] nodes[i]).slot < bound,
    ensures
        max_node_slot(nodes) matches Some(m) ==> m < bound,
    decreases nodes.len(),
{
    if nodes.len() > 0 {
        assert(forall|i: int| 0 <= i < nodes.len() - 1 ==> nodes.drop_last()[i] == nodes[i]);
        lemma_max_node_slot_bound(nodes.drop_last(), bound);
    }
}

proof fn lemma_max_pod_slot_bound(pods: Seq<PodStateView>, bound: int)
    requires
        forall|i: int| 0 <= i < pods.len() ==> (#[trigger] pods[i]).slot < bound,
    ensures
        max_pod_slot(pods) matches Some(m) ==> m < bound,
    decreases pods.len(),
{
    if pods.len() > 0 {
        assert(forall|i: int| 0 <= i < pods.len() - 1 ==> pods.drop_last()[i] == pods[i]);
        lemma_max_pod_slot_bound(pods.drop_last(), bound);
    }
}

/// Law: a new node's slot is above every slot in use, so it is free.
pub proof fn lemma_next_node_slot_is_free(s: StateView)
    ensures
        forall|i: int| 0 <= i < s.nodes.len() ==> (#[trigger] s.nodes[i]).slot < next_node_slot_spec(s),
{
    lemma_node_slots_below_max(s.nodes);
}

proof fn lemma_node_slots_below_max(nodes: Seq<NodeStateView>)
    ensures
        forall|i: int| 0 <= i < nodes.len() ==> (max_node_slot(nodes) matches Some(m) && (#[trigger] nodes[i]).slot <= m),
    decreases nodes.len(),
{
    if nodes.len() > 0 {
        lemma_node_slots_below_max(nodes.drop_last());
        assert(forall|i: int| 0 <= i < nodes.len() - 1 ==> nodes.drop_last()[i] == nodes[i]);
    }
}

proof fn lemma_pod_slots_below_max(pods: Seq<PodStateView>)
    ensures
        forall|i: int| 0 <= i < pods.len() ==> (max_pod_slot(pods) matches Some(m) && (#[trigger] pods[i]).slot <= m),
    decreases pods.len(),
{
    if pods.len() > 0 {
        lemma_pod_slots_below_max(pods.drop_last());
        assert(forall|i: int| 0 <= i < pods.len() - 1 ==> pods.drop_last()[i] == pods[i]);
    }
}

/// Law: a new pod's slot is above every slot in use and above the default
/// pods' slots, so it is free.
pub proof fn lemma_next_pod_slot_is_free(s: StateView)
    ensures
        forall|i: int| 0 <= i < s.pods.len() ==> (#[trigger] s.pods[i]).slot < next_pod_slot_spec(s),
        next_pod_slot_spec(s) > default_pod_slot_max(),
{
    lemma_pod_slots_below_max(s.pods);
}

pub fn next_node_slot(state: &FacilityState) -> (r: usize)
    requires
        slots_below(state@, usize::MAX as int),
    ensures
        r == next_node_slot_spec(state@),
{
    let n = state.nodes.len();
    let mut best: Option<usize> = None;
    let mut i: usize = 0;
    while i < n
        invariant
            n == state@.nodes.len(),
            slots_below(state@, usize::MAX as int),
            i <= n,
            match best {
                Some(b) => max_node_slot(state@.nodes.take(i as int)) == Some(b as nat),
                None => max_node_slot(state@.nodes.take(i as int)) is None,
            },
        decreases n - i,
    {
        let slot = state.nodes[i].slot;
        proof {
            assert(state@.nodes.take(i + 1).drop_last() =~= state@.nodes.take(i as int));
            assert(state@.nodes.take(i + 1).last() == state@.nodes[i as int]);
        }
        best = match best {
            Some(b) => Some(if slot > b { slot } else { b }),
            None => Some(slot),
        };
        i = i + 1;
    }
    proof {
        assert(state@.nodes.take(n as int) =~= state@.nodes);
        lemma_max_node_slot_bound(state@.nodes, usize::MAX as int);
    }
    match best {
        Some(b) => b + 1,
        None => 0,
    }
}

pub fn next_pod_slot(state: &FacilityState) -> (r: usize)
    requires
        slots_below(state@, usize::MAX as int),
    ensures
        r == next_pod_slot_spec(state@),
{
    let n = state.pods.len();
    let mut best: Option<usize> = None;
    let mut i: usize = 0;
    while i < n
        invariant
            n == state@.pods.len(),
            slots_below(state@, usize::MAX as int),
            i <= n,
            match best {
                Some(b) => max_pod_slot(state@.pods.take(i as int)) == Some(b as nat),
                None => max_pod_slot(state@.pods.take(i as int)) is None,
            },
        decreases n - i,
    {
        let slot = state.pods[i].slot;
        proof {
            assert(state@.pods.take(i + 1).drop_last() =~= state@.pods.take(i as int));
            assert(state@.pods.take(i + 1).last() == state@.pods[i as int]);
        }
        best = match best {
            Some(b) => Some(if slot > b { slot } else { b }),
            None => Some(slot),
        };
        i = i + 1;
    }
    proof {
        assert(state@.pods.take(n as int) =~= state@.pods);
        lemma_max_pod_slot_bound(state@.pods, usize::MAX as int);
    }
    match best {
        Some(b) => if b > 2 { b + 1 } else { 3 },
        None => 3,
    }
}

/// Some node is called `name`.
pub open spec fn has_node_named(s: StateView, name: Seq<char>) -> bool {
    exists|i: int| 0 <= i < s.nodes.len() && (#[trigger] s.nodes[i]).name == name
}

/// Some pod is called `name`.
pub open spec fn has_pod_named(s: StateView, name: Seq<char>) -> bool {
    exists|i: int| 0 <= i < s.pods.len() && (#[trigger] s.pods[i]).name == name
}

/// The state after remembering a node: unchanged when a node of that name
/// is known, else the node is added with a fresh slot.
pub open spec fn remember_node_spec(s: StateView, name: Seq<char>) -> StateView {
    if has_node_named(s, name) {
        s
    } else {
        StateView { nodes: s.nodes.push(NodeStateView { name, slot: next_node_slot_spec(s) as usize }), ..s }
    }
}

fn find_node_state(state: &FacilityState, name: &str) -> (r: bool)
    ensures
        r == has_node_named(state@, name@),
{
    let n = state.nodes.len();
    let mut i: usize = 0;
    while i < n
        invariant
            n == state@.nodes.len(),
            i <= n,
            forall|j: int| 0 <= j < i ==> (#[trigger] state@.nodes[j]).name != name@,
        decreases n - i,
    {
        if str_equal(state.nodes[i].name.as_str(), name) {
            proof { assert(state@.nodes[i as int].name == name@); }
            return true;
        }
        i = i + 1;
    }
    false
}

fn find_pod_state(state: &FacilityState, name: &str) -> (r: bool)
    ensures
        r == has_pod_named(state@, name@),
{
    let n = state.pods.len();
    let mut i: usize = 0;
    while i < n
        invariant
            n == state@.pods.len(),
            i <= n,
            forall|j: int| 0 <= j < i ==> (#[trigger] state@.pods[j]).name != name@,
        decreases n - i,
    {
        if str_equal(state.pods[i].name.as_str(), name) {
            proof { assert(state@.pods[i as int].name == name@); }
            return true;
        }
        i = i + 1;
    }
    false
}

pub fn remember_node(state: &mut FacilityState, name: &str)
    requires
        slots_below(old(state)@, usize::MAX as int),
    ensures
        final(state)@ == remember_node_spec(old(state)@, name@),
{
    if find_node_state(state, name) {
        return;
    }
    let slot = next_node_slot(state);
    let ghost before = state@;
    state.nodes.push(NodeState { name: owned(name), slot });
    proof { assert(state@.nodes =~= before.nodes.push(NodeStateView { name: name@, slot })); }
}

/// The state without the node called `name` and without the pods on it.
pub open spec fn forget_node_spec(s: StateView, name: Seq<char>) -> StateView {
    StateView {
        context: s.context,
        nodes: s.nodes.filter(|n: NodeStateView| n.name != name),
        pods: s.pods.filter(|p: PodStateView| p.node != name),
    }
}

pub fn forget_node(state: &mut FacilityState, name: &str)
    ensures
        final(state)@ == forget_node_spec(old(state)@, name@),
{
    let ghost before = state@;
    let mut nodes: Vec<NodeState> = Vec::new();
    let n = state.nodes.len();
    let mut i: usize = 0;
    while i < n
        invariant
            before == state@,
            n == state@.nodes.len(),
            i <= n,
            nodes@.map_values(|x: NodeState| x@) == before.nodes.take(i as int).filter(|x: NodeStateView| x.name != name@),
        decreases n - i,
    {
        proof {
            reveal_with_fuel(Seq::<NodeStateView>::filter, 1);
            assert(before.nodes.take(i + 1).drop_last() =~= before.nodes.take(i as int));
        }
        if !str_equal(state.nodes[i].name.as_str(), name) {
            let kept = state.nodes[i].duplicate();
            let ghost prior = nodes@.map_values(|x: NodeState| x@);
            nodes.push(kept);
            proof { assert(nodes@.map_values(|x: NodeState| x@) =~= prior.push(kept@)); }
        }
        i = i + 1;
    }
    let mut pods: Vec<PodState> = Vec::new();
    let m = state.pods.len();
    let mut j: usize = 0;
    while j < m
        invariant
            before == state@,
            m == state@.pods.len(),
            j <= m,
            pods@.map_values(|x: PodState| x@) == before.pods.take(j as int).filter(|x: PodStateView| x.node != name@),
        decreases m - j,
    {
        proof {
            reveal_with_fuel(Seq::<PodStateView>::filter, 1);
            assert(before.pods.take(j + 1).drop_last() =~= before.pods.take(j as int));
        }
        if !str_equal(state.pods[j].node.as_str(), name) {
            let kept = state.pods[j].duplicate();
            let ghost prior = pods@.map_values(|x: PodState| x@);
            pods.push(kept);
            proof { assert(pods@.map_values(|x: PodState| x@) =~= prior.push(kept@)); }
        }
        j = j + 1;
    }
    proof {
        assert(before.nodes.take(n as int) =~= before.nodes);
        assert(before.pods.take(m as int) =~= before.pods);
    }
    state.nodes = nodes;
    state.pods = pods;
}

/// `proxy`, `server` or `client`.
pub open spec fn is_default_pod_spec(name: Seq<char>) -> bool {
    name == "proxy"@ || name == "server"@ || name == "client"@
}

pub fn is_default_pod(name: &str) -> (r: bool)
    ensures
        r == is_default_pod_spec(name@),
{
    str_equal(name, "proxy") || str_equal(name, "server") || str_equal(name, "client")
}

/// The state after remembering a pod: unchanged for a default pod or a pod
/// already known, else the pod is added on `node` with a fresh slot.
pub open spec fn remember_pod_spec(s: StateView, name: Seq<char>, node: Seq<char>) -> StateView {
    if is_default_pod_spec(name) || has_pod_named(s, name) {
        s
    } else {
        StateView { pods: s.pods.push(PodStateView { name, node, slot: next_pod_slot_spec(s) as usize }), ..s }
    }
}

pub fn remember_pod(state: &mut FacilityState, name: &str, node: &str)
    requires
        slots_below(old(state)@, usize::MAX as int),
    ensures
        final(state)@ == remember_pod_spec(old(state)@, name@, node@),
{
    if is_default_pod(name) || find_pod_state(state, name) {
        return;
    }
    let slot = next_pod_slot(state);
    let ghost before = state@;
    state.pods.push(PodState { name: owned(name), node: owned(node), slot });
    proof { assert(state@.pods =~= before.pods.push(PodStateView { name: name@, node: node@, slot })); }
}

/// The state without the pod called `name`.
pub open spec fn forget_pod_spec(s: StateView, name: Seq<char>) -> StateView {
    StateView { pods: s.pods.filter(|p: PodStateView| p.name != name), ..s }
}

pub fn forget_pod(state: &mut FacilityState, name: &str)
    ensures
        final(state)@ == forget_pod_spec(old(state)@, name@),
{
    let ghost before = state@;
    let mut pods: Vec<PodState> = Vec::new();
    let m = state.pods.len();
    let mut j: usize = 0;
    while j < m
        invariant
            before == state@,
            m == state@.pods.len(),
            j <= m,
            pods@.map_values(|x: PodState| x@) == before.pods.take(j as int).filter(|x: PodStateView| x.name != name@),
        decreases m - j,
    {
        proof {
            reveal_with_fuel(Seq::<PodStateView>::filter, 1);
            assert(before.pods.take(j + 1).drop_last() =~= before.pods.take(j as int));
        }
        if !str_equal(state.pods[j].name.as_str(), name) {
            let kept = state.pods[j].duplicate();
            let ghost prior = pods@.map_values(|x: PodState| x@);
            pods.push(kept);
            proof { assert(pods@.map_values(|x: PodState| x@) =~= prior.push(kept@)); }
        }
        j = j + 1;
    }
    proof { assert(before.pods.take(m as int) =~= before.pods); }
    state.pods = pods;
}

/// Law: forgetting a pod right after remembering it leaves the state as it
/// was, when that pod was not known before and is not a default pod.
pub proof fn lemma_forget_undoes_remember_pod(s: StateView, name: Seq<char>, node: Seq<char>)
    requires
        !is_default_pod_spec(name),
        !has_pod_named(s, name),
    ensures
        forget_pod_spec(remember_pod_spec(s, name, node), name) == s,
{
    let added = PodStateView { name, node, slot: next_pod_slot_spec(s) as usize };
    let pods = s.pods.push(added);
    reveal_with_fuel(Seq::<PodStateView>::filter, 1);
    assert(pods.drop_last() =~= s.pods);
    assert(s.pods.filter(|p: PodStateView| p.name != name) =~= s.pods) by {
        lemma_filter_keeps_all(s.pods, name);
    }
    assert(forget_pod_spec(remember_pod_spec(s, name, node), name).pods =~= s.pods);
}

proof fn lemma_filter_keeps_all(pods: Seq<PodStateView>, name: Seq<char>)
    requires
        forall|i: int| 0 <= i < pods.len() ==> (#[trigger] pods[i]).name != name,
    ensures
        pods.filter(|p: PodStateView| p.name != name) == pods,
    decreases pods.len(),
{
    reveal_with_fuel(Seq::<PodStateView>::filter, 1);
    if pods.len() > 0 {
        assert(forall|i: int| 0 <= i < pods.len() - 1 ==> pods.drop_last()[i] == pods[i]);
        lemma_filter_keeps_all(pods.drop_last(), name);
        assert(pods.drop_last().push(pods.last()) =~= pods);
    } else {
        assert(pods.filter(|p: PodStateView| p.name != name) =~= pods);
    }
}

/// Law: remembering a node twice is remembering it once.
pub proof fn lemma_remember_node_idempotent(s: StateView, name: Seq<char>)
    ensures
        remember_node_spec(remember_node_spec(s, name), name) == remember_node_spec(s, name),
{
    let r = remember_node_spec(s, name);
    if !has_node_named(s, name) {
        assert(r.nodes[r.nodes.len() - 1].name == name);
    }
}

/// Forgets every pod of a state (its bridge is gone).
pub fn forget_pods(state: &mut FacilityState)
    ensures
        final(state)@ == (StateView { pods: Seq::empty(), ..old(state)@ }),
{
    state.pods = Vec::new();
    proof { assert(state@.pods =~= Seq::<PodStateView>::empty()); }
}

/// The node a pod goes on unless one is named: the only node, or
/// `default-node`.
pub open spec fn default_node_spec(s: StateView) -> Seq<char> {
    if s.nodes.len() == 1 {
        s.nodes[0].name
    } else {
        "default-node"@
    }
}

pub fn default_node_for_state(state: &FacilityState) -> (r: String)
    ensures
        r@ == default_node_spec(state@),
{
    if state.nodes.len() == 1 {
        return state.nodes[0].name.clone();
    }
    owned("default-node")
}

/// The arguments taken by their characters.
pub open spec fn arg_views(args: Seq<String>) -> Seq<Seq<char>> {
    args.map_values(|a: String| a@)
}

/// Position of the first argument equal to `flag`.
pub open spec fn flag_position(args: Seq<Seq<char>>, flag: Seq<char>) -> Option<int>
    decreases args.len(),
{
    if args.len() == 0 {
        None
    } else {
        match flag_position(args.drop_last(), flag) {
            Some(i) => Some(i),
            None => if args.last() == flag {
                Some(args.len() - 1)
            } else {
                None
            },
        }
    }
}

pub proof fn lemma_flag_position(args: Seq<Seq<char>>, flag: Seq<char>)
    ensures
        flag_position(args, flag) matches Some(i) ==> 0 <= i < args.len() && args[i] == flag
            && forall|j: int| 0 <= j < i ==> args[j] != flag,
        flag_position(args, flag) is None ==> forall|j: int| 0 <= j < args.len() ==> args[j] != flag,
    decreases args.len(),
{
    if args.len() > 0 {
        lemma_flag_position(args.drop_last(), flag);
        assert(forall|j: int| 0 <= j < args.len() - 1 ==> args.drop_last()[j] == args[j]);
    }
}

/// The argument after the first occurrence of `flag`, if there is one.
pub open spec fn flag_value_spec(args: Seq<Seq<char>>, flag: Seq<char>) -> Option<Seq<char>> {
    match flag_position(args, flag) {
        Some(i) => if i + 1 < args.len() {
            Some(args[i + 1])
        } else {
            None
        },
        None => None,
    }
}

fn flag_value(args: &[String], flag: &str) -> (r: Option<String>)
    ensures
        match r {
            Some(v) => flag_value_spec(arg_views(args@), flag@) == Some(v@),
            None => flag_value_spec(arg_views(args@), flag@) is None,
        },
{
    let ghost v = arg_views(args@);
    let n = args.len();
    let mut i: usize = 0;
    while i < n
        invariant
            n == args@.len(),
            v == arg_views(args@),
            i <= n,
            forall|j: int| 0 <= j < i ==> v[j] != flag@,
        decreases n - i,
    {
        if str_equal(args[i].as_str(), flag) {
            proof {
                lemma_flag_position(v, flag@);
                assert(v[i as int] == flag@);
                assert(flag_position(v, flag@) == Some(i as int));
            }
            if i + 1 < n {
                return Some(args[i + 1].clone());
            } else {
                return None;
            }
        }
        i = i + 1;
    }
    proof { lemma_flag_position(v, flag@); }
    None
}

/// The value given with `--node`.
pub fn explicit_node(args: &[String]) -> (r: Option<String>)
    ensures
        match r {
            Some(v) => flag_value_spec(arg_views(args@), "--node"@) == Some(v@),
            None => flag_value_spec(arg_views(args@), "--node"@) is None,
        },
{
    flag_value(args, "--node")
}

/// The value given with `--bridge`.
pub fn explicit_bridge(args: &[String]) -> (r: Option<String>)
    ensures
        match r {
            Some(v) => flag_value_spec(arg_views(args@), "--bridge"@) == Some(v@),
            None => flag_value_spec(arg_views(args@), "--bridge"@) is None,
        },
{
    flag_value(args, "--bridge")
}

/// The value given with `--name`.
pub fn explicit_name(args: &[String]) -> (r: Option<String>)
    ensures
        match r {
            Some(v) => flag_value_spec(arg_views(args@), "--name"@) == Some(v@),
            None => flag_value_spec(arg_views(args@), "--name"@) is None,
        },
{
    flag_value(args, "--name")
}

/// The value given with `--network`.
pub fn explicit_network(args: &[String]) -> (r: Option<String>)
    ensures
        match r {
            Some(v) => flag_value_spec(arg_views(args@), "--network"@) == Some(v@),
            None => flag_value_spec(arg_views(args@), "--network"@) is None,
        },
{
    flag_value(args, "--network")
}

/// Whether `--name`, `--bridge` or `--network` is given.
pub fn has_explicit_scope(args: &[String]) -> (r: bool)
    ensures
        r == (flag_value_spec(arg_views(args@), "--name"@) is Some || flag_value_spec(arg_views(args@), "--bridge"@) is Some
            || flag_value_spec(arg_views(args@), "--network"@) is Some),
{
    explicit_name(args).is_some() || explicit_bridge(args).is_some() || explicit_network(args).is_some()
}

/// Flags that take a value: `--name`, `--bridge`, `--network`, `--node`.
pub open spec fn is_valued_flag(a: Seq<char>) -> bool {
    a == "--name"@ || a == "--bridge"@ || a == "--network"@ || a == "--node"@
}

fn valued_flag(a: &str) -> (r: bool)
    ensures
        r == is_valued_flag(a@),
{
    str_equal(a, "--name") || str_equal(a, "--bridge") || str_equal(a, "--network") || str_equal(a, "--node")
}

/// Position, from `i` on, of the first argument that is neither a flag nor
/// a flag's value.
pub open spec fn command_position_from(args: Seq<Seq<char>>, i: int) -> Option<int>
    decreases args.len() - i,
{
    if i < 0 || i >= args.len() {
        None
    } else if is_valued_flag(args[i]) {
        command_position_from(args, if i + 2 <= args.len() { i + 2 } else { args.len() as int })
    } else if args[i] == "--i-understand"@ {
        command_position_from(args, i + 1)
    } else {
        Some(i)
    }
}

/// The position of the command word among the arguments.
pub fn first_command_index(args: &[String]) -> (r: Option<usize>)
    ensures
        match r {
            Some(i) => command_position_from(arg_views(args@), 0) == Some(i as int),
            None => command_position_from(arg_views(args@), 0) is None,
        },
{
    let ghost v = arg_views(args@);
    let n = args.len();
    let mut i: usize = 0;
    while i < n
        invariant
            n == args@.len(),
            v == arg_views(args@),
            i <= n,
            command_position_from(v, 0) == command_position_from(v, i as int),
        decreases n - i,
    {
        if valued_flag(args[i].as_str()) {
            i = if i + 1 < n { i + 2 } else { n };
        } else if str_equal(args[i].as_str(), "--i-understand") {
            i = i + 1;
        } else {
            return Some(i);
        }
    }
    None
}

/// The arguments that are neither flags nor flags' values, from `i` on.
pub open spec fn operation_args_from(args: Seq<Seq<char>>, i: int) -> Seq<Seq<char>>
    decreases args.len() - i,
{
    if i < 0 || i >= args.len() {
        Seq::empty()
    } else if is_valued_flag(args[i]) {
        operation_args_from(args, if i + 2 <= args.len() { i + 2 } else { args.len() as int })
    } else if args[i] == "--i-understand"@ {
        operation_args_from(args, i + 1)
    } else {
        seq![args[i]] + operation_args_from(args, i + 1)
    }
}

/// The command's own arguments: everything but flags and their values.
pub fn operation_args(args: &[String]) -> (r: Vec<String>)
    ensures
        r.deep_view() == operation_args_from(arg_views(args@), 0),
{
    let ghost v = arg_views(args@);
    let mut out: Vec<String> = Vec::new();
    let n = args.len();
    let mut i: usize = 0;
    while i < n
        invariant
            n == args@.len(),
            v == arg_views(args@),
            i <= n,
            operation_args_from(v, 0) == out.deep_view() + operation_args_from(v, i as int),
        decreases n - i,
    {
        if valued_flag(args[i].as_str()) {
            i = if i + 1 < n { i + 2 } else { n };
        } else if str_equal(args[i].as_str(), "--i-understand") {
            i = i + 1;
        } else {
            let ghost before = out.deep_view();
            out.push(args[i].clone());
            proof {
                assert(out.deep_view() =~= before.push(v[i as int]));
                assert(before + operation_args_from(v, i as int) =~= out.deep_view() + operation_args_from(v, i + 1));
            }
            i = i + 1;
        }
    }
    proof { assert(out.deep_view() + operation_args_from(v, n as int) =~= out.deep_view()); }
    out
}

/// Reading `--name`, `--bridge` and `--network` from `i` on, over the
/// context so far: the last value of each wins, a flag without a value is an
/// error, a name given without a bridge brings its default bridge, and
/// `--network` names the bridge and, unless `--name` is given, the
/// facility the bridge belongs to.
pub open spec fn scan_context(args: Seq<Seq<char>>, i: int, name: Seq<char>, bridge: Seq<char>, name_set: bool, bridge_set: bool) -> Result<ContextView, Seq<char>>
    decreases args.len() - i,
{
    if i < 0 || i >= args.len() {
        if name_set && !bridge_set {
            Ok(ContextView { name, bridge: default_bridge_spec(name) })
        } else {
            Ok(ContextView { name, bridge })
        }
    } else if args[i] == "--name"@ {
        if i + 1 < args.len() {
            scan_context(args, i + 2, args[i + 1], bridge, true, bridge_set)
        } else {
            Err("--name requires a value"@)
        }
    } else if args[i] == "--bridge"@ {
        if i + 1 < args.len() {
            scan_context(args, i + 2, name, args[i + 1], name_set, true)
        } else {
            Err("--bridge requires a value"@)
        }
    } else if args[i] == "--network"@ {
        if i + 1 < args.len() {
            scan_context(
                args,
                i + 2,
                if name_set { name } else { facility_from_bridge_spec(args[i + 1]) },
                args[i + 1],
                name_set,
                true,
            )
        } else {
            Err("--network requires a value"@)
        }
    } else if args[i] == "--node"@ {
        scan_context(args, if i + 2 <= args.len() { i + 2 } else { args.len() as int }, name, bridge, name_set, bridge_set)
    } else {
        scan_context(args, i + 1, name, bridge, name_set, bridge_set)
    }
}

/// The context the arguments select over `base` (the saved one); the error
/// is the message for a flag given without its value.
pub fn context_from_args(base: FacilityContext, args: &[String]) -> (r: Result<FacilityContext, String>)
    ensures
        match r {
            Ok(c) => scan_context(arg_views(args@), 0, base@.name, base@.bridge, false, false) == Ok::<ContextView, Seq<char>>(c@),
            Err(m) => scan_context(arg_views(args@), 0, base@.name, base@.bridge, false, false) == Err::<ContextView, Seq<char>>(m@),
        },
{
    let ghost v = arg_views(args@);
    let mut name = base.name;
    let mut bridge = base.bridge;
    let mut name_set = false;
    let mut bridge_set = false;
    let n = args.len();
    let mut i: usize = 0;
    while i < n
        invariant
            n == args@.len(),
            v == arg_views(args@),
            i <= n,
            scan_context(v, 0, base@.name, base@.bridge, false, false) == scan_context(v, i as int, name@, bridge@, name_set, bridge_set),
        decreases n - i,
    {
        if str_equal(args[i].as_str(), "--name") {
            if i + 1 < n {
                name = args[i + 1].clone();
                name_set = true;
                i = i + 2;
            } else {
                return Err(owned("--name requires a value"));
            }
        } else if str_equal(args[i].as_str(), "--bridge") {
            if i + 1 < n {
                bridge = args[i + 1].clone();
                bridge_set = true;
                i = i + 2;
            } else {
                return Err(owned("--bridge requires a value"));
            }
        } else if str_equal(args[i].as_str(), "--network") {
            if i + 1 < n {
                if !name_set {
                    name = crate::commands::facility_from_bridge(args[i + 1].as_str());
                }
                bridge = args[i + 1].clone();
                bridge_set = true;
                i = i + 2;
            } else {
                return Err(owned("--network requires a value"));
            }
        } else if str_equal(args[i].as_str(), "--node") {
            i = if i + 1 < n { i + 2 } else { n };
        } else {
            i = i + 1;
        }
    }
    if name_set && !bridge_set {
        bridge = default_bridge_for_name(name.as_str());
    }
    Ok(FacilityContext { name, bridge })
}

/// `--name <name> --bridge <bridge>`.
pub fn args_with_context(name: &str, bridge: &str) -> (r: Vec<String>)
    ensures
        r.deep_view() == seq!["--name"@, name@, "--bridge"@, bridge@],
{
    let r = vec![owned("--name"), owned(name), owned("--bridge"), owned(bridge)];
    proof { assert(r.deep_view() =~= seq!["--name"@, name@, "--bridge"@, bridge@]); }
    r
}

/// Under a bound of at least 3 on all slots, the next slots stay within it.
pub proof fn lemma_max_slot_bounds(s: StateView, bound: int)
    requires
        slots_below(s, bound),
        bound >= 3,
    ensures
        next_node_slot_spec(s) <= bound,
        next_pod_slot_spec(s) <= bound,
{
    lemma_max_node_slot_bound(s.nodes, bound);
    lemma_max_pod_slot_bound(s.pods, bound);
}

} // verus!