//! Decisions of the command line that sit between reading its inputs and
//! running plans: the command word, bridge names, refusals and hints, the
//! states `status` gathers, and reading what `ip` lists.

use vstd::prelude::*;

use crate::cli::{
    arg_views, command_position_from, default_bridge_for_name, explicit_network, default_bridge_spec, default_node_for_state,
    default_node_spec, empty_state, empty_state_view, explicit_bridge, explicit_name,
    flag_value_spec, remember_node, remember_node_spec, remember_pod, remember_pod_spec,
    slots_below, state_index, state_position, states_view, ContextView, FacilityContext,
    FacilityState, StateView,
};
use crate::parse::{lines_of, split_words, strip_prefix_of, strip_prefix_spec, text_lines, words_of};
use crate::text::{describe, join_strings, join_with, owned, push_ticked, str_equal, ticked};

verus! {

/// The facility a bridge belongs to: the name after `vf-`, else after `vf`
/// when something follows, else the bridge name itself.
pub open spec fn facility_from_bridge_spec(bridge: Seq<char>) -> Seq<char> {
    match strip_prefix_spec(bridge, "vf-"@) {
        Some(rest) => rest,
        None => match strip_prefix_spec(bridge, "vf"@) {
            Some(rest) => if rest.len() > 0 {
                rest
            } else {
                bridge
            },
            None => bridge,
        },
    }
}

pub fn facility_from_bridge(bridge: &str) -> (r: String)
    ensures
        r@ == facility_from_bridge_spec(bridge@),
{
    match strip_prefix_of(bridge, "vf-") {
        Some(rest) => return rest,
        None => {},
    }
    match strip_prefix_of(bridge, "vf") {
        Some(rest) => {
            if rest.unicode_len() > 0 {
                return rest;
            }
        },
        None => {},
    }
    owned(bridge)
}

/// The command words, which cannot name a bridge.
pub open spec fn is_reserved_word_spec(w: Seq<char>) -> bool {
    ||| w == "plan"@ || w == "up"@ || w == "create"@ || w == "delete"@ || w == "status"@
    ||| w == "exec"@ || w == "ping"@ || w == "down"@ || w == "use"@ || w == "current"@
    ||| w == "workloads"@ || w == "bootstrap"@ || w == "smoke"@ || w == "cleanup"@
    ||| w == "check"@ || w == "apply"@ || w == "help"@
}

pub fn is_reserved_word(name: &str) -> (r: bool)
    ensures
        r == is_reserved_word_spec(name@),
{
    str_equal(name, "plan") || str_equal(name, "up") || str_equal(name, "create") || str_equal(name, "delete")
        || str_equal(name, "status") || str_equal(name, "exec") || str_equal(name, "ping") || str_equal(name, "down")
        || str_equal(name, "use") || str_equal(name, "current") || str_equal(name, "workloads")
        || str_equal(name, "bootstrap") || str_equal(name, "smoke") || str_equal(name, "cleanup")
        || str_equal(name, "check") || str_equal(name, "apply") || str_equal(name, "help")
}

/// Why a new bridge name is refused: a command word, or no `vf-` prefix.
pub open spec fn new_bridge_refusal(bridge: Seq<char>) -> Option<Seq<char>> {
    if is_reserved_word_spec(bridge) {
        Some("invalid bridge name "@ + ticked(bridge) + ": command words cannot be used as resource names"@)
    } else if strip_prefix_spec(bridge, "vf-"@) is None {
        Some("invalid bridge name "@ + ticked(bridge) + ": bridge names must start with `vf-`, for example `vf-lab1`"@)
    } else {
        None
    }
}

/// The message refusing a new bridge name, if it is refused.
pub fn validate_new_bridge_name(bridge: &str) -> (r: Option<String>)
    ensures
        match r {
            Some(m) => new_bridge_refusal(bridge@) == Some(m@),
            None => new_bridge_refusal(bridge@) is None,
        },
{
    if is_reserved_word(bridge) {
        let mut m = describe("invalid bridge name ", bridge);
        m.append(": command words cannot be used as resource names");
        return Some(m);
    }
    if strip_prefix_of(bridge, "vf-").is_none() {
        let mut m = describe("invalid bridge name ", bridge);
        m.append(": bridge names must start with `vf-`, for example `vf-lab1`");
        return Some(m);
    }
    None
}

/// The message for arguments beyond the one target a command takes.
pub open spec fn extra_args_text(command: Seq<char>, extra: Seq<Seq<char>>) -> Seq<char> {
    command + " accepts one target only; unexpected extra arguments: "@ + join_with(extra, " "@)
}

pub fn extra_args_message(command: &str, extra: &Vec<String>) -> (r: String)
    ensures
        r@ == extra_args_text(command@, extra.deep_view()),
{
    let mut m = owned(command);
    m.append(" accepts one target only; unexpected extra arguments: ");
    let joined = join_strings(extra, " ");
    m.append(joined.as_str());
    proof { assert(m@ =~= extra_args_text(command@, extra.deep_view())); }
    m
}

pub(crate) fn tail_from(v: &Vec<String>, k: usize) -> (r: Vec<String>)
    requires
        k <= v@.len(),
    ensures
        r.deep_view() == v.deep_view().skip(k as int),
{
    let mut r: Vec<String> = Vec::new();
    let n = v.len();
    let mut i: usize = k;
    while i < n
        invariant
            n == v@.len(),
            k <= i <= n,
            r.deep_view() == v.deep_view().subrange(k as int, i as int),
        decreases n - i,
    {
        let ghost before = r.deep_view();
        r.push(v[i].clone());
        proof {
            assert(r.deep_view() =~= before.push(v.deep_view()[i as int]));
            assert(r.deep_view() =~= v.deep_view().subrange(k as int, i + 1));
        }
        i = i + 1;
    }
    proof { assert(v.deep_view().subrange(k as int, n as int) =~= v.deep_view().skip(k as int)); }
    r
}

/// Why a command's arguments are refused when it takes exactly
/// `expected_len` of them: too few, or extra ones.
pub open spec fn exact_args_refusal(op: Seq<Seq<char>>, command: Seq<char>, expected_len: nat) -> Option<Seq<char>> {
    if op.len() < expected_len {
        Some(command + " requires a target name"@)
    } else if op.len() > expected_len {
        Some(extra_args_text(command, op.skip(expected_len as int)))
    } else {
        None
    }
}

/// The message refusing the arguments, if they are refused.
pub fn require_exact_args(op_args: &Vec<String>, command: &str, expected_len: usize) -> (r: Option<String>)
    ensures
        match r {
            Some(m) => exact_args_refusal(op_args.deep_view(), command@, expected_len as nat) == Some(m@),
            None => exact_args_refusal(op_args.deep_view(), command@, expected_len as nat) is None,
        },
{
    if op_args.len() < expected_len {
        let mut m = owned(command);
        m.append(" requires a target name");
        return Some(m);
    }
    if op_args.len() > expected_len {
        let extra = tail_from(op_args, expected_len);
        return Some(extra_args_message(command, &extra));
    }
    None
}

/// The context a `create bridge` or `delete bridge` acts on: refused with a
/// message when more than one bridge is named; else the bridge named after
/// the word `bridge` or with `--bridge`, with the facility from `--name` or
/// from the bridge's name; none when no bridge is named.
pub open spec fn bridge_context_spec(args: Seq<Seq<char>>, op: Seq<Seq<char>>, action: Seq<char>) -> Result<Option<ContextView>, Seq<char>> {
    if op.len() > 2 {
        Err(extra_args_text(action + " bridge"@, op.skip(2)))
    } else if op.len() == 2 {
        Ok(Some(ContextView {
            name: match flag_value_spec(args, "--name"@) {
                Some(n) => n,
                None => facility_from_bridge_spec(op[1]),
            },
            bridge: op[1],
        }))
    } else {
        match flag_value_spec(args, "--bridge"@) {
            Some(b) => Ok(Some(ContextView {
                name: match flag_value_spec(args, "--name"@) {
                    Some(n) => n,
                    None => facility_from_bridge_spec(b),
                },
                bridge: b,
            })),
            None => match flag_value_spec(args, "--network"@) {
                Some(b) => Ok(Some(ContextView {
                    name: match flag_value_spec(args, "--name"@) {
                        Some(n) => n,
                        None => facility_from_bridge_spec(b),
                    },
                    bridge: b,
                })),
                None => Ok(None),
            },
        }
    }
}

pub fn bridge_context_choice(args: &[String], op_args: &Vec<String>, action: &str) -> (r: Result<Option<FacilityContext>, String>)
    ensures
        match r {
            Ok(Some(c)) => bridge_context_spec(arg_views(args@), op_args.deep_view(), action@) == Ok::<Option<ContextView>, Seq<char>>(Some(c@)),
            Ok(None) => bridge_context_spec(arg_views(args@), op_args.deep_view(), action@) == Ok::<Option<ContextView>, Seq<char>>(None),
            Err(m) => bridge_context_spec(arg_views(args@), op_args.deep_view(), action@) == Err::<Option<ContextView>, Seq<char>>(m@),
        },
{
    if op_args.len() > 2 {
        let mut command = owned(action);
        command.append(" bridge");
        let extra = tail_from(op_args, 2);
        return Err(extra_args_message(command.as_str(), &extra));
    }
    if op_args.len() == 2 {
        let bridge = op_args[1].clone();
        let name = match explicit_name(args) {
            Some(n) => n,
            None => facility_from_bridge(bridge.as_str()),
        };
        return Ok(Some(FacilityContext { name, bridge }));
    }
    match explicit_bridge(args) {
        Some(bridge) => {
            let name = match explicit_name(args) {
                Some(n) => n,
                None => facility_from_bridge(bridge.as_str()),
            };
            Ok(Some(FacilityContext { name, bridge }))
        },
        None => match explicit_network(args) {
            Some(bridge) => {
                let name = match explicit_name(args) {
                    Some(n) => n,
                    None => facility_from_bridge(bridge.as_str()),
                };
                Ok(Some(FacilityContext { name, bridge }))
            },
            None => Ok(None),
        },
    }
}

/// What `create` or `delete` acts on: the first target word, else the
/// network (the bridge) when `--network` is given; nothing otherwise.
pub open spec fn resource_target_spec(args: Seq<Seq<char>>, op: Seq<Seq<char>>) -> Option<Seq<char>> {
    if op.len() > 0 {
        Some(op[0])
    } else if flag_value_spec(args, "--network"@) is Some {
        Some("bridge"@)
    } else {
        None
    }
}

pub fn resource_target(args: &[String], op_args: &Vec<String>) -> (r: Option<String>)
    ensures
        match r {
            Some(t) => resource_target_spec(arg_views(args@), op_args.deep_view()) == Some(t@),
            None => resource_target_spec(arg_views(args@), op_args.deep_view()) is None,
        },
{
    if op_args.len() > 0 {
        proof { assert(op_args.deep_view()[0] == op_args@[0]@); }
        return Some(op_args[0].clone());
    }
    if explicit_network(args).is_some() {
        return Some(owned("bridge"));
    }
    None
}

/// The bridge suggested when none is named: the default bridge of
/// `--name`, else the saved context's bridge, else `vf-br0`.
pub open spec fn suggested_bridge_spec(args: Seq<Seq<char>>, saved: Option<ContextView>) -> Seq<char> {
    match flag_value_spec(args, "--name"@) {
        Some(n) => default_bridge_spec(n),
        None => match saved {
            Some(c) => c.bridge,
            None => "vf-br0"@,
        },
    }
}

/// An optional context taken by its view.
pub open spec fn context_option_view(o: Option<FacilityContext>) -> Option<ContextView> {
    match o {
        Some(c) => Some(c@),
        None => None,
    }
}

/// The hint printed when a bridge command names no bridge.
pub open spec fn bridge_hint_spec(args: Seq<Seq<char>>, saved: Option<ContextView>, action: Seq<char>) -> Seq<Seq<char>> {
    let s = suggested_bridge_spec(args, saved);
    let lines = seq![
        "bridge name is required."@,
        "suggested: "@ + s,
        "example: cargo run -- "@ + action + " bridge "@ + s,
    ];
    if s != "vf-lab1"@ {
        lines.push("example: cargo run -- "@ + action + " bridge vf-lab1"@)
    } else {
        lines
    }
}

pub fn bridge_hint_lines(args: &[String], saved: Option<FacilityContext>, action: &str) -> (r: Vec<String>)
    ensures
        r.deep_view() == bridge_hint_spec(arg_views(args@), context_option_view(saved), action@),
{
    let ghost saved_view = context_option_view(saved);
    let suggested = match explicit_name(args) {
        Some(n) => default_bridge_for_name(n.as_str()),
        None => match saved {
            Some(c) => c.bridge,
            None => owned("vf-br0"),
        },
    };
    proof { assert(suggested@ == suggested_bridge_spec(arg_views(args@), saved_view)); }
    let mut second = owned("suggested: ");
    second.append(suggested.as_str());
    let mut third = owned("example: cargo run -- ");
    third.append(action);
    third.append(" bridge ");
    third.append(suggested.as_str());
    let mut lines = vec![owned("bridge name is required."), second, third];
    proof {
        assert(lines.deep_view() =~= seq![
            "bridge name is required."@,
            "suggested: "@ + suggested@,
            "example: cargo run -- "@ + action@ + " bridge "@ + suggested@,
        ]);
    }
    if !str_equal(suggested.as_str(), "vf-lab1") {
        let mut fourth = owned("example: cargo run -- ");
        fourth.append(action);
        fourth.append(" bridge vf-lab1");
        let ghost before = lines.deep_view();
        lines.push(fourth);
        proof { assert(lines.deep_view() =~= before.push(fourth@)); }
    }
    lines
}

/// The prefixes of the node and pod namespaces of a facility.
pub fn facility_netns_prefixes(facility: &str) -> (r: (String, String))
    ensures
        r.0@ == "vf-"@ + facility@ + "-node-"@,
        r.1@ == "vf-"@ + facility@ + "-pod-"@,
{
    let mut a = owned("vf-");
    a.append(facility);
    a.append("-node-");
    let mut b = owned("vf-");
    b.append(facility);
    b.append("-pod-");
    proof {
        assert(a@ =~= "vf-"@ + facility@ + "-node-"@);
        assert(b@ =~= "vf-"@ + facility@ + "-pod-"@);
    }
    (a, b)
}

/// The states with one for `c`'s facility added, empty, when there is none.
pub open spec fn ensure_state_spec(states: Seq<StateView>, c: ContextView) -> Seq<StateView> {
    if state_position(states, c.name) is None {
        states.push(empty_state_view(c))
    } else {
        states
    }
}

pub fn ensure_status_state(states: &mut Vec<FacilityState>, context: FacilityContext)
    ensures
        states_view(final(states)@) == ensure_state_spec(states_view(old(states)@), context@),
{
    if state_index(states.as_slice(), context.name.as_str()).is_none() {
        let ghost c = context@;
        states.push(empty_state(context));
        proof { assert(states_view(states@) =~= states_view(old(states)@).push(empty_state_view(c))); }
    }
}

/// The states after adding one for each listed bridge that starts with `vf-`.
pub open spec fn bridge_states_spec(states: Seq<StateView>, bridges: Seq<Seq<char>>) -> Seq<StateView>
    decreases bridges.len(),
{
    if bridges.len() == 0 {
        states
    } else {
        let before = bridge_states_spec(states, bridges.drop_last());
        let b = bridges.last();
        if strip_prefix_spec(b, "vf-"@) is Some {
            ensure_state_spec(before, ContextView { name: facility_from_bridge_spec(b), bridge: b })
        } else {
            before
        }
    }
}

pub fn add_bridge_states(states: &mut Vec<FacilityState>, bridges: &Vec<String>)
    ensures
        states_view(final(states)@) == bridge_states_spec(states_view(old(states)@), bridges.deep_view()),
{
    let n = bridges.len();
    let mut i: usize = 0;
    while i < n
        invariant
            n == bridges@.len(),
            i <= n,
            states_view(states@) == bridge_states_spec(states_view(old(states)@), bridges.deep_view().take(i as int)),
        decreases n - i,
    {
        proof {
            assert(bridges.deep_view().take(i + 1).drop_last() =~= bridges.deep_view().take(i as int));
            assert(bridges.deep_view().take(i + 1).last() == bridges@[i as int]@);
        }
        let bridge = &bridges[i];
        if strip_prefix_of(bridge.as_str(), "vf-").is_some() {
            let context = FacilityContext { name: facility_from_bridge(bridge.as_str()), bridge: bridge.clone() };
            ensure_status_state(states, context);
        }
        i = i + 1;
    }
    proof { assert(bridges.deep_view().take(n as int) =~= bridges.deep_view()); }
}

/// The state after taking in the listed namespaces of its facility: each
/// node namespace remembers its node, each pod namespace its pod on the
/// default node.
pub open spec fn absorb_spec(s: StateView, netns: Seq<Seq<char>>) -> StateView
    decreases netns.len(),
{
    if netns.len() == 0 {
        s
    } else {
        let before = absorb_spec(s, netns.drop_last());
        let ns = netns.last();
        let node_prefix = "vf-"@ + before.context.name + "-node-"@;
        let pod_prefix = "vf-"@ + before.context.name + "-pod-"@;
        match strip_prefix_spec(ns, node_prefix) {
            Some(node) => remember_node_spec(before, node),
            None => match strip_prefix_spec(ns, pod_prefix) {
                Some(pod) => remember_pod_spec(before, pod, default_node_spec(before)),
                None => before,
            },
        }
    }
}

proof fn lemma_remember_keeps_bound(s: StateView, name: Seq<char>, node: Seq<char>, bound: int)
    requires
        slots_below(s, bound),
        bound >= 3,
    ensures
        slots_below(remember_node_spec(s, name), bound + 1),
        slots_below(remember_pod_spec(s, name, node), bound + 1),
        remember_node_spec(s, name).context == s.context,
        remember_pod_spec(s, name, node).context == s.context,
{
    crate::cli::lemma_max_slot_bounds(s, bound);
    let r = remember_node_spec(s, name);
    assert forall|i: int| 0 <= i < r.nodes.len() implies (#[trigger] r.nodes[i]).slot < bound + 1 by {
        if i < s.nodes.len() {
            assert(r.nodes[i] == s.nodes[i]);
        }
    }
    let q = remember_pod_spec(s, name, node);
    assert forall|i: int| 0 <= i < q.pods.len() implies (#[trigger] q.pods[i]).slot < bound + 1 by {
        if i < s.pods.len() {
            assert(q.pods[i] == s.pods[i]);
        }
    }
}

proof fn lemma_facility_count_step(v: Seq<Seq<char>>, f: Seq<char>, i: int)
    requires
        0 <= i < v.len(),
    ensures
        facility_namespaces(v.take(i + 1), f).len() == facility_namespaces(v.take(i), f).len()
            + (if is_facility_namespace(v[i], f) { 1int } else { 0int }),
{
    reveal_with_fuel(Seq::<Seq<char>>::filter, 1);
    assert(v.take(i + 1).drop_last() =~= v.take(i));
    assert(v.take(i + 1).last() == v[i]);
}

proof fn lemma_facility_count_prefix(v: Seq<Seq<char>>, f: Seq<char>, i: int)
    requires
        0 <= i <= v.len(),
    ensures
        facility_namespaces(v.take(i), f).len() <= facility_namespaces(v, f).len(),
    decreases v.len() - i,
{
    if i < v.len() {
        lemma_facility_count_step(v, f, i);
        lemma_facility_count_prefix(v, f, i + 1);
    } else {
        assert(v.take(i) =~= v);
    }
}

/// Takes the listed namespaces into a facility's state. Each namespace of
/// the facility may add a slot one past the largest, so the slots must stay
/// below the largest `usize` by the number of those namespaces.
pub fn absorb_namespaces(state: &mut FacilityState, netns: &Vec<String>)
    requires
        facility_namespaces(netns.deep_view(), old(state)@.context.name).len() + 3 <= usize::MAX,
        slots_below(
            old(state)@,
            usize::MAX - facility_namespaces(netns.deep_view(), old(state)@.context.name).len(),
        ),
    ensures
        final(state)@ == absorb_spec(old(state)@, netns.deep_view()),
{
    let ghost v = netns.deep_view();
    let ghost f = state@.context.name;
    let ghost k = facility_namespaces(v, f).len();
    let n = netns.len();
    let mut i: usize = 0;
    while i < n
        invariant
            n == netns@.len(),
            v == netns.deep_view(),
            f == old(state)@.context.name,
            k == facility_namespaces(v, f).len(),
            k + 3 <= usize::MAX,
            i <= n,
            state@ == absorb_spec(old(state)@, v.take(i as int)),
            state@.context == old(state)@.context,
            facility_namespaces(v.take(i as int), f).len() <= k,
            slots_below(state@, usize::MAX - (k - facility_namespaces(v.take(i as int), f).len())),
        decreases n - i,
    {
        proof {
            assert(v.take(i + 1).drop_last() =~= v.take(i as int));
            assert(v.take(i + 1).last() == netns@[i as int]@);
            assert(v[i as int] == netns@[i as int]@);
            lemma_facility_count_step(v, f, i as int);
            lemma_facility_count_prefix(v, f, i + 1);
        }
        let ghost m = facility_namespaces(v.take(i as int), f).len();
        let ghost bound = usize::MAX - (k - m);
        let (node_prefix, pod_prefix) = facility_netns_prefixes(state.context.name.as_str());
        let ghost before = state@;
        match strip_prefix_of(netns[i].as_str(), node_prefix.as_str()) {
            Some(node) => {
                proof { lemma_remember_keeps_bound(before, node@, Seq::empty(), bound); }
                remember_node(state, node.as_str());
            },
            None => match strip_prefix_of(netns[i].as_str(), pod_prefix.as_str()) {
                Some(pod) => {
                    let node = default_node_for_state(state);
                    proof { lemma_remember_keeps_bound(before, pod@, node@, bound); }
                    remember_pod(state, pod.as_str(), node.as_str());
                },
                None => {},
            },
        }
        i = i + 1;
    }
    proof { assert(v.take(n as int) =~= v); }
}

/// Where the command word stands: the first argument that is neither a
/// flag nor a flag's value, else the first argument.
pub open spec fn command_index_spec(args: Seq<Seq<char>>) -> int {
    match command_position_from(args, 0) {
        Some(i) => i,
        None => 0,
    }
}

/// The command word, `plan` when there is none.
pub open spec fn command_word_spec(args: Seq<Seq<char>>) -> Seq<char> {
    if command_index_spec(args) < args.len() {
        args[command_index_spec(args)]
    } else {
        "plan"@
    }
}

/// The arguments without the command word.
pub open spec fn command_args_spec(args: Seq<Seq<char>>) -> Seq<Seq<char>> {
    let i = command_index_spec(args);
    if i < args.len() {
        args.take(i) + args.skip(i + 1)
    } else {
        Seq::empty()
    }
}

/// Splits the arguments into the command word and the others.
pub fn split_command(args: &[String]) -> (r: (String, Vec<String>))
    ensures
        r.0@ == command_word_spec(arg_views(args@)),
        r.1.deep_view() == command_args_spec(arg_views(args@)),
{
    let ghost v = arg_views(args@);
    let i = match crate::cli::first_command_index(args) {
        Some(i) => i,
        None => 0,
    };
    let n = args.len();
    if i >= n {
        let none: Vec<String> = Vec::new();
        proof { assert(none.deep_view() =~= Seq::<Seq<char>>::empty()); }
        return (owned("plan"), none);
    }
    let mut rest: Vec<String> = Vec::new();
    let mut j: usize = 0;
    while j < n
        invariant
            n == args@.len(),
            v == arg_views(args@),
            i < n,
            i == command_index_spec(v),
            j <= n,
            rest.deep_view() == (if j <= i { v.take(j as int) } else { v.take(i as int) + v.subrange(i + 1, j as int) }),
        decreases n - j,
    {
        if j != i {
            let ghost before = rest.deep_view();
            rest.push(args[j].clone());
            proof {
                assert(rest.deep_view() =~= before.push(v[j as int]));
                if j < i {
                    assert(rest.deep_view() =~= v.take(j + 1));
                } else {
                    assert(rest.deep_view() =~= v.take(i as int) + v.subrange(i + 1, j + 1));
                }
            }
        } else {
            proof { assert(v.take(i as int) + v.subrange(i + 1, i + 1) =~= v.take(i as int)); }
        }
        j = j + 1;
    }
    proof {
        assert(v.subrange(i + 1, n as int) =~= v.skip(i + 1));
        assert(args@[i as int]@ == v[i as int]);
    }
    (args[i].clone(), rest)
}

/// The listed namespaces of facility `facility`: those that start with its
/// node prefix or its pod prefix.
pub open spec fn facility_namespaces(netns: Seq<Seq<char>>, facility: Seq<char>) -> Seq<Seq<char>> {
    netns.filter(|n: Seq<char>| is_facility_namespace(n, facility))
}

/// `n` starts with the node prefix or the pod prefix of `facility`.
pub open spec fn is_facility_namespace(n: Seq<char>, facility: Seq<char>) -> bool {
    strip_prefix_spec(n, "vf-"@ + facility + "-node-"@) is Some || strip_prefix_spec(n, "vf-"@ + facility + "-pod-"@) is Some
}

/// Why a bridge cannot be deleted: namespaces of its facility remain.
pub open spec fn bridge_delete_refusal_spec(bridge: Seq<char>, facility: Seq<char>, netns: Seq<Seq<char>>) -> Option<Seq<char>> {
    let dependent = facility_namespaces(netns, facility);
    if dependent.len() == 0 {
        None
    } else {
        Some("cannot delete bridge "@ + ticked(bridge) + " while namespaces still exist: "@ + join_with(dependent, ", "@)
            + "\ndelete pods and nodes first, or run `cargo run -- down`"@)
    }
}

/// The refusal to delete bridge `bridge` of facility `facility` while the
/// listed namespaces include some of the facility's.
/// The listed namespaces of facility `facility`, in order.
pub fn namespaces_of_facility(netns: &Vec<String>, facility: &str) -> (r: Vec<String>)
    ensures
        r.deep_view() == facility_namespaces(netns.deep_view(), facility@),
{
    let (node_prefix, pod_prefix) = facility_netns_prefixes(facility);
    let ghost v = netns.deep_view();
    let ghost keep = |n: Seq<char>| is_facility_namespace(n, facility@);
    let mut dependent: Vec<String> = Vec::new();
    let n = netns.len();
    let mut i: usize = 0;
    while i < n
        invariant
            n == netns@.len(),
            v == netns.deep_view(),
            node_prefix@ == "vf-"@ + facility@ + "-node-"@,
            pod_prefix@ == "vf-"@ + facility@ + "-pod-"@,
            keep == (|n: Seq<char>| is_facility_namespace(n, facility@)),
            i <= n,
            dependent.deep_view() == v.take(i as int).filter(keep),
        decreases n - i,
    {
        proof {
            assert(v.take(i + 1).drop_last() =~= v.take(i as int));
            assert(v.take(i + 1).last() == netns@[i as int]@);
            reveal_with_fuel(Seq::<Seq<char>>::filter, 1);
        }
        let name = &netns[i];
        proof {
            assert(v.take(i + 1).filter(keep) == (if keep(v[i as int]) {
                v.take(i as int).filter(keep).push(v[i as int])
            } else {
                v.take(i as int).filter(keep)
            }));
            assert(v[i as int] == name@);
        }
        if strip_prefix_of(name.as_str(), node_prefix.as_str()).is_some()
            || strip_prefix_of(name.as_str(), pod_prefix.as_str()).is_some() {
            let ghost before = dependent.deep_view();
            dependent.push(name.clone());
            proof {
                assert(keep(name@));
                assert(dependent.deep_view() =~= before.push(name@));
            }
        } else {
            proof { assert(!keep(name@)); }
        }
        i = i + 1;
    }
    proof {
        assert(v.take(n as int) =~= v);
    }
    dependent
}

pub fn bridge_delete_refusal(bridge: &str, facility: &str, netns: &Vec<String>) -> (r: Option<String>)
    ensures
        r matches Some(m) ==> bridge_delete_refusal_spec(bridge@, facility@, netns.deep_view()) == Some(m@),
        r is None ==> bridge_delete_refusal_spec(bridge@, facility@, netns.deep_view()) is None,
{
    let ghost v = netns.deep_view();
    let dependent = namespaces_of_facility(netns, facility);
    if dependent.len() == 0 {
        return None;
    }
    let mut m = describe("cannot delete bridge ", bridge);
    m.append(" while namespaces still exist: ");
    let joined = join_strings(&dependent, ", ");
    m.append(joined.as_str());
    m.append("\ndelete pods and nodes first, or run `cargo run -- down`");
    proof {
        assert(m@ =~= bridge_delete_refusal_spec(bridge@, facility@, v)->0);
    }
    Some(m)
}

/// The message when the namespace of a node or pod is not listed.
pub open spec fn missing_namespace_spec(kind: Seq<char>, name: Seq<char>, netns: Seq<char>, listed: Seq<Seq<char>>) -> Option<Seq<char>> {
    if listed.contains(netns) {
        None
    } else {
        Some(kind + " "@ + ticked(name) + " does not exist: namespace "@ + ticked(netns) + " was not found"@)
    }
}

/// Refuses to act on a node or pod whose namespace `netns` is not listed.
pub fn missing_namespace(kind: &str, name: &str, netns: &str, listed: &Vec<String>) -> (r: Option<String>)
    ensures
        r matches Some(m) ==> missing_namespace_spec(kind@, name@, netns@, listed.deep_view()) == Some(m@),
        r is None ==> missing_namespace_spec(kind@, name@, netns@, listed.deep_view()) is None,
{
    if crate::status::is_listed(listed, netns) {
        return None;
    }
    let mut m = owned(kind);
    m.append(" ");
    push_ticked(&mut m, name);
    m.append(" does not exist: namespace ");
    push_ticked(&mut m, netns);
    m.append(" was not found");
    proof { assert(m@ =~= missing_namespace_spec(kind@, name@, netns@, listed.deep_view())->0); }
    Some(m)
}

/// The first word of each line that has one (`ip netns list`).
pub open spec fn first_words(lines: Seq<Seq<char>>) -> Seq<Seq<char>>
    decreases lines.len(),
{
    if lines.len() == 0 {
        Seq::empty()
    } else {
        let before = first_words(lines.drop_last());
        let w = words_of(lines.last());
        if w.len() > 0 {
            before.push(w[0])
        } else {
            before
        }
    }
}

/// The namespace names in the output of `ip netns list`: the first word of
/// each line.
pub fn parse_netns_list(output: &str) -> (r: Vec<String>)
    ensures
        r.deep_view() == first_words(text_lines(output@)),
{
    let lines = lines_of(output);
    let ghost lv = text_lines(output@);
    let mut names: Vec<String> = Vec::new();
    let n = lines.len();
    let mut i: usize = 0;
    while i < n
        invariant
            n == lines@.len(),
            lines.deep_view() == lv,
            i <= n,
            names.deep_view() == first_words(lv.take(i as int)),
        decreases n - i,
    {
        proof {
            assert(lv.take(i + 1).drop_last() =~= lv.take(i as int));
            assert(lv.take(i + 1).last() == lines@[i as int]@);
        }
        let words = split_words(lines[i].as_str());
        if words.len() > 0 {
            let ghost before = names.deep_view();
            proof { assert(words.deep_view()[0] == words@[0]@); }
            names.push(words[0].clone());
            proof { assert(names.deep_view() =~= before.push(words.deep_view()[0])); }
        }
        i = i + 1;
    }
    proof { assert(lv.take(n as int) =~= lv); }
    names
}

/// `s` without its trailing colons.
pub open spec fn trim_colons(s: Seq<char>) -> Seq<char>
    decreases s.len(),
{
    if s.len() > 0 && s.last() == ':' {
        trim_colons(s.drop_last())
    } else {
        s
    }
}

fn trim_colons_of(s: &str) -> (r: String)
    ensures
        r@ == trim_colons(s@),
{
    let mut k: usize = s.unicode_len();
    proof { assert(s@.take(k as int) =~= s@); }
    while k > 0
        invariant
            k <= s@.len(),
            trim_colons(s@.take(k as int)) == trim_colons(s@),
        ensures
            k <= s@.len(),
            trim_colons(s@.take(k as int)) == trim_colons(s@),
            k == 0 || s@[k - 1] != ':',
        decreases k,
    {
        if s.get_char(k - 1) != ':' {
            break;
        }
        proof {
            assert(s@.take(k as int).drop_last() =~= s@.take(k - 1));
            assert(s@.take(k as int).last() == s@[k - 1]);
        }
        k = k - 1;
    }
    proof {
        if k == 0 {
            assert(s@.take(0) =~= Seq::<char>::empty());
        } else {
            assert(s@.take(k as int).last() == s@[k - 1]);
        }
    }
    owned(s.substring_char(0, k))
}

/// The second word of each line that has one, without trailing colons
/// (`ip -o link show type bridge`).
pub open spec fn second_words(lines: Seq<Seq<char>>) -> Seq<Seq<char>>
    decreases lines.len(),
{
    if lines.len() == 0 {
        Seq::empty()
    } else {
        let before = second_words(lines.drop_last());
        let w = words_of(lines.last());
        if w.len() > 1 {
            before.push(trim_colons(w[1]))
        } else {
            before
        }
    }
}

/// The bridge names in the output of `ip -o link show type bridge`.
pub fn parse_bridge_list(output: &str) -> (r: Vec<String>)
    ensures
        r.deep_view() == second_words(text_lines(output@)),
{
    let lines = lines_of(output);
    let ghost lv = text_lines(output@);
    let mut names: Vec<String> = Vec::new();
    let n = lines.len();
    let mut i: usize = 0;
    while i < n
        invariant
            n == lines@.len(),
            lines.deep_view() == lv,
            i <= n,
            names.deep_view() == second_words(lv.take(i as int)),
        decreases n - i,
    {
        proof {
            assert(lv.take(i + 1).drop_last() =~= lv.take(i as int));
            assert(lv.take(i + 1).last() == lines@[i as int]@);
        }
        let words = split_words(lines[i].as_str());
        if words.len() > 1 {
            let ghost before = names.deep_view();
            proof { assert(words.deep_view()[1] == words@[1]@); }
            let name = trim_colons_of(words[1].as_str());
            names.push(name);
            proof { assert(names.deep_view() =~= before.push(trim_colons(words.deep_view()[1]))); }
        }
        i = i + 1;
    }
    proof { assert(lv.take(n as int) =~= lv); }
    names
}

/// Position of the first word `inet`.
pub open spec fn inet_position(words: Seq<Seq<char>>) -> Option<int>
    decreases words.len(),
{
    if words.len() == 0 {
        None
    } else {
        match inet_position(words.drop_last()) {
            Some(i) => Some(i),
            None => if words.last() == "inet"@ { Some(words.len() - 1) } else { None },
        }
    }
}

/// The word after the first `inet` of a line, if there is one.
pub open spec fn inet_value(words: Seq<Seq<char>>) -> Option<Seq<char>> {
    match inet_position(words) {
        Some(i) => if i + 1 < words.len() { Some(words[i + 1]) } else { None },
        None => None,
    }
}

/// The address of the first line that gives one
/// (`ip -o -4 addr show dev <bridge> scope global`).
pub open spec fn first_inet(lines: Seq<Seq<char>>) -> Option<Seq<char>>
    decreases lines.len(),
{
    if lines.len() == 0 {
        None
    } else {
        match first_inet(lines.drop_last()) {
            Some(c) => Some(c),
            None => inet_value(words_of(lines.last())),
        }
    }
}

proof fn lemma_inet_position(words: Seq<Seq<char>>)
    ensures
        inet_position(words) matches Some(i) ==> 0 <= i < words.len() && words[i] == "inet"@
            && forall|j: int| 0 <= j < i ==> words[j] != "inet"@,
        inet_position(words) is None ==> forall|j: int| 0 <= j < words.len() ==> words[j] != "inet"@,
    decreases words.len(),
{
    if words.len() > 0 {
        lemma_inet_position(words.drop_last());
        assert(forall|j: int| 0 <= j < words.len() - 1 ==> words.drop_last()[j] == words[j]);
    }
}

fn inet_of_line(line: &str) -> (r: Option<String>)
    ensures
        r matches Some(c) ==> inet_value(words_of(line@)) == Some(c@),
        r is None ==> inet_value(words_of(line@)) is None,
{
    let words = split_words(line);
    let ghost w = words.deep_view();
    proof { lemma_inet_position(w); }
    let n = words.len();
    let mut i: usize = 0;
    while i < n
        invariant
            n == words@.len(),
            w == words.deep_view(),
            w == words_of(line@),
            i <= n,
            forall|j: int| 0 <= j < i ==> w[j] != "inet"@,
        decreases n - i,
    {
        proof { assert(w[i as int] == words@[i as int]@); }
        if str_equal(words[i].as_str(), "inet") {
            proof {
                lemma_inet_position(w);
                match inet_position(w) {
                    Some(k) => {
                        if k > i {
                            assert(w[i as int] != "inet"@);
                        }
                        if k < i {
                            assert(w[k] != "inet"@);
                        }
                    },
                    None => {
                        assert(w[i as int] != "inet"@);
                    },
                }
                assert(inet_position(w) == Some(i as int));
            }
            if i + 1 < n {
                proof { assert(w[i + 1] == words@[i + 1]@); }
                return Some(words[i + 1].clone());
            }
            return None;
        }
        i = i + 1;
    }
    None
}

/// The bridge's address in the output of
/// `ip -o -4 addr show dev <bridge> scope global`: the word after `inet`
/// on the first line that has one.
pub fn parse_inet_cidr(output: &str) -> (r: Option<String>)
    ensures
        r matches Some(c) ==> first_inet(text_lines(output@)) == Some(c@),
        r is None ==> first_inet(text_lines(output@)) is None,
{
    let lines = lines_of(output);
    let ghost lv = text_lines(output@);
    let n = lines.len();
    let mut i: usize = 0;
    while i < n
        invariant
            n == lines@.len(),
            lines.deep_view() == lv,
            lv == text_lines(output@),
            i <= n,
            first_inet(lv.take(i as int)) is None,
        decreases n - i,
    {
        proof {
            assert(lv.take(i + 1).drop_last() =~= lv.take(i as int));
            assert(lv.take(i + 1).last() == lines@[i as int]@);
        }
        match inet_of_line(lines[i].as_str()) {
            Some(c) => {
                proof {
                    assert(first_inet(lv.take(i + 1)) == inet_value(words_of(lines@[i as int]@)));
                    assert(first_inet(lv.take(i + 1)) == Some(c@));
                    lemma_first_inet_prefix(lv, i + 1);
                }
                return Some(c);
            },
            None => {},
        }
        i = i + 1;
    }
    proof { assert(lv.take(n as int) =~= lv); }
    None
}

proof fn lemma_first_inet_prefix(lines: Seq<Seq<char>>, k: int)
    requires
        0 <= k <= lines.len(),
        first_inet(lines.take(k)) is Some,
    ensures
        first_inet(lines) == first_inet(lines.take(k)),
    decreases lines.len() - k,
{
    if k < lines.len() {
        assert(lines.take(k + 1).drop_last() =~= lines.take(k));
        assert(first_inet(lines.take(k + 1)) == first_inet(lines.take(k)));
        lemma_first_inet_prefix(lines, k + 1);
    } else {
        assert(lines.take(k) =~= lines);
    }
}

/// What the command word asks for.
#[derive(Debug, Clone, Copy, PartialEq, Eq, Structural)]
pub enum CliCommand {
    Plan,
    Workloads,
    Cleanup,
    Check,
    Bootstrap,
    Smoke,
    Up,
    Down,
    Status,
    Ping,
    Exec,
    Create,
    Delete,
    Use,
    Current,
    Apply,
    Help,
    Unknown,
}

/// The command a word names; `-h`, `--help` and `help` ask for the usage.
pub open spec fn command_spec(word: Seq<char>) -> CliCommand {
    if word == "plan"@ {
        CliCommand::Plan
    } else if word == "workloads"@ {
        CliCommand::Workloads
    } else if word == "cleanup"@ {
        CliCommand::Cleanup
    } else if word == "check"@ {
        CliCommand::Check
    } else if word == "bootstrap"@ {
        CliCommand::Bootstrap
    } else if word == "smoke"@ {
        CliCommand::Smoke
    } else if word == "up"@ {
        CliCommand::Up
    } else if word == "down"@ {
        CliCommand::Down
    } else if word == "status"@ {
        CliCommand::Status
    } else if word == "ping"@ {
        CliCommand::Ping
    } else if word == "exec"@ {
        CliCommand::Exec
    } else if word == "create"@ {
        CliCommand::Create
    } else if word == "delete"@ {
        CliCommand::Delete
    } else if word == "use"@ {
        CliCommand::Use
    } else if word == "current"@ {
        CliCommand::Current
    } else if word == "apply"@ {
        CliCommand::Apply
    } else if word == "-h"@ || word == "--help"@ || word == "help"@ {
        CliCommand::Help
    } else {
        CliCommand::Unknown
    }
}

pub fn command_of(word: &str) -> (r: CliCommand)
    ensures
        r == command_spec(word@),
{
    if str_equal(word, "plan") {
        CliCommand::Plan
    } else if str_equal(word, "workloads") {
        CliCommand::Workloads
    } else if str_equal(word, "cleanup") {
        CliCommand::Cleanup
    } else if str_equal(word, "check") {
        CliCommand::Check
    } else if str_equal(word, "bootstrap") {
        CliCommand::Bootstrap
    } else if str_equal(word, "smoke") {
        CliCommand::Smoke
    } else if str_equal(word, "up") {
        CliCommand::Up
    } else if str_equal(word, "down") {
        CliCommand::Down
    } else if str_equal(word, "status") {
        CliCommand::Status
    } else if str_equal(word, "ping") {
        CliCommand::Ping
    } else if str_equal(word, "exec") {
        CliCommand::Exec
    } else if str_equal(word, "create") {
        CliCommand::Create
    } else if str_equal(word, "delete") {
        CliCommand::Delete
    } else if str_equal(word, "use") {
        CliCommand::Use
    } else if str_equal(word, "current") {
        CliCommand::Current
    } else if str_equal(word, "apply") {
        CliCommand::Apply
    } else if str_equal(word, "-h") || str_equal(word, "--help") || str_equal(word, "help") {
        CliCommand::Help
    } else {
        CliCommand::Unknown
    }
}

} // verus!
