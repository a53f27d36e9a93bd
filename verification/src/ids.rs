//! The IDs under which `status` lists nodes and pods and under which
//! `delete` accepts them: the name, a hyphen and eight hexadecimal digits
//! of a hash of the kind, the facility and the name.

use vstd::prelude::*;
use vstd::utf8::encode_utf8;
use crate::cli::{FacilityState, StateView, NodeStateView, PodStateView};
use crate::facility::{name_hash, text_hash};
use crate::text::{owned, push_char, str_equal};

verus! {

/// The lower-case hexadecimal digit of `d < 16`.
pub open spec fn hex_digit(d: nat) -> char {
    if d < 10 {
        ((d + 48) as u32) as char
    } else {
        ((d + 87) as u32) as char
    }
}

/// The last `k` hexadecimal digits of `v`, with leading zeros.
pub open spec fn hex_text(v: nat, k: nat) -> Seq<char>
    decreases k,
{
    if k == 0 {
        Seq::empty()
    } else {
        hex_text(v / 16, (k - 1) as nat).push(hex_digit(v % 16))
    }
}

fn push_hex(s: &mut String, v: u32, k: usize)
    ensures
        final(s)@ == old(s)@ + hex_text(v as nat, k as nat),
    decreases k,
{
    if k == 0 {
        proof { assert(old(s)@ + hex_text(v as nat, 0) =~= old(s)@); }
        return;
    }
    push_hex(s, v / 16, k - 1);
    let d = v % 16;
    let c = if d < 10 { ((d + 48) as u8) as char } else { ((d + 87) as u8) as char };
    proof { assert(c == hex_digit(d as nat)); }
    push_char(s, c);
    proof {
        assert(final(s)@ =~= old(s)@ + hex_text(v as nat, k as nat));
    }
}

/// The ID of the node or pod `name` of facility `facility`: the name, `-`,
/// and the eight hexadecimal digits of the hash of `kind:facility:name`.
pub open spec fn item_id_spec(kind: Seq<char>, facility: Seq<char>, name: Seq<char>) -> Seq<char> {
    name + "-"@ + hex_text(name_hash(encode_utf8(kind + ":"@ + facility + ":"@ + name)) as nat, 8)
}

/// The ID of a node (`kind` is `node`) or pod (`pod`).
pub fn item_id(kind: &str, facility: &str, name: &str) -> (r: String)
    ensures
        r@ == item_id_spec(kind@, facility@, name@),
{
    let mut key = owned(kind);
    key.append(":");
    key.append(facility);
    key.append(":");
    key.append(name);
    let hash = text_hash(key.as_str());
    let mut id = owned(name);
    id.append("-");
    push_hex(&mut id, hash, 8);
    proof {
        assert(key@ =~= kind@ + ":"@ + facility@ + ":"@ + name@);
        assert(id@ =~= item_id_spec(kind@, facility@, name@));
    }
    id
}

/// Position of the first candidate whose ID is `arg`.
pub open spec fn id_position(kind: Seq<char>, facility: Seq<char>, candidates: Seq<Seq<char>>, arg: Seq<char>) -> Option<int>
    decreases candidates.len(),
{
    if candidates.len() == 0 {
        None
    } else {
        match id_position(kind, facility, candidates.drop_last(), arg) {
            Some(i) => Some(i),
            None => if item_id_spec(kind, facility, candidates.last()) == arg {
                Some(candidates.len() - 1)
            } else {
                None
            },
        }
    }
}

proof fn lemma_id_position(kind: Seq<char>, facility: Seq<char>, candidates: Seq<Seq<char>>, arg: Seq<char>)
    ensures
        id_position(kind, facility, candidates, arg) matches Some(i) ==> 0 <= i < candidates.len()
            && item_id_spec(kind, facility, candidates[i]) == arg
            && forall|j: int| 0 <= j < i ==> item_id_spec(kind, facility, #[trigger] candidates[j]) != arg,
        id_position(kind, facility, candidates, arg) is None ==> forall|j: int| 0 <= j < candidates.len()
            ==> item_id_spec(kind, facility, #[trigger] candidates[j]) != arg,
    decreases candidates.len(),
{
    if candidates.len() > 0 {
        lemma_id_position(kind, facility, candidates.drop_last(), arg);
        assert(forall|j: int| 0 <= j < candidates.len() - 1 ==> candidates.drop_last()[j] == candidates[j]);
    }
}

/// The name that `arg` stands for: the first candidate whose ID it is, else
/// `arg` itself (a name).
pub open spec fn resolve_name(kind: Seq<char>, facility: Seq<char>, candidates: Seq<Seq<char>>, arg: Seq<char>) -> Seq<char> {
    match id_position(kind, facility, candidates, arg) {
        Some(i) => candidates[i],
        None => arg,
    }
}

fn resolve_in(kind: &str, facility: &str, candidates: &Vec<String>, arg: &str) -> (r: String)
    ensures
        r@ == resolve_name(kind@, facility@, candidates.deep_view(), arg@),
{
    let ghost c = candidates.deep_view();
    proof { lemma_id_position(kind@, facility@, c, arg@); }
    let n = candidates.len();
    let mut i: usize = 0;
    while i < n
        invariant
            n == candidates@.len(),
            c == candidates.deep_view(),
            i <= n,
            forall|j: int| 0 <= j < i ==> item_id_spec(kind@, facility@, #[trigger] c[j]) != arg@,
            id_position(kind@, facility@, c, arg@) matches Some(p) ==> 0 <= p < c.len()
                && item_id_spec(kind@, facility@, c[p]) == arg@
                && forall|j: int| 0 <= j < p ==> item_id_spec(kind@, facility@, #[trigger] c[j]) != arg@,
            id_position(kind@, facility@, c, arg@) is None ==> forall|j: int| 0 <= j < c.len()
                ==> item_id_spec(kind@, facility@, #[trigger] c[j]) != arg@,
        decreases n - i,
    {
        proof { assert(c[i as int] == candidates@[i as int]@); }
        let id = item_id(kind, facility, candidates[i].as_str());
        if str_equal(id.as_str(), arg) {
            proof {
                match id_position(kind@, facility@, c, arg@) {
                    Some(p) => {
                        if p > i {
                            assert(item_id_spec(kind@, facility@, c[i as int]) != arg@);
                        }
                    },
                    None => {
                        assert(item_id_spec(kind@, facility@, c[i as int]) != arg@);
                    },
                }
            }
            return candidates[i].clone();
        }
        i = i + 1;
    }
    owned(arg)
}

/// The pods a `delete pod` argument may name: the saved pods, then the
/// default pods.
pub open spec fn pod_candidates(s: StateView) -> Seq<Seq<char>> {
    s.pods.map_values(|p: PodStateView| p.name) + seq!["proxy"@, "server"@, "client"@]
}

/// The nodes a `delete node` argument may name: the saved nodes, then
/// `default-node`.
pub open spec fn node_candidates(s: StateView) -> Seq<Seq<char>> {
    s.nodes.map_values(|n: NodeStateView| n.name) + seq!["default-node"@]
}

/// The pod that `arg` (an ID or a name) stands for in `state`.
pub fn pod_target(state: &FacilityState, arg: &str) -> (r: String)
    ensures
        r@ == resolve_name("pod"@, state@.context.name, pod_candidates(state@), arg@),
{
    let mut names: Vec<String> = Vec::new();
    let n = state.pods.len();
    let mut i: usize = 0;
    while i < n
        invariant
            n == state@.pods.len(),
            i <= n,
            names.deep_view() == state@.pods.take(i as int).map_values(|p: PodStateView| p.name),
        decreases n - i,
    {
        let ghost before = names.deep_view();
        names.push(state.pods[i].name.clone());
        proof {
            assert(names.deep_view() =~= before.push(state@.pods[i as int].name));
            assert(state@.pods.take(i + 1).map_values(|p: PodStateView| p.name)
                =~= before.push(state@.pods[i as int].name));
        }
        i = i + 1;
    }
    proof { assert(state@.pods.take(n as int) =~= state@.pods); }
    let ghost saved = names.deep_view();
    names.push(owned("proxy"));
    names.push(owned("server"));
    names.push(owned("client"));
    proof { assert(names.deep_view() =~= pod_candidates(state@)); }
    resolve_in("pod", state.context.name.as_str(), &names, arg)
}

/// The node that `arg` (an ID or a name) stands for in `state`.
pub fn node_target(state: &FacilityState, arg: &str) -> (r: String)
    ensures
        r@ == resolve_name("node"@, state@.context.name, node_candidates(state@), arg@),
{
    let mut names: Vec<String> = Vec::new();
    let n = state.nodes.len();
    let mut i: usize = 0;
    while i < n
        invariant
            n == state@.nodes.len(),
            i <= n,
            names.deep_view() == state@.nodes.take(i as int).map_values(|x: NodeStateView| x.name),
        decreases n - i,
    {
        let ghost before = names.deep_view();
        names.push(state.nodes[i].name.clone());
        proof {
            assert(names.deep_view() =~= before.push(state@.nodes[i as int].name));
            assert(state@.nodes.take(i + 1).map_values(|x: NodeStateView| x.name)
                =~= before.push(state@.nodes[i as int].name));
        }
        i = i + 1;
    }
    proof { assert(state@.nodes.take(n as int) =~= state@.nodes); }
    names.push(owned("default-node"));
    proof { assert(names.deep_view() =~= node_candidates(state@)); }
    resolve_in("node", state.context.name.as_str(), &names, arg)
}

} // verus!
