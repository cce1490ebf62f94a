//! The observation feed: a snapshot first, then deltas derived by diffing
//! successive snapshots, and animation events in between.

use crate::domain::{NetworkState, NodeId, NodeInfo};
use crate::id_map::{entries_map, lemma_entries_map_keys, lemma_lists_determines, lists, IdMap};
use vstd::prelude::*;

verus! {

/// An incremental change to the observed state.
#[derive(Clone, Copy, Debug, PartialEq, Eq)]
pub enum UpdatePayload {
    NodeAdded { id: NodeId, info: NodeInfo },
    NodeUpdated { id: NodeId, info: NodeInfo },
    NodeRemoved { id: NodeId },
    ConnectionStatus { peer_id: NodeId, is_connected: bool },
    AnimateEdge { from_peer: NodeId },
}

/// The state an observer reconstructs: node records and connected nodes.
pub open spec fn observed(s: NetworkState) -> (Map<NodeId, NodeInfo>, Set<NodeId>) {
    (s.nodes@, s.active_connections@.to_set())
}

/// The effect of one update on the node records.
pub open spec fn apply_to_nodes(m: Map<NodeId, NodeInfo>, u: UpdatePayload) -> Map<NodeId, NodeInfo> {
    match u {
        UpdatePayload::NodeAdded { id, info } => m.insert(id, info),
        UpdatePayload::NodeUpdated { id, info } => m.insert(id, info),
        UpdatePayload::NodeRemoved { id } => m.remove(id),
        _ => m,
    }
}

/// The effect of one update on the connected nodes.
pub open spec fn apply_to_connections(c: Set<NodeId>, u: UpdatePayload) -> Set<NodeId> {
    match u {
        UpdatePayload::ConnectionStatus { peer_id, is_connected } => if is_connected {
            c.insert(peer_id)
        } else {
            c.remove(peer_id)
        },
        _ => c,
    }
}

/// The observed state after applying updates in order.
pub open spec fn apply_updates(
    st: (Map<NodeId, NodeInfo>, Set<NodeId>),
    us: Seq<UpdatePayload>,
) -> (Map<NodeId, NodeInfo>, Set<NodeId>)
    decreases us.len(),
{
    if us.len() == 0 {
        st
    } else {
        let prev = apply_updates(st, us.drop_last());
        (apply_to_nodes(prev.0, us.last()), apply_to_connections(prev.1, us.last()))
    }
}

/// Whether the update is a change to node records.
pub open spec fn is_node_event(u: UpdatePayload) -> bool {
    ||| u is NodeAdded
    ||| u is NodeUpdated
    ||| u is NodeRemoved
}

/// Whether `u` is one of the changes from `old` to `new`.
pub open spec fn is_change(old: NetworkState, new: NetworkState, u: UpdatePayload) -> bool {
    let (om, nm) = (old.nodes@, new.nodes@);
    let (oc, nc) = (old.active_connections@.to_set(), new.active_connections@.to_set());
    match u {
        UpdatePayload::NodeAdded { id, info } => nm.contains_key(id) && !om.contains_key(id) && info
            == nm[id],
        UpdatePayload::NodeUpdated { id, info } => nm.contains_key(id) && om.contains_key(id)
            && om[id] != nm[id] && info == nm[id],
        UpdatePayload::NodeRemoved { id } => om.contains_key(id) && !nm.contains_key(id),
        UpdatePayload::ConnectionStatus { peer_id, is_connected } => if is_connected {
            nc.contains(peer_id) && !oc.contains(peer_id)
        } else {
            oc.contains(peer_id) && !nc.contains(peer_id)
        },
        UpdatePayload::AnimateEdge { .. } => false,
    }
}

/// `d` takes an observer from `old` to `new`: each update is one of the
/// changes, none repeats, node changes come before connection changes, and
/// applying them to what `old` shows yields what `new` shows.
pub open spec fn is_delta(old: NetworkState, new: NetworkState, d: Seq<UpdatePayload>) -> bool {
    &&& forall|t: int| #![trigger d[t]] 0 <= t < d.len() ==> is_change(old, new, d[t])
    &&& d.no_duplicates()
    &&& forall|i: int, j: int|
        #![trigger d[i], d[j]]
        0 <= i < j < d.len() && is_node_event(d[j]) ==> is_node_event(d[i])
    &&& apply_updates(observed(old), d) == observed(new)
}

proof fn lemma_apply_concat(
    st: (Map<NodeId, NodeInfo>, Set<NodeId>),
    a: Seq<UpdatePayload>,
    b: Seq<UpdatePayload>,
)
    ensures
        apply_updates(st, a + b) == apply_updates(apply_updates(st, a), b),
    decreases b.len(),
{
    if b.len() > 0 {
        assert((a + b).drop_last() =~= a + b.drop_last());
        lemma_apply_concat(st, a, b.drop_last());
    } else {
        assert(a + b =~= a);
    }
}

proof fn lemma_apply_push(
    st: (Map<NodeId, NodeInfo>, Set<NodeId>),
    a: Seq<UpdatePayload>,
    u: UpdatePayload,
)
    ensures
        apply_updates(st, a.push(u)) == (
            apply_to_nodes(apply_updates(st, a).0, u),
            apply_to_connections(apply_updates(st, a).1, u),
        ),
{
    assert(a.push(u).drop_last() =~= a);
}

/// Added and updated records for the nodes whose record is new or changed.
fn node_changes(old: &IdMap<NodeInfo>, new: &IdMap<NodeInfo>) -> (r: Vec<UpdatePayload>)
    ensures
        forall|t: int|
            #![trigger r@[t]]
            0 <= t < r@.len() ==> match r@[t] {
                UpdatePayload::NodeAdded { id, info } => new@.contains_key(id) && !old@.contains_key(id)
                    && info == new@[id],
                UpdatePayload::NodeUpdated { id, info } => new@.contains_key(id) && old@.contains_key(
                    id,
                ) && old@[id] != new@[id] && info == new@[id],
                _ => false,
            },
        r@.no_duplicates(),
        forall|c: Set<NodeId>| #[trigger]
            apply_updates((old@, c), r@) == (old@.union_prefer_right(new@), c),
{
    let entries = new.to_vec();
    let ghost s = entries@;
    let mut r: Vec<UpdatePayload> = Vec::new();
    let mut i: usize = 0;
    proof {
        lemma_lists_determines(s, new@);
        assert(s.subrange(0, 0) =~= Seq::<(NodeId, NodeInfo)>::empty());
        assert(old@.union_prefer_right(Map::empty()) =~= old@);
    }
    while i < entries.len()
        invariant
            i <= s.len(),
            s == entries@,
            lists(s, new@),
            entries_map(s) == new@,
            forall|t: int|
                #![trigger r@[t]]
                0 <= t < r@.len() ==> match r@[t] {
                    UpdatePayload::NodeAdded { id, info } => new@.contains_key(id)
                        && !old@.contains_key(id) && info == new@[id] && exists|j: int|
                        0 <= j < i && s[j].0 == id,
                    UpdatePayload::NodeUpdated { id, info } => new@.contains_key(id)
                        && old@.contains_key(id) && old@[id] != new@[id] && info == new@[id]
                        && exists|j: int| 0 <= j < i && s[j].0 == id,
                    _ => false,
                },
            r@.no_duplicates(),
            forall|c: Set<NodeId>| #[trigger]
                apply_updates((old@, c), r@) == (
                    old@.union_prefer_right(entries_map(s.subrange(0, i as int))),
                    c,
                ),
        decreases s.len() - i,
    {
        let (id, info) = entries[i];
        let ghost before = r@;
        let ghost prefix = entries_map(s.subrange(0, i as int));
        proof {
            assert(s[i as int] == (id, info));
            assert(s.subrange(0, i + 1).drop_last() =~= s.subrange(0, i as int));
            assert(entries_map(s.subrange(0, i + 1)) == prefix.insert(id, info));
            lemma_entries_map_keys(s.subrange(0, i as int));
            assert(!prefix.contains_key(id)) by {
                if prefix.contains_key(id) {
                    let j = choose|j: int|
                        0 <= j < s.subrange(0, i as int).len() && s.subrange(0, i as int)[j].0 == id;
                    assert(s[j].0 == s[i as int].0);
                }
            }
        }
        let pushed = match old.get(&id) {
            Some(prev) => {
                if *prev != info {
                    r.push(UpdatePayload::NodeUpdated { id, info });
                    true
                } else {
                    false
                }
            },
            None => {
                r.push(UpdatePayload::NodeAdded { id, info });
                true
            },
        };
        proof {
            let u = if old@.contains_key(id) {
                UpdatePayload::NodeUpdated { id, info }
            } else {
                UpdatePayload::NodeAdded { id, info }
            };
            if pushed {
                assert(r@ == before.push(u));
                assert forall|c: Set<NodeId>| #[trigger]
                    apply_updates((old@, c), r@) == (
                        old@.union_prefer_right(entries_map(s.subrange(0, i + 1))),
                        c,
                    ) by {
                    lemma_apply_push((old@, c), before, u);
                    assert(old@.union_prefer_right(prefix).insert(id, info) =~= old@.union_prefer_right(
                        prefix.insert(id, info),
                    ));
                }
                assert forall|a: int, b: int|
                    0 <= a < r@.len() && 0 <= b < r@.len() && a != b implies r@[a] != r@[b] by {
                    if a < before.len() && b < before.len() {
                        assert(before[a] != before[b]);
                    } else {
                        let t = if a < before.len() {
                            a
                        } else {
                            b
                        };
                        assert(r@[t] == before[t]);
                        match before[t] {
                            UpdatePayload::NodeAdded { id: x, info: _ } => {
                                let j = choose|j: int| 0 <= j < i && s[j].0 == x;
                                assert(s[j].0 != s[i as int].0);
                            },
                            UpdatePayload::NodeUpdated { id: x, info: _ } => {
                                let j = choose|j: int| 0 <= j < i && s[j].0 == x;
                                assert(s[j].0 != s[i as int].0);
                            },
                            _ => {},
                        }
                    }
                }
            } else {
                assert(r@ == before);
                assert(old@.union_prefer_right(prefix.insert(id, info)) =~= old@.union_prefer_right(
                    prefix,
                ));
            }
            assert forall|t: int|
                #![trigger r@[t]]
                0 <= t < r@.len() implies match r@[t] {
                    UpdatePayload::NodeAdded { id, info } => new@.contains_key(id)
                        && !old@.contains_key(id) && info == new@[id] && exists|j: int|
                        0 <= j < i + 1 && s[j].0 == id,
                    UpdatePayload::NodeUpdated { id, info } => new@.contains_key(id)
                        && old@.contains_key(id) && old@[id] != new@[id] && info == new@[id]
                        && exists|j: int| 0 <= j < i + 1 && s[j].0 == id,
                    _ => false,
                } by {
                if t < before.len() {
                    assert(r@[t] == before[t]);
                } else {
                    assert(s[i as int].0 == id);
                }
            }
        }
        i = i + 1;
    }
    assert(s.subrange(0, i as int) =~= s);
    r
}

/// Removals for the nodes that left.
fn node_removals(old: &IdMap<NodeInfo>, new: &IdMap<NodeInfo>) -> (r: Vec<UpdatePayload>)
    ensures
        forall|t: int|
            #![trigger r@[t]]
            0 <= t < r@.len() ==> match r@[t] {
                UpdatePayload::NodeRemoved { id } => old@.contains_key(id) && !new@.contains_key(id),
                _ => false,
            },
        r@.no_duplicates(),
        forall|m: Map<NodeId, NodeInfo>, c: Set<NodeId>| #[trigger]
            apply_updates((m, c), r@) == (m.remove_keys(old@.dom().difference(new@.dom())), c),
{
    let entries = old.to_vec();
    let ghost s = entries@;
    let mut r: Vec<UpdatePayload> = Vec::new();
    let mut i: usize = 0;
    let ghost mut gone: Set<NodeId> = Set::empty();
    proof {
        assert forall|m: Map<NodeId, NodeInfo>, c: Set<NodeId>| #[trigger]
            apply_updates((m, c), r@) == (m.remove_keys(gone), c) by {
            assert(m.remove_keys(gone) =~= m);
        }
    }
    while i < entries.len()
        invariant
            i <= s.len(),
            s == entries@,
            lists(s, old@),
            forall|k: NodeId|
                gone.contains(k) <==> (exists|j: int| 0 <= j < i && s[j].0 == k) && !new@.contains_key(
                    k,
                ),
            forall|t: int|
                #![trigger r@[t]]
                0 <= t < r@.len() ==> match r@[t] {
                    UpdatePayload::NodeRemoved { id } => old@.contains_key(id) && !new@.contains_key(
                        id,
                    ) && gone.contains(id),
                    _ => false,
                },
            r@.no_duplicates(),
            forall|m: Map<NodeId, NodeInfo>, c: Set<NodeId>| #[trigger]
                apply_updates((m, c), r@) == (m.remove_keys(gone), c),
        decreases s.len() - i,
    {
        let id = entries[i].0;
        let ghost before = r@;
        let ghost gone0 = gone;
        proof {
            assert(s[i as int].0 == id);
            assert(!gone0.contains(id)) by {
                if gone0.contains(id) {
                    let j = choose|j: int| 0 <= j < i && s[j].0 == id;
                    assert(s[j].0 != s[i as int].0);
                }
            }
        }
        if !new.contains_key(&id) {
            r.push(UpdatePayload::NodeRemoved { id });
            proof {
                gone = gone0.insert(id);
                assert forall|m: Map<NodeId, NodeInfo>, c: Set<NodeId>| #[trigger]
                    apply_updates((m, c), r@) == (m.remove_keys(gone), c) by {
                    lemma_apply_push((m, c), before, UpdatePayload::NodeRemoved { id });
                    assert(m.remove_keys(gone0).remove(id) =~= m.remove_keys(gone));
                }
                assert forall|a: int, b: int|
                    0 <= a < r@.len() && 0 <= b < r@.len() && a != b implies r@[a] != r@[b] by {
                    if a < before.len() && b < before.len() {
                        assert(before[a] != before[b]);
                    } else if a < before.len() {
                        assert(r@[a] == before[a]);
                    } else {
                        assert(r@[b] == before[b]);
                    }
                }
            }
        }
        proof {
            assert forall|k: NodeId|
                gone.contains(k) <==> (exists|j: int| 0 <= j < i + 1 && s[j].0 == k)
                    && !new@.contains_key(k) by {
                if (exists|j: int| 0 <= j < i + 1 && s[j].0 == k) && k != id {
                    let j = choose|j: int| 0 <= j < i + 1 && s[j].0 == k;
                    assert(j < i);
                }
            }
            assert forall|t: int|
                #![trigger r@[t]]
                0 <= t < r@.len() implies match r@[t] {
                    UpdatePayload::NodeRemoved { id } => old@.contains_key(id) && !new@.contains_key(
                        id,
                    ) && gone.contains(id),
                    _ => false,
                } by {
                if t < before.len() {
                    assert(r@[t] == before[t]);
                }
            }
        }
        i = i + 1;
    }
    proof {
        assert forall|k: NodeId| gone.contains(k) <==> old@.dom().difference(new@.dom()).contains(k) by {
            if old@.contains_key(k) {
                let j = choose|j: int| 0 <= j < s.len() && s[j].0 == k;
            }
        }
        assert(gone =~= old@.dom().difference(new@.dom()));
    }
    r
}

fn contains_id(v: &Vec<NodeId>, end: usize, id: NodeId) -> (r: bool)
    requires
        end <= v@.len(),
    ensures
        r == v@.subrange(0, end as int).contains(id),
{
    let mut i: usize = 0;
    while i < end
        invariant
            i <= end <= v@.len(),
            forall|j: int| 0 <= j < i ==> v@[j] != id,
        decreases end - i,
    {
        if v[i] == id {
            assert(v@.subrange(0, end as int)[i as int] == id);
            return true;
        }
        i = i + 1;
    }
    false
}

/// One status change, to `connected`, for each node listed in `from` and not
/// in `to`, in order of first appearance.
fn connection_changes(from: &Vec<NodeId>, to: &Vec<NodeId>, connected: bool) -> (r: Vec<
    UpdatePayload,
>)
    ensures
        forall|t: int|
            #![trigger r@[t]]
            0 <= t < r@.len() ==> match r@[t] {
                UpdatePayload::ConnectionStatus { peer_id, is_connected } => is_connected == connected
                    && from@.contains(peer_id) && !to@.contains(peer_id),
                _ => false,
            },
        r@.no_duplicates(),
        forall|m: Map<NodeId, NodeInfo>, c: Set<NodeId>| #[trigger]
            apply_updates((m, c), r@) == (
                m,
                if connected {
                    c.union(from@.to_set().difference(to@.to_set()))
                } else {
                    c.difference(from@.to_set().difference(to@.to_set()))
                },
            ),
{
    let ghost d = from@.to_set().difference(to@.to_set());
    let mut r: Vec<UpdatePayload> = Vec::new();
    let mut i: usize = 0;
    let ghost mut done: Set<NodeId> = Set::empty();
    proof {
        assert forall|m: Map<NodeId, NodeInfo>, c: Set<NodeId>| #[trigger]
            apply_updates((m, c), r@) == (
                m,
                if connected {
                    c.union(done)
                } else {
                    c.difference(done)
                },
            ) by {
            assert(c.union(done) =~= c);
            assert(c.difference(done) =~= c);
        }
    }
    while i < from.len()
        invariant
            i <= from@.len(),
            forall|k: NodeId|
                done.contains(k) <==> from@.subrange(0, i as int).contains(k) && !to@.contains(k),
            forall|t: int|
                #![trigger r@[t]]
                0 <= t < r@.len() ==> match r@[t] {
                    UpdatePayload::ConnectionStatus { peer_id, is_connected } => is_connected
                        == connected && done.contains(peer_id) && from@.contains(peer_id)
                        && !to@.contains(peer_id),
                    _ => false,
                },
            r@.no_duplicates(),
            forall|m: Map<NodeId, NodeInfo>, c: Set<NodeId>| #[trigger]
                apply_updates((m, c), r@) == (
                    m,
                    if connected {
                        c.union(done)
                    } else {
                        c.difference(done)
                    },
                ),
        decreases from@.len() - i,
    {
        let id = from[i];
        let ghost before = r@;
        let ghost done0 = done;
        let seen = contains_id(from, i, id);
        let listed = contains_id(to, to.len(), id);
        proof {
            assert(to@.subrange(0, to@.len() as int) =~= to@);
            assert(from@.subrange(0, i + 1) =~= from@.subrange(0, i as int).push(id));
        }
        if !seen && !listed {
            let u = UpdatePayload::ConnectionStatus { peer_id: id, is_connected: connected };
            r.push(u);
            proof {
                done = done0.insert(id);
                assert forall|m: Map<NodeId, NodeInfo>, c: Set<NodeId>| #[trigger]
                    apply_updates((m, c), r@) == (
                        m,
                        if connected {
                            c.union(done)
                        } else {
                            c.difference(done)
                        },
                    ) by {
                    lemma_apply_push((m, c), before, u);
                    assert(c.union(done0).insert(id) =~= c.union(done));
                    assert(c.difference(done0).remove(id) =~= c.difference(done));
                }
                assert forall|a: int, b: int|
                    0 <= a < r@.len() && 0 <= b < r@.len() && a != b implies r@[a] != r@[b] by {
                    if a < before.len() && b < before.len() {
                        assert(before[a] != before[b]);
                    } else if a < before.len() {
                        assert(r@[a] == before[a]);
                    } else {
                        assert(r@[b] == before[b]);
                    }
                }
            }
        }
        proof {
            assert(from@.contains(id)) by {
                assert(from@[i as int] == id);
            }
            let head = from@.subrange(0, i as int);
            let extended = from@.subrange(0, i + 1);
            assert(extended[i as int] == id);
            assert forall|k: NodeId| done.contains(k) <==> extended.contains(k) && !to@.contains(k) by {
                if extended.contains(k) && k != id {
                    let t = choose|t: int| 0 <= t < extended.len() && extended[t] == k;
                    assert(head[t] == k);
                }
                if head.contains(k) {
                    let t = choose|t: int| 0 <= t < head.len() && head[t] == k;
                    assert(extended[t] == k);
                }
            }
            assert forall|t: int|
                #![trigger r@[t]]
                0 <= t < r@.len() implies match r@[t] {
                    UpdatePayload::ConnectionStatus { peer_id, is_connected } => is_connected
                        == connected && done.contains(peer_id) && from@.contains(peer_id)
                        && !to@.contains(peer_id),
                    _ => false,
                } by {
                if t < before.len() {
                    assert(r@[t] == before[t]);
                }
            }
        }
        i = i + 1;
    }
    proof {
        assert(from@.subrange(0, i as int) =~= from@);
        assert(done =~= d);
    }
    r
}

proof fn lemma_no_duplicates_concat(a: Seq<UpdatePayload>, b: Seq<UpdatePayload>)
    requires
        a.no_duplicates(),
        b.no_duplicates(),
        forall|i: int, j: int| 0 <= i < a.len() && 0 <= j < b.len() ==> a[i] != b[j],
    ensures
        (a + b).no_duplicates(),
{
    let c = a + b;
    assert forall|i: int, j: int| 0 <= i < c.len() && 0 <= j < c.len() && i != j implies c[i]
        != c[j] by {
        if i < a.len() && j < a.len() {
            assert(c[i] == a[i] && c[j] == a[j]);
        } else if i >= a.len() && j >= a.len() {
            assert(c[i] == b[i - a.len()] && c[j] == b[j - a.len()]);
        } else if i < a.len() {
            assert(c[i] == a[i] && c[j] == b[j - a.len()]);
        } else {
            assert(c[j] == a[j] && c[i] == b[i - a.len()]);
        }
    }
}

/// The updates that take an observer from `old` to `new`: node changes
/// first, then connection changes.
///
/// Every update is one of the changes between the two states, none is
/// repeated, and applying them in order to what `old` shows yields exactly
/// what `new` shows.
pub fn calculate_delta(old: &NetworkState, new: &NetworkState) -> (r: Vec<UpdatePayload>)
    ensures
        is_delta(*old, *new, r@),
{
    let changed = node_changes(&old.nodes, &new.nodes);
    let removed = node_removals(&old.nodes, &new.nodes);
    let lost = connection_changes(&old.active_connections, &new.active_connections, false);
    let gained = connection_changes(&new.active_connections, &old.active_connections, true);
    let ghost (a, b, c, d) = (changed@, removed@, lost@, gained@);
    let mut r = changed;
    let mut removed = removed;
    let mut lost = lost;
    let mut gained = gained;
    r.append(&mut removed);
    r.append(&mut lost);
    r.append(&mut gained);
    proof {
        let (om, nm) = (old.nodes@, new.nodes@);
        let (oc, nc) = (old.active_connections@.to_set(), new.active_connections@.to_set());
        assert(r@ == a + b + c + d);
        lemma_no_duplicates_concat(a, b);
        lemma_no_duplicates_concat(a + b, c);
        lemma_no_duplicates_concat(a + b + c, d);
        lemma_apply_concat((om, oc), a, b);
        lemma_apply_concat((om, oc), a + b, c);
        lemma_apply_concat((om, oc), a + b + c, d);
        assert(apply_updates((om, oc), a) == (om.union_prefer_right(nm), oc));
        assert(om.union_prefer_right(nm).remove_keys(om.dom().difference(nm.dom())) =~= nm);
        assert(apply_updates((om, oc), a + b) == (nm, oc));
        let oc2 = oc.difference(oc.difference(nc));
        assert(apply_updates((om, oc), a + b + c) == (nm, oc2));
        assert(oc2.union(nc.difference(oc)) =~= nc);
        let all = a + b + c + d;
        assert forall|t: int| #![trigger all[t]] 0 <= t < all.len() implies is_change(
            *old,
            *new,
            all[t],
        ) by {
            if t < a.len() {
                assert(all[t] == a[t]);
            } else if t < a.len() + b.len() {
                assert(all[t] == b[t - a.len()]);
            } else if t < a.len() + b.len() + c.len() {
                assert(all[t] == c[t - a.len() - b.len()]);
            } else {
                assert(all[t] == d[t - a.len() - b.len() - c.len()]);
            }
        }
        assert forall|i: int, j: int|
            #![trigger all[i], all[j]]
            0 <= i < j < all.len() && is_node_event(all[j]) implies is_node_event(all[i]) by {
            if j >= a.len() + b.len() + c.len() {
                assert(all[j] == d[j - a.len() - b.len() - c.len()]);
            } else if j >= a.len() + b.len() {
                assert(all[j] == c[j - a.len() - b.len()]);
            }
            if i < a.len() {
                assert(all[i] == a[i]);
            } else if i < a.len() + b.len() {
                assert(all[i] == b[i - a.len()]);
            }
        }
    }
    r
}

/// Whether an update concerns the record of node `k`.
pub open spec fn touches_node(u: UpdatePayload, k: NodeId) -> bool {
    match u {
        UpdatePayload::NodeAdded { id, .. } => id == k,
        UpdatePayload::NodeUpdated { id, .. } => id == k,
        UpdatePayload::NodeRemoved { id } => id == k,
        _ => false,
    }
}

/// Whether an update concerns the connection of node `k`.
pub open spec fn touches_connection(u: UpdatePayload, k: NodeId) -> bool {
    match u {
        UpdatePayload::ConnectionStatus { peer_id, .. } => peer_id == k,
        _ => false,
    }
}

proof fn lemma_untouched(
    st: (Map<NodeId, NodeInfo>, Set<NodeId>),
    us: Seq<UpdatePayload>,
    k: NodeId,
)
    ensures
        (forall|i: int| 0 <= i < us.len() ==> !touches_node(#[trigger] us[i], k)) ==> {
            &&& apply_updates(st, us).0.contains_key(k) == st.0.contains_key(k)
            &&& apply_updates(st, us).0[k] == st.0[k]
        },
        (forall|i: int| 0 <= i < us.len() ==> !touches_connection(#[trigger] us[i], k))
            ==> apply_updates(st, us).1.contains(k) == st.1.contains(k),
    decreases us.len(),
{
    if us.len() > 0 {
        let p = us.drop_last();
        lemma_untouched(st, p, k);
        if forall|i: int| 0 <= i < us.len() ==> !touches_node(#[trigger] us[i], k) {
            assert forall|i: int| 0 <= i < p.len() implies !touches_node(#[trigger] p[i], k) by {
                assert(p[i] == us[i]);
            }
            assert(!touches_node(us[us.len() - 1], k));
        }
        if forall|i: int| 0 <= i < us.len() ==> !touches_connection(#[trigger] us[i], k) {
            assert forall|i: int| 0 <= i < p.len() implies !touches_connection(#[trigger] p[i], k) by {
                assert(p[i] == us[i]);
            }
            assert(!touches_connection(us[us.len() - 1], k));
        }
    }
}

/// A delta omits no change: every change from `old` to `new` is among its updates.
pub proof fn lemma_delta_complete(old: NetworkState, new: NetworkState, d: Seq<UpdatePayload>, u: UpdatePayload)
    requires
        is_delta(old, new, d),
        is_change(old, new, u),
    ensures
        d.contains(u),
{
    let st = observed(old);
    let (om, nm) = (old.nodes@, new.nodes@);
    let (oc, nc) = (old.active_connections@.to_set(), new.active_connections@.to_set());
    if !d.contains(u) {
        match u {
            UpdatePayload::ConnectionStatus { peer_id, is_connected } => {
                assert forall|i: int| 0 <= i < d.len() implies !touches_connection(
                    #[trigger] d[i],
                    peer_id,
                ) by {
                    assert(is_change(old, new, d[i]));
                    if touches_connection(d[i], peer_id) && d[i] != u {
                        assert(d.contains(d[i]));
                    }
                }
                lemma_untouched(st, d, peer_id);
            },
            UpdatePayload::AnimateEdge { .. } => {},
            _ => {
                let k = match u {
                    UpdatePayload::NodeAdded { id, .. } => id,
                    UpdatePayload::NodeUpdated { id, .. } => id,
                    UpdatePayload::NodeRemoved { id } => id,
                    _ => u.arrow_AnimateEdge_from_peer(),
                };
                assert forall|i: int| 0 <= i < d.len() implies !touches_node(#[trigger] d[i], k) by {
                    assert(is_change(old, new, d[i]));
                    if touches_node(d[i], k) && d[i] != u {
                        assert(d.contains(d[i]));
                    }
                }
                lemma_untouched(st, d, k);
            },
        }
    }
}

/// The first message a subscriber gets: the whole state.
pub struct SnapshotPayload {
    pub self_id: NodeId,
    pub nodes: IdMap<NodeInfo>,
    pub active_connections: Vec<NodeId>,
}

impl SnapshotPayload {
    /// The payload that shows `state`.
    pub fn from_state(state: &NetworkState) -> (r: SnapshotPayload)
        ensures
            match state.self_id {
                Some(id) => r.self_id == id,
                None => forall|i: int| 0 <= i < 32 ==> r.self_id.0@[i] == 0,
            },
            r.nodes@ == state.nodes@,
            r.active_connections@ == state.active_connections@,
    {
        let copy = state.duplicate();
        let self_id = match state.self_id {
            Some(id) => id,
            None => {
                let zero = [0u8; 32];
                proof {
                    broadcast use vstd::array::group_array_axioms;
                }
                NodeId(zero)
            },
        };
        SnapshotPayload { self_id, nodes: copy.nodes, active_connections: copy.active_connections }
    }
}

/// A message to a feed subscriber.
pub enum WebSocketMessage {
    Snapshot(SnapshotPayload),
    Update(UpdatePayload),
}

/// `msg` is the snapshot message that shows `state`.
pub open spec fn is_snapshot_message(msg: WebSocketMessage, state: NetworkState) -> bool {
    match msg {
        WebSocketMessage::Snapshot(p) => {
            &&& state.self_id == Some(p.self_id)
            &&& p.nodes@ == state.nodes@
            &&& p.active_connections@ == state.active_connections@
        },
        WebSocketMessage::Update(_) => false,
    }
}

/// The messages that carry the updates `d`, in order.
pub open spec fn update_messages(d: Seq<UpdatePayload>) -> Seq<WebSocketMessage> {
    Seq::new(d.len(), |i: int| WebSocketMessage::Update(d[i]))
}

/// One subscriber's position in the feed: the last state it was shown.
pub struct Feed {
    last_sent: Option<NetworkState>,
}

impl Feed {
    /// The last state the subscriber was shown, if any.
    pub closed spec fn last_sent(&self) -> Option<NetworkState> {
        self.last_sent
    }

    /// A subscriber that has been shown nothing yet.
    pub fn new() -> (r: Feed)
        ensures
            r.last_sent() is None,
    {
        Feed { last_sent: None }
    }

    /// Handles a new engine snapshot. Until a state with this node's identity
    /// arrives nothing is sent; the first such state is sent whole, and each
    /// later one as the delta from the last state sent.
    pub fn on_state(&mut self, state: NetworkState) -> (r: Vec<WebSocketMessage>)
        ensures
            state.self_id is None ==> r@.len() == 0 && final(self).last_sent() == old(
                self,
            ).last_sent(),
            state.self_id is Some ==> final(self).last_sent() == Some(state) && match old(
                self,
            ).last_sent() {
                None => r@.len() == 1 && is_snapshot_message(r@[0], state),
                Some(prev) => exists|d: Seq<UpdatePayload>|
                    is_delta(prev, state, d) && r@ == update_messages(d),
            },
    {
        if state.self_id.is_none() {
            return Vec::new();
        }
        let mut out: Vec<WebSocketMessage> = Vec::new();
        match &self.last_sent {
            None => {
                out.push(WebSocketMessage::Snapshot(SnapshotPayload::from_state(&state)));
            },
            Some(prev) => {
                let d = calculate_delta(prev, &state);
                let mut i: usize = 0;
                while i < d.len()
                    invariant
                        i <= d@.len(),
                        out@ == update_messages(d@).subrange(0, i as int),
                    decreases d@.len() - i,
                {
                    out.push(WebSocketMessage::Update(d[i]));
                    i = i + 1;
                    assert(out@ =~= update_messages(d@).subrange(0, i as int));
                }
                assert(out@ =~= update_messages(d@));
            },
        }
        self.last_sent = Some(state);
        out
    }

    /// Whether the subscriber has been sent its snapshot.
    pub fn is_started(&self) -> (r: bool)
        ensures
            r == self.last_sent() is Some,
    {
        self.last_sent.is_some()
    }

    /// The message for an animation event: new gossip arrived via `from_peer`.
    pub fn on_animation(&self, from_peer: NodeId) -> (r: WebSocketMessage)
        ensures
            r == WebSocketMessage::Update(UpdatePayload::AnimateEdge { from_peer }),
    {
        WebSocketMessage::Update(UpdatePayload::AnimateEdge { from_peer })
    }
}

} // verus!
