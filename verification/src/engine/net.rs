//! The graph of an interaction net: nodes, the wires between their ports,
//! the queue of active pairs, and named definitions.
use crate::text::{decimal, push_decimal, push_signed_decimal, push_str, signed_decimal};
use std::collections::{HashMap, VecDeque};
use vstd::prelude::*;

verus! {

broadcast use vstd::std_specs::hash::group_hash_axioms;

pub type NodeId = usize;

/// One end of a wire: a node and one of its slots.  The node `usize::MAX`
/// marks a port that is not connected.
#[derive(Debug, Clone, Copy, PartialEq, Eq, Hash, Structural)]
pub struct Port {
    pub node: NodeId,
    pub slot: usize,
}

impl Port {
    pub fn new(node: NodeId, slot: usize) -> (p: Self)
        ensures
            p == (Port { node, slot }),
    {
        Self { node, slot }
    }

    /// The port that is connected to nothing.
    pub fn null() -> (p: Self)
        ensures
            p == Port::null_spec(),
    {
        Self { node: usize::MAX, slot: 0 }
    }

    pub open spec fn null_spec() -> Port {
        Port { node: usize::MAX, slot: 0 }
    }

    pub open spec fn spec_is_null(self) -> bool {
        self.node == usize::MAX
    }

    pub fn is_null(&self) -> (b: bool)
        ensures
            b == self.spec_is_null(),
    {
        self.node == usize::MAX
    }
}

/// A node: a constructor with a tag and two ports, a duplicator with two
/// ports, a reference to a named definition with one port, or an eraser
/// with one port.
#[derive(Debug, Clone)]
pub enum Node {
    Con { tag: i32, ports: [Port; 2] },
    Dup { ports: [Port; 2] },
    Ref { name: String, port: Port },
    Era { port: Port },
}

#[derive(Debug, Clone, Copy)]
pub struct Redex {
    pub a: NodeId,
    pub b: NodeId,
}

/// Whether a node has a slot with this number.
pub open spec fn slot_ok(n: Node, slot: int) -> bool {
    match n {
        Node::Con { .. } | Node::Dup { .. } => 0 <= slot < 2,
        Node::Ref { .. } | Node::Era { .. } => slot == 0,
    }
}

/// The node with one of its slots rewired.
pub open spec fn with_slot(n: Node, slot: int, p: Port) -> Node {
    match n {
        Node::Con { tag, ports } => Node::Con {
            tag,
            ports: if slot == 0 {
                [p, ports[1]]
            } else {
                [ports[0], p]
            },
        },
        Node::Dup { ports } => Node::Dup {
            ports: if slot == 0 {
                [p, ports[1]]
            } else {
                [ports[0], p]
            },
        },
        Node::Ref { name, port } => Node::Ref { name, port: p },
        Node::Era { port } => Node::Era { port: p },
    }
}

/// Whether two nodes whose principal ports meet can interact.
pub open spec fn interacts(x: Node, y: Node) -> bool {
    match (x, y) {
        (Node::Con { tag: t1, .. }, Node::Con { tag: t2, .. }) => t1 == t2,
        (Node::Con { .. }, Node::Dup { .. }) | (Node::Dup { .. }, Node::Con { .. }) => true,
        (Node::Con { .. }, Node::Era { .. }) | (Node::Era { .. }, Node::Con { .. }) => true,
        (Node::Dup { .. }, Node::Dup { .. }) => true,
        (Node::Dup { .. }, Node::Era { .. }) | (Node::Era { .. }, Node::Dup { .. }) => true,
        (Node::Ref { .. }, _) | (_, Node::Ref { .. }) => true,
        _ => false,
    }
}

/// Whether two nodes form an active pair (what `is_redex` tests when
/// `connect` wires them) does not depend on their order:
/// constructors interact with each other exactly when their tags agree,
/// two erasers never interact, and a reference interacts with anything.
pub proof fn lemma_interacts_symmetric(x: Node, y: Node)
    ensures
        interacts(x, y) == interacts(y, x),
        (x is Con && y is Con) ==> (interacts(x, y) <==> x->Con_tag == y->Con_tag),
        (x is Era && y is Era) ==> !interacts(x, y),
        (x is Ref || y is Ref) ==> interacts(x, y),
        ((x is Con || x is Dup) && (y is Dup || y is Era)) ==> interacts(x, y),
{
}

/// The definition that a list of named roots gives to a name: the first
/// entry with that name.
pub open spec fn lookup(defs: Seq<(Seq<char>, NodeId)>, name: Seq<char>) -> Option<NodeId>
    decreases defs.len(),
{
    if defs.len() == 0 {
        None
    } else if defs[0].0 == name {
        Some(defs[0].1)
    } else {
        lookup(defs.drop_first(), name)
    }
}

/// The nodes and active pairs after `connect(a, a_slot, b, b_slot)`.
pub open spec fn connect_spec(nodes: Seq<Node>, pairs: Seq<Redex>, a: NodeId, a_slot: usize, b: NodeId, b_slot: usize) -> (Seq<Node>, Seq<Redex>) {
    let nodes2 = nodes.update(a as int, with_slot(nodes[a as int], a_slot as int, Port { node: b, slot: b_slot }));
    (nodes2, if interacts(nodes2[a as int], nodes2[b as int]) {
        pairs.push(Redex { a, b })
    } else {
        pairs
    })
}

/// `connect(a, a_slot, b, b_slot)` does not panic: both nodes exist and `a`
/// has the slot.
pub open spec fn connect_ok(nodes: Seq<Node>, a: NodeId, a_slot: usize, b: NodeId) -> bool {
    &&& a < nodes.len()
    &&& b < nodes.len()
    &&& slot_ok(nodes[a as int], a_slot as int)
}

proof fn lemma_lookup_push(defs: Seq<(Seq<char>, NodeId)>, name: Seq<char>, root: NodeId, k: Seq<char>)
    requires
        forall|j: int| 0 <= j < defs.len() ==> #[trigger] defs[j].0 != name,
    ensures
        lookup(defs.push((name, root)), k) == if k == name {
            Some(root)
        } else {
            lookup(defs, k)
        },
    decreases defs.len(),
{
    if defs.len() > 0 {
        assert(defs.push((name, root)).drop_first() =~= defs.drop_first().push((name, root)));
        lemma_lookup_push(defs.drop_first(), name, root, k);
    } else {
        assert(defs.push((name, root)).drop_first() =~= defs);
    }
}

proof fn lemma_lookup_update(defs: Seq<(Seq<char>, NodeId)>, i: int, name: Seq<char>, root: NodeId, k: Seq<char>)
    requires
        0 <= i < defs.len(),
        defs[i].0 == name,
        forall|j: int| 0 <= j < i ==> #[trigger] defs[j].0 != name,
    ensures
        lookup(defs.update(i, (name, root)), k) == if k == name {
            Some(root)
        } else {
            lookup(defs, k)
        },
    decreases defs.len(),
{
    if i > 0 {
        assert(defs.update(i, (name, root)).drop_first() =~= defs.drop_first().update(i - 1, (name, root)));
        assert(defs[0].0 != name);
        lemma_lookup_update(defs.drop_first(), i - 1, name, root, k);
    } else {
        assert(defs.update(i, (name, root)).drop_first() =~= defs.drop_first());
    }
}

/// Every port that is connected points at a node of the sequence.
pub open spec fn wired(nodes: Seq<Node>) -> bool {
    forall|i: int| 0 <= i < nodes.len() ==> #[trigger] ports_within(nodes[i], nodes.len())
}

/// A port of node `x` is connected to node `y`.
pub open spec fn links(x: Node, y: NodeId) -> bool {
    match x {
        Node::Con { ports, .. } | Node::Dup { ports } => (!ports[0].spec_is_null() && ports[0].node == y) || (
        !ports[1].spec_is_null() && ports[1].node == y),
        Node::Ref { port, .. } | Node::Era { port } => !port.spec_is_null() && port.node == y,
    }
}

/// `path` starts at `root`, stays within the nodes, and each of its nodes
/// is connected to the next one.
pub open spec fn is_path(nodes: Seq<Node>, path: Seq<NodeId>, root: NodeId) -> bool {
    &&& path.len() > 0
    &&& path[0] == root
    &&& forall|i: int| 0 <= i < path.len() ==> #[trigger] path[i] < nodes.len()
    &&& forall|i: int| 0 <= i < path.len() - 1 ==> links(nodes[#[trigger] path[i] as int], path[i + 1])
}

/// Node `x` can be reached from `root` along connected ports.
pub open spec fn reaches(nodes: Seq<Node>, root: NodeId, x: NodeId) -> bool {
    exists|path: Seq<NodeId>| #[trigger] is_path(nodes, path, root) && path.last() == x
}

/// Every node reachable from `root` has its ports within the nodes.
pub open spec fn wired_from(nodes: Seq<Node>, root: NodeId) -> bool {
    forall|x: NodeId| #[trigger] reaches(nodes, root, x) ==> ports_within(nodes[x as int], nodes.len())
}

proof fn lemma_reaches_root(nodes: Seq<Node>, root: NodeId)
    requires
        root < nodes.len(),
    ensures
        reaches(nodes, root, root),
{
    let path = seq![root];
    assert(is_path(nodes, path, root));
}

proof fn lemma_reaches_step(nodes: Seq<Node>, root: NodeId, x: NodeId, y: NodeId)
    requires
        reaches(nodes, root, x),
        links(nodes[x as int], y),
        y < nodes.len(),
    ensures
        reaches(nodes, root, y),
{
    let path = choose|path: Seq<NodeId>| #[trigger] is_path(nodes, path, root) && path.last() == x;
    let p2 = path.push(y);
    assert forall|i: int| 0 <= i < p2.len() - 1 implies links(nodes[#[trigger] p2[i] as int], p2[i + 1]) by {
        if i < path.len() - 1 {
            assert(p2[i] == path[i] && p2[i + 1] == path[i + 1]);
        } else {
            assert(p2[i] == x);
        }
    }
    assert(is_path(nodes, p2, root));
    assert(p2.last() == y);
}

proof fn lemma_reaches_bound(nodes: Seq<Node>, root: NodeId, x: NodeId)
    requires
        reaches(nodes, root, x),
    ensures
        x < nodes.len(),
{
    let path = choose|path: Seq<NodeId>| #[trigger] is_path(nodes, path, root) && path.last() == x;
    assert(path[path.len() - 1] < nodes.len());
}

/// A copy map that holds `root` and is closed under connections holds
/// every node of a path from `root`.
proof fn lemma_copies_cover_path(
    before: Seq<Node>,
    after: Seq<Node>,
    m: Map<NodeId, NodeId>,
    root: NodeId,
    path: Seq<NodeId>,
    i: int,
)
    requires
        copies_appended(before, after, m),
        m.contains_key(root),
        is_path(before, path, root),
        0 <= i < path.len(),
    ensures
        m.contains_key(path[i]),
    decreases i,
{
    if i > 0 {
        lemma_copies_cover_path(before, after, m, root, path, i - 1);
        let a = path[i - 1];
        assert(links(before[a as int], path[i]));
        assert(node_copy(before[a as int], after[m[a] as int], m));
    }
}

/// A copy map that holds `root` and is closed under connections holds
/// every node reachable from `root`.
proof fn lemma_copies_cover(before: Seq<Node>, after: Seq<Node>, m: Map<NodeId, NodeId>, root: NodeId, x: NodeId)
    requires
        copies_appended(before, after, m),
        m.contains_key(root),
        reaches(before, root, x),
    ensures
        m.contains_key(x),
{
    let path = choose|path: Seq<NodeId>| #[trigger] is_path(before, path, root) && path.last() == x;
    lemma_copies_cover_path(before, after, m, root, path, path.len() - 1);
}

pub open spec fn port_within(p: Port, n: nat) -> bool {
    !p.spec_is_null() ==> p.node < n
}

pub open spec fn ports_within(x: Node, n: nat) -> bool {
    match x {
        Node::Con { ports, .. } | Node::Dup { ports } => port_within(ports[0], n) && port_within(ports[1], n),
        Node::Ref { port, .. } | Node::Era { port } => port_within(port, n),
    }
}

/// Port `q` of a copy corresponds to port `p` of the original under the map
/// `m` from original nodes to their copies: a port connected to nothing stays
/// so, any other points at the copy of its node, in the same slot.
pub open spec fn port_copy(p: Port, q: Port, m: Map<NodeId, NodeId>) -> bool {
    if p.spec_is_null() {
        q == Port::null_spec()
    } else {
        m.contains_key(p.node) && q == (Port { node: m[p.node], slot: p.slot })
    }
}

/// Node `y` is a copy of node `x` under `m`: the same variant, tag and name,
/// and corresponding ports.
pub open spec fn node_copy(x: Node, y: Node, m: Map<NodeId, NodeId>) -> bool {
    match (x, y) {
        (Node::Con { tag: t1, ports: p1 }, Node::Con { tag: t2, ports: p2 }) => t1 == t2
            && port_copy(p1[0], p2[0], m) && port_copy(p1[1], p2[1], m),
        (Node::Dup { ports: p1 }, Node::Dup { ports: p2 }) => port_copy(p1[0], p2[0], m)
            && port_copy(p1[1], p2[1], m),
        (Node::Ref { name: n1, port: q1 }, Node::Ref { name: n2, port: q2 }) => n1@ == n2@
            && port_copy(q1, q2, m),
        (Node::Era { port: q1 }, Node::Era { port: q2 }) => port_copy(q1, q2, m),
        _ => false,
    }
}

/// Every entry of `m1` is in `m2`.
pub open spec fn grows(m1: Map<NodeId, NodeId>, m2: Map<NodeId, NodeId>) -> bool {
    forall|k: NodeId| #[trigger] m1.contains_key(k) ==> m2.contains_key(k) && m2[k] == m1[k]
}

/// `a` is a prefix of `b`.
pub open spec fn prefix_of(a: Seq<Redex>, b: Seq<Redex>) -> bool {
    b.len() >= a.len() && b.take(a.len() as int) == a
}

/// What decides whether a node takes part in an active pair: its variant,
/// and a constructor's tag.
pub open spec fn node_kind(n: Node) -> (int, int) {
    match n {
        Node::Con { tag, .. } => (0, tag as int),
        Node::Dup { .. } => (1, 0),
        Node::Ref { .. } => (2, 0),
        Node::Era { .. } => (3, 0),
    }
}

/// `after` keeps every node of `before` with its kind.
pub open spec fn kinds_kept(before: Seq<Node>, after: Seq<Node>) -> bool {
    &&& before.len() <= after.len()
    &&& forall|i: int| 0 <= i < before.len() ==> node_kind(#[trigger] after[i]) == node_kind(before[i])
}

/// Every active pair from position `from` on joins two nodes numbered `lo`
/// or above that interact.
pub open spec fn new_pairs_interact(nodes: Seq<Node>, pairs: Seq<Redex>, from: int, lo: int) -> bool {
    forall|i: int|
        from <= i < pairs.len() ==> lo <= (#[trigger] pairs[i]).a < nodes.len() && lo <= pairs[i].b < nodes.len()
            && interacts(nodes[pairs[i].a as int], nodes[pairs[i].b as int])
}

proof fn lemma_kinds_trans(a: Seq<Node>, b: Seq<Node>, c: Seq<Node>)
    requires
        kinds_kept(a, b),
        kinds_kept(b, c),
    ensures
        kinds_kept(a, c),
{
    assert forall|i: int| 0 <= i < a.len() implies node_kind(#[trigger] c[i]) == node_kind(a[i]) by {
        assert(node_kind(c[i]) == node_kind(b[i]));
    }
}

/// Pairs that interact keep interacting while their nodes keep their kinds,
/// and pairs appended after them that interact join them.
proof fn lemma_pairs_carry(n1: Seq<Node>, n2: Seq<Node>, ps1: Seq<Redex>, ps2: Seq<Redex>, from: int, lo: int)
    requires
        0 <= from,
        new_pairs_interact(n1, ps1, from, lo),
        kinds_kept(n1, n2),
        prefix_of(ps1, ps2),
        new_pairs_interact(n2, ps2, ps1.len() as int, lo),
    ensures
        new_pairs_interact(n2, ps2, from, lo),
{
    assert forall|i: int| from <= i < ps2.len() implies lo <= (#[trigger] ps2[i]).a < n2.len() && lo <= ps2[i].b < n2.len()
        && interacts(n2[ps2[i].a as int], n2[ps2[i].b as int]) by {
        if i < ps1.len() {
            assert(ps2.take(ps1.len() as int)[i] == ps2[i]);
            assert(ps2[i] == ps1[i]);
            let x = ps1[i];
            assert(node_kind(n2[x.a as int]) == node_kind(n1[x.a as int]));
            assert(node_kind(n2[x.b as int]) == node_kind(n1[x.b as int]));
        }
    }
}

/// Wiring a slot keeps every node's kind, and a pair it queues joins the
/// two nodes wired, which interact.
proof fn lemma_connect_pairs(
    nodes: Seq<Node>,
    pairs: Seq<Redex>,
    a: NodeId,
    a_slot: usize,
    b: NodeId,
    b_slot: usize,
    from: int,
    lo: int,
)
    requires
        connect_ok(nodes, a, a_slot, b),
        lo <= a,
        lo <= b,
        0 <= from,
        new_pairs_interact(nodes, pairs, from, lo),
    ensures
        kinds_kept(nodes, connect_spec(nodes, pairs, a, a_slot, b, b_slot).0),
        new_pairs_interact(
            connect_spec(nodes, pairs, a, a_slot, b, b_slot).0,
            connect_spec(nodes, pairs, a, a_slot, b, b_slot).1,
            from,
            lo,
        ),
{
    let (n2, p2) = connect_spec(nodes, pairs, a, a_slot, b, b_slot);
    assert forall|i: int| 0 <= i < nodes.len() implies node_kind(#[trigger] n2[i]) == node_kind(nodes[i]) by {}
    assert(p2.take(pairs.len() as int) =~= pairs);
    lemma_pairs_carry(nodes, n2, pairs, p2, from, lo);
}

/// Port `i` of a node; a node with one port has nothing in slot 1.
pub open spec fn port_at(n: Node, i: int) -> Port {
    match n {
        Node::Con { ports, .. } | Node::Dup { ports } => if i == 0 {
            ports[0]
        } else {
            ports[1]
        },
        Node::Ref { port, .. } | Node::Era { port } => if i == 0 {
            port
        } else {
            Port::null_spec()
        },
    }
}

/// The wire from slot `i` of node `a`, if any, leads to a node, and where
/// the two interact an active pair from position `from` on joins them.
pub open spec fn wire_queued(nodes: Seq<Node>, pairs: Seq<Redex>, from: int, a: int, i: int) -> bool {
    let p = port_at(nodes[a], i);
    !p.spec_is_null() ==> p.node < nodes.len() && (interacts(nodes[a], nodes[p.node as int]) ==> exists|j: int|
        from <= j < pairs.len() && (#[trigger] pairs[j]).a == a && pairs[j].b == p.node)
}

/// Every wire from the nodes numbered `lo` to `hi` (not included) is queued
/// as `wire_queued` says.
pub open spec fn wires_queued(nodes: Seq<Node>, pairs: Seq<Redex>, from: int, lo: int, hi: int) -> bool {
    forall|a: int, i: int| lo <= a < hi && 0 <= i < 2 ==> #[trigger] wire_queued(nodes, pairs, from, a, i)
}

/// The nodes of `before` stay as they are in `after`.
pub open spec fn nodes_kept(before: Seq<Node>, after: Seq<Node>) -> bool {
    &&& before.len() <= after.len()
    &&& forall|i: int| 0 <= i < before.len() ==> #[trigger] after[i] == before[i]
}

/// A queued wire stays queued while its port stays, the nodes keep their
/// kinds, and pairs are only appended.
proof fn lemma_wire_persist(n1: Seq<Node>, n2: Seq<Node>, p1: Seq<Redex>, p2: Seq<Redex>, from: int, a: int, i: int)
    requires
        wire_queued(n1, p1, from, a, i),
        0 <= from,
        0 <= a < n1.len(),
        port_at(n2[a], i) == port_at(n1[a], i),
        kinds_kept(n1, n2),
        prefix_of(p1, p2),
    ensures
        wire_queued(n2, p2, from, a, i),
{
    let p = port_at(n1[a], i);
    if !p.spec_is_null() {
        assert(node_kind(n2[a]) == node_kind(n1[a]));
        assert(node_kind(n2[p.node as int]) == node_kind(n1[p.node as int]));
        if interacts(n2[a], n2[p.node as int]) {
            let j = choose|j: int| from <= j < p1.len() && (#[trigger] p1[j]).a == a && p1[j].b == p.node;
            assert(p2.take(p1.len() as int)[j] == p2[j]);
            assert(from <= j < p2.len() && p2[j].a == a && p2[j].b == p.node);
        }
    }
}

proof fn lemma_wires_persist(n1: Seq<Node>, n2: Seq<Node>, p1: Seq<Redex>, p2: Seq<Redex>, from: int, lo: int, hi: int)
    requires
        wires_queued(n1, p1, from, lo, hi),
        0 <= from,
        0 <= lo,
        hi <= n1.len(),
        forall|a: int| lo <= a < hi ==> #[trigger] n2[a] == n1[a],
        kinds_kept(n1, n2),
        prefix_of(p1, p2),
    ensures
        wires_queued(n2, p2, from, lo, hi),
{
    assert forall|a: int, i: int| lo <= a < hi && 0 <= i < 2 implies #[trigger] wire_queued(n2, p2, from, a, i) by {
        assert(wire_queued(n1, p1, from, a, i));
        assert(n2[a] == n1[a]);
        lemma_wire_persist(n1, n2, p1, p2, from, a, i);
    }
}

/// Wiring slot `a_slot` of node `a` to node `b` queues that wire where the
/// two interact, and leaves the other slots and the other nodes as they are.
proof fn lemma_connect_wire(
    nodes: Seq<Node>,
    pairs: Seq<Redex>,
    a: NodeId,
    a_slot: usize,
    b: NodeId,
    b_slot: usize,
    from: int,
)
    requires
        connect_ok(nodes, a, a_slot, b),
        0 <= from <= pairs.len(),
    ensures
        wire_queued(
            connect_spec(nodes, pairs, a, a_slot, b, b_slot).0,
            connect_spec(nodes, pairs, a, a_slot, b, b_slot).1,
            from,
            a as int,
            a_slot as int,
        ),
        connect_spec(nodes, pairs, a, a_slot, b, b_slot).0.len() == nodes.len(),
        forall|x: int| 0 <= x < nodes.len() && x != a ==> #[trigger] connect_spec(nodes, pairs, a, a_slot, b, b_slot).0[x] == nodes[x],
        forall|i: int| 0 <= i < 2 && i != a_slot ==> #[trigger] port_at(connect_spec(nodes, pairs, a, a_slot, b, b_slot).0[a as int], i)
            == port_at(nodes[a as int], i),
        prefix_of(pairs, connect_spec(nodes, pairs, a, a_slot, b, b_slot).1),
{
    let (n2, p2) = connect_spec(nodes, pairs, a, a_slot, b, b_slot);
    assert(p2.take(pairs.len() as int) =~= pairs);
    if interacts(n2[a as int], n2[b as int]) {
        let j = pairs.len() as int;
        assert(from <= j < p2.len() && p2[j].a == a && p2[j].b == b);
    }
}

proof fn lemma_wires_from(nodes: Seq<Node>, pairs: Seq<Redex>, f1: int, f2: int, lo: int, hi: int)
    requires
        f1 <= f2,
        wires_queued(nodes, pairs, f2, lo, hi),
    ensures
        wires_queued(nodes, pairs, f1, lo, hi),
{
    assert forall|a: int, i: int| lo <= a < hi && 0 <= i < 2 implies #[trigger] wire_queued(nodes, pairs, f1, a, i) by {
        assert(wire_queued(nodes, pairs, f2, a, i));
        let p = port_at(nodes[a], i);
        if !p.spec_is_null() && interacts(nodes[a], nodes[p.node as int]) {
            let j = choose|j: int| f2 <= j < pairs.len() && (#[trigger] pairs[j]).a == a && pairs[j].b == p.node;
            assert(f1 <= j < pairs.len() && pairs[j].a == a && pairs[j].b == p.node);
        }
    }
}

/// Every active pair from position `from` on is a wire: its first node has
/// a slot that leads to its second.
pub open spec fn pairs_are_wires(nodes: Seq<Node>, pairs: Seq<Redex>, from: int) -> bool {
    forall|j: int|
        from <= j < pairs.len() ==> (#[trigger] pairs[j]).a < nodes.len() && exists|i: int|
            0 <= i < 2 && !port_at(nodes[pairs[j].a as int], i).spec_is_null() && #[trigger] port_at(
                nodes[pairs[j].a as int],
                i,
            ).node == pairs[j].b
}

/// `after` keeps every wire of `before`: a slot in use stays as it is.
pub open spec fn wires_kept(before: Seq<Node>, after: Seq<Node>) -> bool {
    &&& before.len() <= after.len()
    &&& forall|a: int, i: int|
        0 <= a < before.len() && 0 <= i < 2 && !port_at(before[a], i).spec_is_null() ==> #[trigger] port_at(after[a], i)
            == port_at(before[a], i)
}

proof fn lemma_wires_kept_trans(a: Seq<Node>, b: Seq<Node>, c: Seq<Node>)
    requires
        wires_kept(a, b),
        wires_kept(b, c),
    ensures
        wires_kept(a, c),
{
    assert forall|x: int, i: int| 0 <= x < a.len() && 0 <= i < 2 && !port_at(a[x], i).spec_is_null() implies #[trigger] port_at(
        c[x],
        i,
    ) == port_at(a[x], i) by {
        assert(port_at(b[x], i) == port_at(a[x], i));
        assert(port_at(c[x], i) == port_at(b[x], i));
    }
}

proof fn lemma_pairs_wires_carry(n1: Seq<Node>, n2: Seq<Node>, ps1: Seq<Redex>, ps2: Seq<Redex>, from: int)
    requires
        0 <= from,
        pairs_are_wires(n1, ps1, from),
        wires_kept(n1, n2),
        prefix_of(ps1, ps2),
        pairs_are_wires(n2, ps2, ps1.len() as int),
    ensures
        pairs_are_wires(n2, ps2, from),
{
    assert forall|j: int| from <= j < ps2.len() implies (#[trigger] ps2[j]).a < n2.len() && exists|i: int|
        0 <= i < 2 && !port_at(n2[ps2[j].a as int], i).spec_is_null() && #[trigger] port_at(n2[ps2[j].a as int], i).node
            == ps2[j].b by {
        if j < ps1.len() {
            assert(ps2.take(ps1.len() as int)[j] == ps2[j]);
            assert(ps2[j] == ps1[j]);
            let x = ps1[j];
            let i = choose|i: int|
                0 <= i < 2 && !port_at(n1[x.a as int], i).spec_is_null() && #[trigger] port_at(n1[x.a as int], i).node == x.b;
            assert(port_at(n2[x.a as int], i) == port_at(n1[x.a as int], i));
        }
    }
}

/// Wiring a free slot keeps every wire, and a pair it queues is that wire.
proof fn lemma_connect_as_wire(
    nodes: Seq<Node>,
    pairs: Seq<Redex>,
    a: NodeId,
    a_slot: usize,
    b: NodeId,
    b_slot: usize,
    from: int,
)
    requires
        connect_ok(nodes, a, a_slot, b),
        b != usize::MAX,
        port_at(nodes[a as int], a_slot as int).spec_is_null(),
        0 <= from <= pairs.len(),
        pairs_are_wires(nodes, pairs, from),
    ensures
        wires_kept(nodes, connect_spec(nodes, pairs, a, a_slot, b, b_slot).0),
        pairs_are_wires(
            connect_spec(nodes, pairs, a, a_slot, b, b_slot).0,
            connect_spec(nodes, pairs, a, a_slot, b, b_slot).1,
            from,
        ),
{
    let (n2, p2) = connect_spec(nodes, pairs, a, a_slot, b, b_slot);
    assert forall|x: int, i: int| 0 <= x < nodes.len() && 0 <= i < 2 && !port_at(nodes[x], i).spec_is_null() implies #[trigger] port_at(
        n2[x],
        i,
    ) == port_at(nodes[x], i) by {}
    assert(p2.take(pairs.len() as int) =~= pairs);
    if interacts(n2[a as int], n2[b as int]) {
        let j = pairs.len() as int;
        assert(p2[j].a == a && p2[j].b == b);
        assert(!port_at(n2[a as int], a_slot as int).spec_is_null() && port_at(n2[a as int], a_slot as int).node == b);
    }
    lemma_pairs_wires_carry(nodes, n2, pairs, p2, from);
}

proof fn lemma_prefix_refl(a: Seq<Redex>)
    ensures
        prefix_of(a, a),
{
    assert(a.take(a.len() as int) =~= a);
}

proof fn lemma_prefix_trans(a: Seq<Redex>, b: Seq<Redex>, c: Seq<Redex>)
    requires
        prefix_of(a, b),
        prefix_of(b, c),
    ensures
        prefix_of(a, c),
{
    assert(c.take(a.len() as int) =~= b.take(a.len() as int));
}

proof fn lemma_grows_trans(a: Map<NodeId, NodeId>, b: Map<NodeId, NodeId>, c: Map<NodeId, NodeId>)
    requires
        grows(a, b),
        grows(b, c),
    ensures
        grows(a, c),
{
    assert forall|k: NodeId| #[trigger] a.contains_key(k) implies c.contains_key(k) && c[k] == a[k] by {
        assert(b.contains_key(k));
    }
}

/// `m` is one-to-one.
pub open spec fn injective(m: Map<NodeId, NodeId>) -> bool {
    forall|x: NodeId, y: NodeId| #[trigger] m.contains_key(x) && #[trigger] m.contains_key(y) && x != y ==> m[x] != m[y]
}

/// `after` is `before` with copies appended: the nodes of `before` are
/// unchanged, and `m` maps each copied node one-to-one to a new node that
/// copies it, its ports pointing at the copies of their targets.
pub open spec fn copies_appended(before: Seq<Node>, after: Seq<Node>, m: Map<NodeId, NodeId>) -> bool {
    &&& after.len() == before.len() + m.len()
    &&& after.take(before.len() as int) == before
    &&& injective(m)
    &&& forall|x: NodeId| #[trigger] m.contains_key(x) ==> x < before.len() && before.len() <= m[x] < after.len()
        && node_copy(before[x as int], after[m[x] as int], m)
}

/// The text of a port: `NULL`, or its node and slot.
pub open spec fn port_text(p: Port) -> Seq<char> {
    if p.spec_is_null() {
        "NULL"@
    } else {
        decimal(p.node as nat) + ":"@ + decimal(p.slot as nat)
    }
}

/// The text of a node.
pub open spec fn node_text(x: Node) -> Seq<char> {
    match x {
        Node::Con { tag, ports } => "CON("@ + signed_decimal(tag as int) + ")["@ + port_text(ports[0]) + ", "@
            + port_text(ports[1]) + "]"@,
        Node::Dup { ports } => "DUP["@ + port_text(ports[0]) + ", "@ + port_text(ports[1]) + "]"@,
        Node::Ref { name, port } => "REF("@ + name@ + "):"@ + port_text(port),
        Node::Era { port } => "ERA:"@ + port_text(port),
    }
}

/// A finite set of ids that all lie below `n` has at most `n` members.
proof fn lemma_ids_below(s: Set<NodeId>, n: nat)
    requires
        s.finite(),
        n <= usize::MAX,
        forall|x: NodeId| #[trigger] s.contains(x) ==> x < n,
    ensures
        s.len() <= n,
    decreases n,
{
    if n == 0 {
        assert(s =~= Set::empty());
    } else {
        let top = (n - 1) as NodeId;
        let s2 = s.remove(top);
        lemma_ids_below(s2, (n - 1) as nat);
    }
}

pub struct Net {
    nodes: Vec<Node>,
    active_pairs: VecDeque<Redex>,
    definitions: Vec<(String, NodeId)>,
}

impl Net {
    pub closed spec fn nodes(&self) -> Seq<Node> {
        self.nodes@
    }

    /// The queue of active pairs, front first.
    pub closed spec fn pairs(&self) -> Seq<Redex> {
        self.active_pairs@
    }

    /// The root that a name is defined to, if any.
    /// The definitions as names and roots, in the order they were first
    /// made; a name's root is that of its first entry.
    pub closed spec fn definition_entries(&self) -> Seq<(Seq<char>, NodeId)> {
        self.definitions@.map_values(|d: (String, NodeId)| (d.0@, d.1))
    }

    pub closed spec fn definition(&self, name: Seq<char>) -> Option<NodeId> {
        lookup(self.definition_entries(), name)
    }

    pub fn new() -> (net: Self)
        ensures
            net.nodes() == Seq::<Node>::empty(),
            net.pairs() == Seq::<Redex>::empty(),
            forall|k: Seq<char>| #[trigger] net.definition(k) is None,
    {
        Self { nodes: Vec::new(), active_pairs: VecDeque::new(), definitions: Vec::new() }
    }

    /// Adds a node and returns its id.
    pub fn create_node(&mut self, node: Node) -> (id: NodeId)
        ensures
            id == old(self).nodes().len(),
            final(self).nodes() == old(self).nodes().push(node),
            final(self).pairs() == old(self).pairs(),
            forall|k: Seq<char>| #[trigger] final(self).definition(k) == old(self).definition(k),
    {
        let id = self.nodes.len();
        self.nodes.push(node);
        assert(self.definitions@ == old(self).definitions@);
        id
    }

    pub fn get_node(&self, id: NodeId) -> (n: &Node)
        requires
            id < self.nodes().len(),
        ensures
            *n == self.nodes()[id as int],
    {
        &self.nodes[id]
    }

    pub fn get_node_mut(&mut self, id: NodeId) -> (n: &mut Node)
        requires
            id < old(self).nodes().len(),
        ensures
            *n == old(self).nodes()[id as int],
            final(self).nodes() == old(self).nodes().update(id as int, *final(n)),
            final(self).pairs() == old(self).pairs(),
            forall|k: Seq<char>| #[trigger] final(self).definition(k) == old(self).definition(k),
    {
        &mut self.nodes[id]
    }

    /// Points slot `a_slot` of node `a` at slot `b_slot` of node `b`, and
    /// queues the pair if the two nodes interact.
    pub fn connect(&mut self, a: NodeId, a_slot: usize, b: NodeId, b_slot: usize)
        requires
            connect_ok(old(self).nodes(), a, a_slot, b),
        ensures
            (final(self).nodes(), final(self).pairs()) == connect_spec(
                old(self).nodes(),
                old(self).pairs(),
                a,
                a_slot,
                b,
                b_slot,
            ),
            forall|k: Seq<char>| #[trigger] final(self).definition(k) == old(self).definition(k),
    {
        let p = Port::new(b, b_slot);
        let updated = match &self.nodes[a] {
            Node::Con { tag, ports } => Node::Con {
                tag: *tag,
                ports: if a_slot == 0 {
                    [p, ports[1]]
                } else {
                    [ports[0], p]
                },
            },
            Node::Dup { ports } => Node::Dup {
                ports: if a_slot == 0 {
                    [p, ports[1]]
                } else {
                    [ports[0], p]
                },
            },
            Node::Ref { name, .. } => Node::Ref { name: name.clone(), port: p },
            Node::Era { .. } => Node::Era { port: p },
        };
        self.nodes.set(a, updated);
        if self.is_redex(a, b) {
            self.active_pairs.push_back(Redex { a, b });
        }
        assert(self.definitions@ == old(self).definitions@);
    }

    fn is_redex(&self, a: NodeId, b: NodeId) -> (r: bool)
        requires
            a < self.nodes().len(),
            b < self.nodes().len(),
        ensures
            r == interacts(self.nodes()[a as int], self.nodes()[b as int]),
    {
        match (&self.nodes[a], &self.nodes[b]) {
            (Node::Con { tag: tag_a, .. }, Node::Con { tag: tag_b, .. }) => *tag_a == *tag_b,
            (Node::Con { .. }, Node::Dup { .. }) | (Node::Dup { .. }, Node::Con { .. }) => true,
            (Node::Con { .. }, Node::Era { .. }) | (Node::Era { .. }, Node::Con { .. }) => true,
            (Node::Dup { .. }, Node::Dup { .. }) => true,
            (Node::Dup { .. }, Node::Era { .. }) | (Node::Era { .. }, Node::Dup { .. }) => true,
            (Node::Ref { .. }, _) | (_, Node::Ref { .. }) => true,
            _ => false,
        }
    }

    /// Defines `name` as the subgraph rooted at `root`, replacing any
    /// earlier definition of that name.
    pub fn add_definition(&mut self, name: &str, root: NodeId)
        ensures
            final(self).nodes() == old(self).nodes(),
            final(self).pairs() == old(self).pairs(),
            forall|k: Seq<char>| #[trigger]
                final(self).definition(k) == if k == name@ {
                    Some(root)
                } else {
                    old(self).definition(k)
                },
    {
        let key = name.to_string();
        let ghost old_defs = self.definitions@.map_values(|d: (String, NodeId)| (d.0@, d.1));
        let mut i: usize = 0;
        while i < self.definitions.len()
            invariant
                i <= self.definitions@.len(),
                self.definitions@ == old(self).definitions@,
                self.nodes@ == old(self).nodes@,
                self.active_pairs@ == old(self).active_pairs@,
                key@ == name@,
                old_defs == self.definitions@.map_values(|d: (String, NodeId)| (d.0@, d.1)),
                forall|j: int| 0 <= j < i ==> #[trigger] self.definitions@[j].0@ != name@,
            decreases self.definitions@.len() - i,
        {
            if self.definitions[i].0.eq(&key) {
                let entry = (key, root);
                self.definitions.set(i, entry);
                proof {
                    let new_defs = self.definitions@.map_values(|d: (String, NodeId)| (d.0@, d.1));
                    assert(new_defs =~= old_defs.update(i as int, (name@, root)));
                    assert forall|k: Seq<char>| #[trigger] lookup(new_defs, k) == if k == name@ {
                        Some(root)
                    } else {
                        lookup(old_defs, k)
                    } by {
                        lemma_lookup_update(old_defs, i as int, name@, root, k);
                    }
                }
                return;
            }
            i = i + 1;
        }
        self.definitions.push((key, root));
        proof {
            let new_defs = self.definitions@.map_values(|d: (String, NodeId)| (d.0@, d.1));
            assert(new_defs =~= old_defs.push((name@, root)));
            assert forall|k: Seq<char>| #[trigger] lookup(new_defs, k) == if k == name@ {
                Some(root)
            } else {
                lookup(old_defs, k)
            } by {
                lemma_lookup_push(old_defs, name@, root, k);
            }
        }
    }

    pub fn get_definition(&self, name: &str) -> (r: Option<NodeId>)
        ensures
            r == self.definition(name@),
    {
        let key = name.to_string();
        let ghost defs = self.definitions@.map_values(|d: (String, NodeId)| (d.0@, d.1));
        assert(defs.skip(0) =~= defs);
        let mut i: usize = 0;
        while i < self.definitions.len()
            invariant
                i <= self.definitions@.len(),
                key@ == name@,
                defs == self.definitions@.map_values(|d: (String, NodeId)| (d.0@, d.1)),
                lookup(defs, name@) == lookup(defs.skip(i as int), name@),
            decreases self.definitions@.len() - i,
        {
            proof {
                assert(defs.skip(i as int).drop_first() =~= defs.skip(i + 1));
            }
            if self.definitions[i].0.eq(&key) {
                return Some(self.definitions[i].1);
            }
            i = i + 1;
        }
        None
    }

    /// Takes the active pair at the front of the queue.
    pub fn next_redex(&mut self) -> (r: Option<Redex>)
        ensures
            final(self).nodes() == old(self).nodes(),
            forall|k: Seq<char>| #[trigger] final(self).definition(k) == old(self).definition(k),
            match r {
                Some(x) => old(self).pairs().len() > 0 && x == old(self).pairs()[0]
                    && final(self).pairs() == old(self).pairs().drop_first(),
                None => old(self).pairs().len() == 0 && final(self).pairs() == old(self).pairs(),
            },
    {
        let r = self.active_pairs.pop_front();
        assert(self.definitions@ == old(self).definitions@);
        r
    }

    pub fn node_count(&self) -> (n: usize)
        ensures
            n == self.nodes().len(),
    {
        self.nodes.len()
    }

    pub fn redex_count(&self) -> (n: usize)
        ensures
            n == self.pairs().len(),
    {
        self.active_pairs.len()
    }

    /// The active pairs, in the order they are taken.
    pub fn active_pairs(&self) -> (r: Vec<Redex>)
        ensures
            r@ == self.pairs(),
    {
        let mut r: Vec<Redex> = Vec::new();
        let mut i: usize = 0;
        while i < self.active_pairs.len()
            invariant
                i <= self.active_pairs@.len(),
                r@ == self.active_pairs@.subrange(0, i as int),
            decreases self.active_pairs@.len() - i,
        {
            r.push(self.active_pairs[i]);
            i = i + 1;
            assert(r@ =~= self.active_pairs@.subrange(0, i as int));
        }
        assert(self.active_pairs@.subrange(0, i as int) =~= self.active_pairs@);
        r
    }

    /// The names defined, each with its root node, in the order they were
    /// first defined.
    pub fn definition_list(&self) -> (r: Vec<(String, NodeId)>)
        ensures
            r@.map_values(|d: (String, NodeId)| (d.0@, d.1)) == self.definition_entries(),
    {
        let mut r: Vec<(String, NodeId)> = Vec::new();
        let mut i: usize = 0;
        while i < self.definitions.len()
            invariant
                i <= self.definitions@.len(),
                r@.len() == i,
                forall|j: int| 0 <= j < i ==> (#[trigger] r@[j]).0@ == self.definitions@[j].0@ && r@[j].1 == self.definitions@[j].1,
            decreases self.definitions@.len() - i,
        {
            let (name, root) = &self.definitions[i];
            r.push((name.clone(), *root));
            i = i + 1;
        }
        assert(r@.map_values(|d: (String, NodeId)| (d.0@, d.1)) =~= self.definition_entries());
        r
    }

    /// Copies the subgraph reachable from `root` and returns the copy of
    /// `root`, which is the first new node.  Each reachable node, and no
    /// other, is copied once; the copies are wired as the originals are.
    /// Wiring them queues active pairs behind the old ones: each new pair is
    /// a wire from a copy to a copy that it interacts with, and each such
    /// wire is queued.  Only the reachable nodes need their
    /// ports to lie within the net.
    pub fn clone_subgraph(&mut self, root: NodeId) -> (r: NodeId)
        requires
            root < old(self).nodes().len(),
            wired_from(old(self).nodes(), root),
        ensures
            r == old(self).nodes().len(),
            exists|m: Map<NodeId, NodeId>|
                #![trigger copies_appended(old(self).nodes(), final(self).nodes(), m)]
                copies_appended(old(self).nodes(), final(self).nodes(), m) && m.contains_key(root)
                    && m[root] == r && forall|x: NodeId| #[trigger] m.contains_key(x) <==> reaches(
                    old(self).nodes(),
                    root,
                    x,
                ),
            prefix_of(old(self).pairs(), final(self).pairs()),
            new_pairs_interact(final(self).nodes(), final(self).pairs(), old(self).pairs().len() as int, old(self).nodes().len() as int),
            wires_queued(
                final(self).nodes(),
                final(self).pairs(),
                old(self).pairs().len() as int,
                old(self).nodes().len() as int,
                final(self).nodes().len() as int,
            ),
            pairs_are_wires(final(self).nodes(), final(self).pairs(), old(self).pairs().len() as int),
            forall|k: Seq<char>| #[trigger] final(self).definition(k) == old(self).definition(k),
    {
        let mut cloned_nodes: HashMap<NodeId, NodeId> = HashMap::new();
        let ghost orig = self.nodes();
        assert(self.nodes().take(orig.len() as int) =~= orig);
        assert(cloned_nodes@ =~= Map::<NodeId, NodeId>::empty());
        proof {
            lemma_reaches_root(orig, root);
        }
        let r = self.clone_node(root, &mut cloned_nodes, Ghost(orig), Ghost(root), Ghost(Set::empty()));
        assert(self.nodes().take(orig.len() as int) == orig);
        let ghost m = cloned_nodes@;
        assert(copies_appended(orig, self.nodes(), m));
        assert forall|x: NodeId| #[trigger] m.contains_key(x) <==> reaches(orig, root, x) by {
            if reaches(orig, root, x) {
                lemma_copies_cover(orig, self.nodes(), m, root, x);
            }
        }
        r
    }

    /// The state of a copy in progress from `root`: `memo` maps the original
    /// nodes copied so far, all reachable from `root`, to their copies; those
    /// whose copy is finished (all but `active`) are wired as their
    /// originals.
    spec fn copying(&self, memo: Map<NodeId, NodeId>, orig: Seq<Node>, root: NodeId, active: Set<NodeId>) -> bool {
        &&& wired_from(orig, root)
        &&& forall|x: NodeId| #[trigger] memo.contains_key(x) ==> reaches(orig, root, x)
        &&& self.nodes().len() == orig.len() + memo.len()
        &&& self.nodes().take(orig.len() as int) == orig
        &&& injective(memo)
        &&& active.subset_of(memo.dom())
        &&& forall|x: NodeId| #[trigger] memo.contains_key(x) ==> x < orig.len() && orig.len() <= memo[x] < self.nodes().len()
        &&& forall|x: NodeId| #[trigger] memo.contains_key(x) && !active.contains(x) ==> node_copy(orig[x as int], self.nodes()[memo[x] as int], memo)
    }

    /// Copies node `id` (reachable from `root`) and what it connects to, and
    /// returns the copy.  A node already copied gives its copy and nothing
    /// changes; otherwise its copy is made at once, as the next node, and
    /// recorded before the nodes it connects to are visited.
    #[verifier::rlimit(40)]
    fn clone_node(
        &mut self,
        id: NodeId,
        cloned_nodes: &mut HashMap<NodeId, NodeId>,
        Ghost(orig): Ghost<Seq<Node>>,
        Ghost(root): Ghost<NodeId>,
        Ghost(active): Ghost<Set<NodeId>>,
    ) -> (new_id: NodeId)
        requires
            id < orig.len(),
            reaches(orig, root, id),
            old(self).copying(old(cloned_nodes)@, orig, root, active),
        ensures
            final(self).copying(final(cloned_nodes)@, orig, root, active),
            old(cloned_nodes)@.contains_key(id) ==> new_id == old(cloned_nodes)@[id] && final(cloned_nodes)@
                == old(cloned_nodes)@ && final(self).nodes() == old(self).nodes() && final(self).pairs() == old(
                self,
            ).pairs(),
            !old(cloned_nodes)@.contains_key(id) ==> new_id == old(self).nodes().len(),
            kinds_kept(old(self).nodes(), final(self).nodes()),
            nodes_kept(old(self).nodes(), final(self).nodes()),
            wires_kept(old(self).nodes(), final(self).nodes()),
            new_pairs_interact(final(self).nodes(), final(self).pairs(), old(self).pairs().len() as int, orig.len() as int),
            pairs_are_wires(final(self).nodes(), final(self).pairs(), old(self).pairs().len() as int),
            wires_queued(
                final(self).nodes(),
                final(self).pairs(),
                old(self).pairs().len() as int,
                old(self).nodes().len() as int,
                final(self).nodes().len() as int,
            ),
            grows(old(cloned_nodes)@, final(cloned_nodes)@),
            final(cloned_nodes)@.contains_key(id),
            final(cloned_nodes)@[id] == new_id,
            forall|x: NodeId| #[trigger] active.contains(x) ==> final(self).nodes()[old(cloned_nodes)@[x] as int]
                == old(self).nodes()[old(cloned_nodes)@[x] as int],
            prefix_of(old(self).pairs(), final(self).pairs()),
            forall|k: Seq<char>| #[trigger] final(self).definition(k) == old(self).definition(k),
        decreases orig.len() - old(cloned_nodes)@.len(),
    {
        if let Some(c) = cloned_nodes.get(&id) {
            proof {
                lemma_prefix_refl(self.pairs());
                assert(kinds_kept(self.nodes(), self.nodes()));
                assert(nodes_kept(self.nodes(), self.nodes()));
                assert(wires_kept(self.nodes(), self.nodes()));
            }
            return *c;
        }
        proof {
            assert(self.nodes()[id as int] == orig[id as int]);
            assert(ports_within(orig[id as int], orig.len()));
        }
        let (fresh, p0, p1): (Node, Port, Port) = match &self.nodes[id] {
            Node::Con { tag, ports } => (Node::Con { tag: *tag, ports: [Port::null(), Port::null()] }, ports[0], ports[1]),
            Node::Dup { ports } => (Node::Dup { ports: [Port::null(), Port::null()] }, ports[0], ports[1]),
            Node::Ref { name, port } => (Node::Ref { name: name.clone(), port: Port::null() }, *port, Port::null()),
            Node::Era { port } => (Node::Era { port: Port::null() }, *port, Port::null()),
        };
        let ghost memo0 = cloned_nodes@;
        let ghost nodes0 = self.nodes();
        let new_id = self.create_node(fresh);
        cloned_nodes.insert(id, new_id);
        let ghost lo = orig.len() as int;
        let ghost from = old(self).pairs().len() as int;
        let ghost sz = nodes0.len() as int;
        assert(kinds_kept(nodes0, self.nodes()));
        assert(nodes_kept(nodes0, self.nodes()));
        assert(port_at(self.nodes()[sz], 0).spec_is_null());
        assert(port_at(self.nodes()[sz], 1).spec_is_null());
        assert(wires_kept(nodes0, self.nodes()));
        proof {
            lemma_ids_below(cloned_nodes@.dom(), orig.len());
            lemma_prefix_refl(self.pairs());
        }
        let ghost memo1 = cloned_nodes@;
        let ghost nodes1 = self.nodes();
        let ghost nodes_pairs1 = self.pairs();
        assert(nodes_pairs1 == old(self).pairs());
        let ghost act2 = active.insert(id);
        assert(memo1.dom() =~= memo0.dom().insert(id));
        assert(memo1.len() == memo0.len() + 1);
        assert(grows(memo0, memo1));
        assert forall|x: NodeId| #[trigger] active.contains(x) implies nodes1[memo0[x] as int]
            == nodes0[memo0[x] as int] by {
            assert(memo0.contains_key(x));
        }
        assert(self.nodes().take(orig.len() as int) =~= orig);
        assert(self.copying(cloned_nodes@, orig, root, act2));
        if !p0.is_null() {
            let ghost pairs_before = self.pairs();
            proof {
                lemma_reaches_step(orig, root, id, p0.node);
            }
            let c = self.clone_node(p0.node, cloned_nodes, Ghost(orig), Ghost(root), Ghost(act2));
            let ghost pairs_mid = self.pairs();
            assert(memo1.contains_key(id));
            assert(cloned_nodes@.contains_key(id) && cloned_nodes@[id] == new_id);
            assert(orig.len() <= new_id < self.nodes().len());
            let count = self.node_count();
            let ghost nodes_mid = self.nodes();
            proof {
                lemma_pairs_carry(nodes1, nodes_mid, pairs_before, pairs_mid, from, lo);
                lemma_kinds_trans(nodes0, nodes1, nodes_mid);
                lemma_connect_pairs(nodes_mid, pairs_mid, new_id, 0, c, p0.slot, from, lo);
                lemma_wires_from(nodes_mid, pairs_mid, from, pairs_before.len() as int, sz + 1, nodes_mid.len() as int);
                lemma_connect_wire(nodes_mid, pairs_mid, new_id, 0, c, p0.slot, from);
                assert(c < count);
                assert(nodes_mid[sz] == nodes1[sz]);
                lemma_pairs_wires_carry(nodes1, nodes_mid, pairs_before, pairs_mid, from);
                lemma_wires_kept_trans(nodes0, nodes1, nodes_mid);
                lemma_connect_as_wire(nodes_mid, pairs_mid, new_id, 0, c, p0.slot, from);
            }
            self.connect(new_id, 0, c, p0.slot);
            proof {
                lemma_kinds_trans(nodes0, nodes_mid, self.nodes());
                lemma_wires_kept_trans(nodes0, nodes_mid, self.nodes());
                lemma_wires_persist(nodes_mid, self.nodes(), pairs_mid, self.pairs(), from, sz + 1, nodes_mid.len() as int);
                assert(port_at(self.nodes()[sz], 1) == port_at(nodes1[sz], 1));
                assert(nodes_kept(nodes0, self.nodes()));
            }
            assert(self.nodes().take(orig.len() as int) =~= orig);
            assert(prefix_of(pairs_mid, self.pairs())) by {
                assert(self.pairs().take(pairs_mid.len() as int) =~= pairs_mid);
            }
            proof {
                lemma_prefix_trans(pairs_before, pairs_mid, self.pairs());
            }
        }
        let ghost memo2 = cloned_nodes@;
        let ghost nodes2 = self.nodes();
        let ghost pairs2 = self.pairs();
        proof {
            lemma_prefix_refl(pairs2);
        }
        assert forall|x: NodeId| #[trigger] act2.contains(x) && x != id implies nodes2[memo1[x] as int]
            == nodes1[memo1[x] as int] by {
            assert(memo1.contains_key(x));
        }
        assert(self.copying(cloned_nodes@, orig, root, act2));
        assert(grows(memo1, memo2));
        proof {
            lemma_grows_trans(memo0, memo1, memo2);
            assert forall|x: NodeId| #[trigger] memo1.dom().contains(x) implies memo2.dom().contains(x) by {
                assert(memo1.contains_key(x));
            }
            assert(memo2.dom().finite());
            vstd::set_lib::lemma_len_subset(memo1.dom(), memo2.dom());
            lemma_ids_below(memo2.dom(), orig.len());
            assert(memo2.len() >= memo1.len());
            lemma_prefix_trans(old(self).pairs(), nodes_pairs1, self.pairs());
        }
        if !p1.is_null() {
            let ghost pairs_before = self.pairs();
            proof {
                lemma_reaches_step(orig, root, id, p1.node);
            }
            let c = self.clone_node(p1.node, cloned_nodes, Ghost(orig), Ghost(root), Ghost(act2));
            let ghost pairs_mid = self.pairs();
            assert(memo2.contains_key(id));
            assert(cloned_nodes@.contains_key(id) && cloned_nodes@[id] == new_id);
            assert(orig.len() <= new_id < self.nodes().len());
            let count = self.node_count();
            let ghost nodes_mid = self.nodes();
            proof {
                lemma_pairs_carry(nodes2, nodes_mid, pairs_before, pairs_mid, from, lo);
                lemma_kinds_trans(nodes0, nodes2, nodes_mid);
                lemma_connect_pairs(nodes_mid, pairs_mid, new_id, 1, c, p1.slot, from, lo);
                lemma_wires_from(nodes_mid, pairs_mid, from, pairs_before.len() as int, nodes2.len() as int, nodes_mid.len() as int);
                lemma_connect_wire(nodes_mid, pairs_mid, new_id, 1, c, p1.slot, from);
                assert(c < count);
                assert(nodes_mid[sz] == nodes2[sz]);
                lemma_pairs_wires_carry(nodes2, nodes_mid, pairs_before, pairs_mid, from);
                lemma_wires_kept_trans(nodes0, nodes2, nodes_mid);
                lemma_connect_as_wire(nodes_mid, pairs_mid, new_id, 1, c, p1.slot, from);
            }
            self.connect(new_id, 1, c, p1.slot);
            proof {
                lemma_kinds_trans(nodes0, nodes_mid, self.nodes());
                lemma_kinds_trans(nodes2, nodes_mid, self.nodes());
                lemma_wires_kept_trans(nodes0, nodes_mid, self.nodes());
                lemma_wires_persist(nodes_mid, self.nodes(), pairs_mid, self.pairs(), from, nodes2.len() as int, nodes_mid.len() as int);
                assert(prefix_of(pairs_before, self.pairs())) by {
                    assert(self.pairs().take(pairs_mid.len() as int) =~= pairs_mid);
                    lemma_prefix_trans(pairs_before, pairs_mid, self.pairs());
                }
                lemma_wires_persist(nodes2, self.nodes(), pairs_before, self.pairs(), from, sz + 1, nodes2.len() as int);
                assert(port_at(self.nodes()[sz], 0) == port_at(nodes2[sz], 0));
                lemma_wire_persist(nodes2, self.nodes(), pairs_before, self.pairs(), from, sz, 0);
                assert(nodes_kept(nodes0, self.nodes()));
                assert(wires_queued(self.nodes(), self.pairs(), from, sz + 1, self.nodes().len() as int)) by {
                    assert forall|a: int, i: int| sz + 1 <= a < self.nodes().len() && 0 <= i < 2 implies #[trigger] wire_queued(
                        self.nodes(),
                        self.pairs(),
                        from,
                        a,
                        i,
                    ) by {
                        if a < nodes2.len() {
                            assert(wire_queued(self.nodes(), self.pairs(), from, a, i));
                        }
                    }
                }
            }
            assert(self.nodes().take(orig.len() as int) =~= orig);
            assert(prefix_of(pairs_mid, self.pairs())) by {
                assert(self.pairs().take(pairs_mid.len() as int) =~= pairs_mid);
            }
            proof {
                lemma_prefix_trans(pairs_before, pairs_mid, self.pairs());
            }
        }
        let ghost memo3 = cloned_nodes@;
        let ghost nodes3 = self.nodes();
        assert(wires_queued(self.nodes(), self.pairs(), from, sz, self.nodes().len() as int)) by {
            assert(wire_queued(self.nodes(), self.pairs(), from, sz, 0));
            assert(wire_queued(self.nodes(), self.pairs(), from, sz, 1));
            assert(wires_queued(self.nodes(), self.pairs(), from, sz + 1, self.nodes().len() as int));
        }
        proof {
            lemma_prefix_trans(old(self).pairs(), pairs2, self.pairs());
        }
        assert forall|x: NodeId| #[trigger] act2.contains(x) && x != id implies nodes3[memo2[x] as int]
            == nodes2[memo2[x] as int] by {
            assert(memo2.contains_key(x));
        }
        proof {
            lemma_grows_trans(memo0, memo2, memo3);
        }
        assert forall|x: NodeId| #[trigger] active.contains(x) implies nodes3[memo0[x] as int]
            == nodes0[memo0[x] as int] by {
            assert(memo0.contains_key(x));
            assert(act2.contains(x) && x != id);
            assert(memo1.contains_key(x));
            assert(memo2.contains_key(x));
        }
        new_id
    }

    fn port_str(&self, port: &Port) -> (s: String)
        ensures
            s@ == port_text(*port),
    {
        let mut s = String::new();
        if port.is_null() {
            push_str(&mut s, "NULL");
        } else {
            push_decimal(&mut s, port.node as u64);
            push_str(&mut s, ":");
            push_decimal(&mut s, port.slot as u64);
        }
        s
    }

    /// The text of a node: its variant, tag or name, and ports.
    pub fn node_str(&self, id: NodeId) -> (s: String)
        requires
            id < self.nodes().len(),
        ensures
            s@ == node_text(self.nodes()[id as int]),
    {
        let mut s = String::new();
        match &self.nodes[id] {
            Node::Con { tag, ports } => {
                push_str(&mut s, "CON(");
                push_signed_decimal(&mut s, *tag as i64);
                push_str(&mut s, ")[");
                push_str(&mut s, self.port_str(&ports[0]).as_str());
                push_str(&mut s, ", ");
                push_str(&mut s, self.port_str(&ports[1]).as_str());
                push_str(&mut s, "]");
            },
            Node::Dup { ports } => {
                push_str(&mut s, "DUP[");
                push_str(&mut s, self.port_str(&ports[0]).as_str());
                push_str(&mut s, ", ");
                push_str(&mut s, self.port_str(&ports[1]).as_str());
                push_str(&mut s, "]");
            },
            Node::Ref { name, port } => {
                push_str(&mut s, "REF(");
                push_str(&mut s, name.as_str());
                push_str(&mut s, "):");
                push_str(&mut s, self.port_str(port).as_str());
            },
            Node::Era { port } => {
                push_str(&mut s, "ERA:");
                push_str(&mut s, self.port_str(port).as_str());
            },
        }
        s
    }
}

} // verus!
