//! VICE: reduces an IR net to the integer that its root port denotes.
//!
//! The denotation of a port is given by `eval_port_spec` with an explicit
//! fuel bound: `None` means the fuel ran out or an operator overflowed.  The
//! reducer is defined on every net whose root denotes a value for some fuel.
use crate::ir::{Cell, CellId, CellKind, Net, OpKind, Port};
use std::collections::HashMap;
use std::time::Instant;
use vstd::arithmetic::div_mod::{lemma_div_pos_is_pos, lemma_fundamental_div_mod, lemma_mod_pos_bound};
use vstd::prelude::*;

verus! {

broadcast use vstd::std_specs::hash::group_hash_axioms;

/// `x` as an `i64`, if it fits.
pub open spec fn fit(x: int) -> Option<i64> {
    if i64::MIN <= x <= i64::MAX {
        Some(x as i64)
    } else {
        None
    }
}

/// Integer division rounding toward zero.
pub open spec fn trunc_div(x: int, d: int) -> int {
    if x == 0 {
        0
    } else if x > 0 && d > 0 {
        x / d
    } else if x < 0 && d < 0 {
        ((x * -1) / (d * -1))
    } else if x < 0 {
        ((x * -1) / d) * -1
    } else {
        (x / (d * -1)) * -1
    }
}

/// The remainder that goes with `trunc_div`: it takes the sign of `x`.
pub open spec fn trunc_rem(x: int, d: int) -> int {
    if x == 0 {
        0
    } else if x > 0 && d > 0 {
        x % d
    } else if x < 0 && d < 0 {
        ((x * -1) % (d * -1)) * -1
    } else if x < 0 {
        ((x * -1) % d) * -1
    } else {
        x % (d * -1)
    }
}

pub open spec fn flag(b: bool) -> i64 {
    if b {
        1
    } else {
        0
    }
}

/// What an operator cell computes from its two inputs; `None` where the
/// machine operation would overflow.  Division and remainder by zero give 0.
pub open spec fn op_result(kind: OpKind, l: i64, r: i64) -> Option<i64> {
    match kind {
        OpKind::Add => fit(l + r),
        OpKind::Sub => fit(l - r),
        OpKind::Mul => fit(l * r),
        OpKind::Div => if r == 0 {
            Some(0)
        } else {
            fit(trunc_div(l as int, r as int))
        },
        OpKind::Mod => if r == 0 {
            Some(0)
        } else if l == i64::MIN && r == -1 {
            None
        } else {
            fit(trunc_rem(l as int, r as int))
        },
        OpKind::Eq => Some(flag(l == r)),
        OpKind::Ne => Some(flag(l != r)),
        OpKind::Lt => Some(flag(l < r)),
        OpKind::Le => Some(flag(l <= r)),
        OpKind::Gt => Some(flag(l > r)),
        OpKind::Ge => Some(flag(l >= r)),
        OpKind::And => Some(flag(l != 0 && r != 0)),
        OpKind::Or => Some(flag(l != 0 || r != 0)),
        OpKind::Not => Some(flag(l == 0)),
    }
}

/// The port a pass-through cell (constructor, duplicator, eraser, switch)
/// forwards to: its second auxiliary port, else its first, else its principal.
pub open spec fn forward_port(c: Cell) -> Option<Port> {
    if c.ports[2] is Some {
        c.ports[2]
    } else if c.ports[1] is Some {
        c.ports[1]
    } else {
        c.ports[0]
    }
}

/// The value of a port, with at most `fuel` steps of unfolding.  A principal
/// port denotes its cell; an auxiliary port denotes whatever its slot is wired
/// to; a free port denotes the interface entry with that index.  Dangling
/// references denote 0.
pub open spec fn eval_port_spec(net: Net, p: Port, fuel: nat) -> Option<i64>
    decreases fuel, 1nat,
{
    if fuel == 0 {
        None
    } else {
        match p {
            Port::Principal(id) => eval_cell_spec(net, id, (fuel - 1) as nat),
            Port::Aux(id, idx) => if net.cells@.contains_key(id) && 1 + idx < 3
                && net.cells@[id].ports[1 + idx] is Some {
                eval_port_spec(net, net.cells@[id].ports[1 + idx]->0, (fuel - 1) as nat)
            } else {
                Some(0)
            },
            Port::Free(i) => if i < net.iface@.len() {
                eval_port_spec(net, net.iface@[i as int], (fuel - 1) as nat)
            } else {
                Some(0)
            },
        }
    }
}

/// The value of an optional port: an unwired slot reads as 0.
pub open spec fn eval_opt_spec(net: Net, p: Option<Port>, fuel: nat) -> Option<i64>
    decreases fuel, 2nat,
{
    match p {
        Some(q) => eval_port_spec(net, q, fuel),
        None => Some(0),
    }
}

/// The value of a cell: a number is itself, an operator applies to its two
/// auxiliary inputs, any other cell forwards; a missing cell is 0.
pub open spec fn eval_cell_spec(net: Net, id: CellId, fuel: nat) -> Option<i64>
    decreases fuel, 0nat,
{
    if fuel == 0 {
        None
    } else if !net.cells@.contains_key(id) {
        Some(0)
    } else {
        let c = net.cells@[id];
        match c.kind {
            CellKind::Num(v) => Some(v),
            CellKind::Op(k) => {
                let l = eval_opt_spec(net, c.ports[1], (fuel - 1) as nat);
                let r = eval_opt_spec(net, c.ports[2], (fuel - 1) as nat);
                match (l, r) {
                    (Some(a), Some(b)) => op_result(k, a, b),
                    _ => None,
                }
            },
            _ => eval_opt_spec(net, forward_port(c), (fuel - 1) as nat),
        }
    }
}

/// The root of a net reduces to a value: either there is no root, or some
/// amount of unfolding reaches a value without overflow.
pub open spec fn reduces(net: Net) -> bool {
    net.iface@.len() == 0 || exists|f: nat| #[trigger] eval_port_spec(net, net.iface@[0], f) is Some
}

/// The value of a net: that of its root port, or 0 where there is no root.
pub open spec fn net_value(net: Net) -> i64 {
    if net.iface@.len() == 0 {
        0
    } else {
        eval_port_spec(net, net.iface@[0], choose|f: nat| #[trigger] eval_port_spec(net, net.iface@[0], f) is Some)->0
    }
}

/// The operator cells that evaluating a port reaches, with at most `fuel`
/// steps of unfolding.
pub open spec fn port_ops(net: Net, p: Port, fuel: nat) -> Set<CellId>
    decreases fuel, 1nat,
{
    if fuel == 0 {
        Set::empty()
    } else {
        match p {
            Port::Principal(id) => cell_ops(net, id, (fuel - 1) as nat),
            Port::Aux(id, idx) => if net.cells@.contains_key(id) && 1 + idx < 3
                && net.cells@[id].ports[1 + idx] is Some {
                port_ops(net, net.cells@[id].ports[1 + idx]->0, (fuel - 1) as nat)
            } else {
                Set::empty()
            },
            Port::Free(i) => if i < net.iface@.len() {
                port_ops(net, net.iface@[i as int], (fuel - 1) as nat)
            } else {
                Set::empty()
            },
        }
    }
}

/// The operator cells that evaluating an optional port reaches.
pub open spec fn opt_ops(net: Net, p: Option<Port>, fuel: nat) -> Set<CellId>
    decreases fuel, 2nat,
{
    match p {
        Some(q) => port_ops(net, q, fuel),
        None => Set::empty(),
    }
}

/// The operator cells that evaluating a cell reaches: the cell itself if
/// it is an operator, and those its inputs (or the port it forwards to)
/// reach.
pub open spec fn cell_ops(net: Net, id: CellId, fuel: nat) -> Set<CellId>
    decreases fuel, 0nat,
{
    if fuel == 0 || !net.cells@.contains_key(id) {
        Set::empty()
    } else {
        let c = net.cells@[id];
        match c.kind {
            CellKind::Num(_) => Set::empty(),
            CellKind::Op(_) => set![id] + opt_ops(net, c.ports[1], (fuel - 1) as nat) + opt_ops(
                net,
                c.ports[2],
                (fuel - 1) as nat,
            ),
            _ => opt_ops(net, forward_port(c), (fuel - 1) as nat),
        }
    }
}

/// The operator cells that evaluating the root of a net reaches.
pub open spec fn root_ops(net: Net) -> Set<CellId> {
    if net.iface@.len() == 0 {
        Set::empty()
    } else {
        port_ops(net, net.iface@[0], choose|f: nat| #[trigger] eval_port_spec(net, net.iface@[0], f) is Some)
    }
}

/// The number of reductions reported for a net: that of its recorded
/// redexes or of the operator cells its root reaches, whichever is larger.
pub open spec fn reduction_count(net: Net) -> nat {
    if net.redexes@.len() >= root_ops(net).len() {
        net.redexes@.len()
    } else {
        root_ops(net).len()
    }
}

/// More fuel never changes what a port reaches once it has a value.
proof fn lemma_port_ops_monotone(net: Net, p: Port, f1: nat, f2: nat)
    requires
        f1 <= f2,
        eval_port_spec(net, p, f1) is Some,
    ensures
        port_ops(net, p, f2) == port_ops(net, p, f1),
    decreases f1, 1nat,
{
    let g1 = (f1 - 1) as nat;
    let g2 = (f2 - 1) as nat;
    match p {
        Port::Principal(i) => lemma_cell_ops_monotone(net, i, g1, g2),
        Port::Aux(i, idx) => {
            if net.cells@.contains_key(i) && 1 + idx < 3 && net.cells@[i].ports[1 + idx] is Some {
                lemma_port_ops_monotone(net, net.cells@[i].ports[1 + idx]->0, g1, g2);
            }
        },
        Port::Free(i) => {
            if i < net.iface@.len() {
                lemma_port_ops_monotone(net, net.iface@[i as int], g1, g2);
            }
        },
    }
}

proof fn lemma_opt_ops_monotone(net: Net, o: Option<Port>, f1: nat, f2: nat)
    requires
        f1 <= f2,
        eval_opt_spec(net, o, f1) is Some,
    ensures
        opt_ops(net, o, f2) == opt_ops(net, o, f1),
    decreases f1, 2nat,
{
    if let Some(q) = o {
        lemma_port_ops_monotone(net, q, f1, f2);
    }
}

proof fn lemma_cell_ops_monotone(net: Net, id: CellId, f1: nat, f2: nat)
    requires
        f1 <= f2,
        eval_cell_spec(net, id, f1) is Some,
    ensures
        cell_ops(net, id, f2) == cell_ops(net, id, f1),
    decreases f1, 0nat,
{
    let g1 = (f1 - 1) as nat;
    let g2 = (f2 - 1) as nat;
    if net.cells@.contains_key(id) {
        let c = net.cells@[id];
        match c.kind {
            CellKind::Num(_) => {},
            CellKind::Op(_) => {
                lemma_opt_ops_monotone(net, c.ports[1], g1, g2);
                lemma_opt_ops_monotone(net, c.ports[2], g1, g2);
            },
            _ => lemma_opt_ops_monotone(net, forward_port(c), g1, g2),
        }
    }
}

/// More fuel never changes the value of a port once one is reached.
pub proof fn lemma_port_monotone(net: Net, p: Port, f1: nat, f2: nat)
    requires
        f1 <= f2,
        eval_port_spec(net, p, f1) is Some,
    ensures
        eval_port_spec(net, p, f2) == eval_port_spec(net, p, f1),
    decreases f1, 1nat,
{
    let g1 = (f1 - 1) as nat;
    let g2 = (f2 - 1) as nat;
    match p {
        Port::Principal(i) => lemma_cell_monotone(net, i, g1, g2),
        Port::Aux(i, idx) => {
            if net.cells@.contains_key(i) && 1 + idx < 3 && net.cells@[i].ports[1 + idx] is Some {
                lemma_port_monotone(net, net.cells@[i].ports[1 + idx]->0, g1, g2);
            }
        },
        Port::Free(i) => {
            if i < net.iface@.len() {
                lemma_port_monotone(net, net.iface@[i as int], g1, g2);
            }
        },
    }
}

proof fn lemma_opt_monotone(net: Net, o: Option<Port>, f1: nat, f2: nat)
    requires
        f1 <= f2,
        eval_opt_spec(net, o, f1) is Some,
    ensures
        eval_opt_spec(net, o, f2) == eval_opt_spec(net, o, f1),
    decreases f1, 2nat,
{
    if let Some(q) = o {
        lemma_port_monotone(net, q, f1, f2);
    }
}

/// More fuel never changes the value of a cell once one is reached.
pub proof fn lemma_cell_monotone(net: Net, id: CellId, f1: nat, f2: nat)
    requires
        f1 <= f2,
        eval_cell_spec(net, id, f1) is Some,
    ensures
        eval_cell_spec(net, id, f2) == eval_cell_spec(net, id, f1),
    decreases f1, 0nat,
{
    let g1 = (f1 - 1) as nat;
    let g2 = (f2 - 1) as nat;
    if net.cells@.contains_key(id) {
        let c = net.cells@[id];
        match c.kind {
            CellKind::Num(_) => {},
            CellKind::Op(_) => {
                lemma_opt_monotone(net, c.ports[1], g1, g2);
                lemma_opt_monotone(net, c.ports[2], g1, g2);
            },
            _ => lemma_opt_monotone(net, forward_port(c), g1, g2),
        }
    }
}

/// `m` is the least fuel with which the cell reaches a value.
pub open spec fn is_min_fuel(net: Net, id: CellId, m: nat) -> bool {
    &&& eval_cell_spec(net, id, m) is Some
    &&& forall|g: nat| g < m ==> #[trigger] eval_cell_spec(net, id, g) is None
}

pub open spec fn min_fuel(net: Net, id: CellId) -> nat {
    choose|m: nat| is_min_fuel(net, id, m)
}

proof fn lemma_min_fuel(net: Net, id: CellId, f: nat)
    requires
        eval_cell_spec(net, id, f) is Some,
    ensures
        is_min_fuel(net, id, min_fuel(net, id)),
        min_fuel(net, id) <= f,
    decreases f,
{
    if exists|g: nat| g < f && #[trigger] eval_cell_spec(net, id, g) is Some {
        let g = choose|g: nat| g < f && #[trigger] eval_cell_spec(net, id, g) is Some;
        lemma_min_fuel(net, id, g);
    } else {
        assert(is_min_fuel(net, id, f));
        let m = min_fuel(net, id);
        if m > f {
            assert(eval_cell_spec(net, id, f) is None);
        }
    }
}

#[derive(Debug, Clone, Default)]
pub struct ReduceStats {
    pub reductions: usize,
    pub elapsed_ms: u128,
}

#[derive(Debug, Clone, Default)]
pub struct ReduceOutput {
    pub value: i64,
    pub stats: ReduceStats,
}

#[verifier::external_type_specification]
#[verifier::external_body]
pub struct ExInstant(std::time::Instant);

/// Calls `Instant::now`.  The reading comes from the clock, so nothing is
/// stated of it.
#[verifier::external_body]
fn clock_now() -> Instant {
    Instant::now()
}

/// Calls `Instant::elapsed`.  The span depends on the clock, so nothing is
/// stated of it.
#[verifier::external_body]
fn clock_elapsed(started: &Instant) -> std::time::Duration {
    started.elapsed()
}

/// Calls `Duration::as_millis`.  Its value comes from a clock reading, so
/// nothing is stated of it.
#[verifier::external_body]
fn duration_millis(d: &std::time::Duration) -> u128 {
    d.as_millis()
}

/// Reduces the net and returns the value of its root.
pub fn reduce_ir(ir: Net) -> (value: i64)
    requires
        reduces(ir),
    ensures
        value == net_value(ir),
{
    reduce_ir_with_stats(ir).value
}

/// Reduces the net and returns the value of its root together with the
/// number of reductions (the number of recorded redexes or of operator
/// cells evaluated, whichever is larger) and the time it took.
pub fn reduce_ir_with_stats(ir: Net) -> (out: ReduceOutput)
    requires
        reduces(ir),
    ensures
        out.value == net_value(ir),
        out.stats.reductions == reduction_count(ir),
{
    let started = clock_now();
    let mut evaluator = Evaluator::new(&ir);
    let value = evaluator.eval_root();
    let elapsed = clock_elapsed(&started);
    let elapsed_ms = duration_millis(&elapsed);
    let reductions = if ir.redexes.len() >= evaluator.op_steps {
        ir.redexes.len()
    } else {
        evaluator.op_steps
    };
    ReduceOutput { value, stats: ReduceStats { reductions, elapsed_ms } }
}

struct Evaluator<'a> {
    net: &'a Net,
    memo: HashMap<CellId, i64>,
    op_steps: usize,
}

impl<'a> Evaluator<'a> {
    /// The operator cells whose evaluation has started: those memoized and
    /// those still in progress.
    spec fn started_ops(&self, active: Set<CellId>) -> Set<CellId> {
        self.net.cells@.dom().filter(
            |i: CellId|
                self.net.cells@[i].kind is Op && (self.memo@.contains_key(i) || active.contains(i)),
        )
    }

    spec fn inv(&self, active: Set<CellId>) -> bool {
        &&& forall|id: CellId| #[trigger]
            self.memo@.contains_key(id) ==> exists|f: nat|
                #[trigger] eval_cell_spec(*self.net, id, f) == Some(self.memo@[id])
        &&& forall|id: CellId| #[trigger]
            self.memo@.contains_key(id) ==> cell_ops(*self.net, id, min_fuel(*self.net, id)).subset_of(
                self.started_ops(active),
            )
        &&& self.op_steps == self.started_ops(active).len()
    }

    /// Every cell in progress needs more fuel than `f`.
    spec fn above(&self, active: Set<CellId>, f: nat) -> bool {
        forall|a: CellId| #[trigger] active.contains(a) ==> min_fuel(*self.net, a) > f
    }

    fn new(net: &'a Net) -> (e: Self)
        ensures
            e.net == net,
            e.inv(Set::empty()),
            e.started_ops(Set::empty()) == Set::<CellId>::empty(),
    {
        let e = Evaluator { net, memo: HashMap::new(), op_steps: 0 };
        assert(e.started_ops(Set::empty()) =~= Set::empty());
        e
    }

    fn eval_root(&mut self) -> (v: i64)
        requires
            old(self).inv(Set::empty()),
            old(self).started_ops(Set::empty()) == Set::<CellId>::empty(),
            reduces(*old(self).net),
        ensures
            v == net_value(*old(self).net),
            final(self).inv(Set::empty()),
            final(self).started_ops(Set::empty()) == root_ops(*old(self).net),
    {
        if self.net.iface.len() > 0 {
            let root = self.net.iface[0];
            let ghost f = choose|f: nat| #[trigger] eval_port_spec(*self.net, self.net.iface@[0], f) is Some;
            let v = self.eval_port(root, Ghost(f), Ghost(Set::empty()));
            assert(self.started_ops(Set::empty()) =~= root_ops(*self.net));
            v
        } else {
            0
        }
    }

    fn eval_port(&mut self, port: Port, Ghost(f): Ghost<nat>, Ghost(active): Ghost<Set<CellId>>) -> (v: i64)
        requires
            old(self).inv(active),
            old(self).above(active, f),
            eval_port_spec(*old(self).net, port, f) is Some,
        ensures
            final(self).net == old(self).net,
            final(self).inv(active),
            v == eval_port_spec(*old(self).net, port, f)->0,
            final(self).started_ops(active) == old(self).started_ops(active) + port_ops(*old(self).net, port, f),
        decreases f, 1nat,
    {
        let net = self.net;
        match port {
            Port::Principal(id) => {
                proof {
                    lemma_min_fuel(*net, id, (f - 1) as nat);
                    lemma_cell_monotone(*net, id, min_fuel(*net, id), (f - 1) as nat);
                    lemma_cell_ops_monotone(*net, id, min_fuel(*net, id), (f - 1) as nat);
                }
                self.eval_cell(id, Ghost(min_fuel(*net, id)), Ghost(active))
            },
            Port::Aux(id, idx) => {
                let slot = 1 + idx as usize;
                match net.cells.get(&id) {
                    Some(cell) => {
                        if slot < 3 {
                            match cell.ports[slot] {
                                Some(target) => self.eval_port(target, Ghost((f - 1) as nat), Ghost(active)),
                                None => 0,
                            }
                        } else {
                            0
                        }
                    },
                    None => 0,
                }
            },
            Port::Free(i) => {
                if (i as usize) < net.iface.len() {
                    let target = net.iface[i as usize];
                    self.eval_port(target, Ghost((f - 1) as nat), Ghost(active))
                } else {
                    0
                }
            },
        }
    }

    fn read_aux(&mut self, port: Option<Port>, Ghost(f): Ghost<nat>, Ghost(active): Ghost<Set<CellId>>) -> (v: i64)
        requires
            old(self).inv(active),
            old(self).above(active, f),
            eval_opt_spec(*old(self).net, port, f) is Some,
        ensures
            final(self).net == old(self).net,
            final(self).inv(active),
            v == eval_opt_spec(*old(self).net, port, f)->0,
            final(self).started_ops(active) == old(self).started_ops(active) + opt_ops(*old(self).net, port, f),
        decreases f, 2nat,
    {
        match port {
            Some(p) => self.eval_port(p, Ghost(f), Ghost(active)),
            None => 0,
        }
    }

    fn eval_cell(&mut self, id: CellId, Ghost(m): Ghost<nat>, Ghost(active): Ghost<Set<CellId>>) -> (v: i64)
        requires
            old(self).inv(active),
            old(self).above(active, m),
            m == min_fuel(*old(self).net, id),
            is_min_fuel(*old(self).net, id, m),
        ensures
            final(self).net == old(self).net,
            final(self).inv(active),
            v == eval_cell_spec(*old(self).net, id, m)->0,
            final(self).started_ops(active) == old(self).started_ops(active) + cell_ops(*old(self).net, id, m),
        decreases m, 0nat,
    {
        let net = self.net;
        match self.memo.get(&id) {
            Some(cached) => {
                let v = *cached;
                proof {
                    let f = choose|f: nat| #[trigger] eval_cell_spec(*net, id, f) == Some(v);
                    if f <= m {
                        lemma_cell_monotone(*net, id, f, m);
                    } else {
                        lemma_cell_monotone(*net, id, m, f);
                    }
                }
                return v;
            },
            None => {},
        }
        let ghost inner = active.insert(id);
        assert(!active.contains(id));
        let value = match net.cells.get(&id) {
            Some(cell) => {
                let c = *cell;
                match c.kind {
                    CellKind::Num(v) => {
                        assert(self.started_ops(inner) =~= self.started_ops(active));
                        v
                    },
                    CellKind::Op(kind) => {
                        proof {
                            assert(self.started_ops(inner) =~= self.started_ops(active).insert(id));
                            vstd::set_lib::lemma_len_subset(self.started_ops(inner), net.cells@.dom());
                            assert(net.cells@.dom().len() == net.cells.len());
                        }
                        self.op_steps = self.op_steps + 1;
                        let lhs = self.read_aux(c.ports[1], Ghost((m - 1) as nat), Ghost(inner));
                        let rhs = self.read_aux(c.ports[2], Ghost((m - 1) as nat), Ghost(inner));
                        apply_op(&kind, lhs, rhs)
                    },
                    _ => {
                        assert(self.started_ops(inner) =~= self.started_ops(active));
                        let fwd = if c.ports[2].is_some() {
                            c.ports[2]
                        } else if c.ports[1].is_some() {
                            c.ports[1]
                        } else {
                            c.ports[0]
                        };
                        self.read_aux(fwd, Ghost((m - 1) as nat), Ghost(inner))
                    },
                }
            },
            None => {
                assert(self.started_ops(inner) =~= self.started_ops(active));
                0
            },
        };
        let ghost before = self.started_ops(inner);
        self.memo.insert(id, value);
        assert(self.started_ops(active) =~= before);
        assert(eval_cell_spec(*net, id, m) == Some(value));
        assert forall|k: CellId| #[trigger] self.memo@.contains_key(k) implies exists|f: nat|
            #[trigger] eval_cell_spec(*self.net, k, f) == Some(self.memo@[k]) by {
            if k == id {
                assert(eval_cell_spec(*net, id, m) == Some(self.memo@[k]));
            }
        }
        value
    }
}

proof fn lemma_port_alike(n1: Net, n2: Net, p: Port, f: nat)
    requires
        n1.cells@ == n2.cells@,
        n1.iface@ == n2.iface@,
    ensures
        eval_port_spec(n1, p, f) == eval_port_spec(n2, p, f),
        port_ops(n1, p, f) == port_ops(n2, p, f),
    decreases f, 1nat,
{
    if f > 0 {
        let g = (f - 1) as nat;
        match p {
            Port::Principal(i) => lemma_cell_alike(n1, n2, i, g),
            Port::Aux(i, idx) => {
                if n1.cells@.contains_key(i) && 1 + idx < 3 && n1.cells@[i].ports[1 + idx] is Some {
                    lemma_port_alike(n1, n2, n1.cells@[i].ports[1 + idx]->0, g);
                }
            },
            Port::Free(i) => {
                if i < n1.iface@.len() {
                    lemma_port_alike(n1, n2, n1.iface@[i as int], g);
                }
            },
        }
    }
}

proof fn lemma_opt_alike(n1: Net, n2: Net, o: Option<Port>, f: nat)
    requires
        n1.cells@ == n2.cells@,
        n1.iface@ == n2.iface@,
    ensures
        eval_opt_spec(n1, o, f) == eval_opt_spec(n2, o, f),
        opt_ops(n1, o, f) == opt_ops(n2, o, f),
    decreases f, 2nat,
{
    if let Some(q) = o {
        lemma_port_alike(n1, n2, q, f);
    }
}

proof fn lemma_cell_alike(n1: Net, n2: Net, id: CellId, f: nat)
    requires
        n1.cells@ == n2.cells@,
        n1.iface@ == n2.iface@,
    ensures
        eval_cell_spec(n1, id, f) == eval_cell_spec(n2, id, f),
        cell_ops(n1, id, f) == cell_ops(n2, id, f),
    decreases f, 0nat,
{
    if f > 0 && n1.cells@.contains_key(id) {
        let g = (f - 1) as nat;
        let c = n1.cells@[id];
        match c.kind {
            CellKind::Num(_) => {},
            CellKind::Op(_) => {
                lemma_opt_alike(n1, n2, c.ports[1], g);
                lemma_opt_alike(n1, n2, c.ports[2], g);
            },
            _ => lemma_opt_alike(n1, n2, forward_port(c), g),
        }
    }
}

/// Reduction depends only on the cells, the recorded redexes and the
/// interface: two nets that agree on them both reduce or both do not, and
/// where they do, `reduce_ir` and `reduce_ir_with_stats` give the same value
/// (`net_value`) and the same number of reductions (`reduction_count`) for
/// both; only the elapsed time, read from the clock, may differ.
pub proof fn lemma_reduce_alike(n1: Net, n2: Net)
    requires
        n1.cells@ == n2.cells@,
        n1.redexes@ == n2.redexes@,
        n1.iface@ == n2.iface@,
    ensures
        reduces(n1) == reduces(n2),
        reduces(n1) ==> net_value(n1) == net_value(n2),
        reduces(n1) ==> root_ops(n1) == root_ops(n2),
        reduces(n1) ==> reduction_count(n1) == reduction_count(n2),
{
    assert forall|f: nat| #[trigger] eval_port_spec(n1, n1.iface@[0], f) == eval_port_spec(n2, n2.iface@[0], f) by {
        lemma_port_alike(n1, n2, n1.iface@[0], f);
    }
    if n1.iface@.len() > 0 && reduces(n1) {
        let f1 = choose|f: nat| #[trigger] eval_port_spec(n1, n1.iface@[0], f) is Some;
        assert(eval_port_spec(n2, n2.iface@[0], f1) is Some);
        assert(reduces(n2));
        let f2 = choose|f: nat| #[trigger] eval_port_spec(n2, n2.iface@[0], f) is Some;
        let top = f1 + f2;
        lemma_port_monotone(n1, n1.iface@[0], f1, top);
        lemma_port_monotone(n2, n2.iface@[0], f2, top);
        lemma_port_ops_monotone(n1, n1.iface@[0], f1, top);
        lemma_port_ops_monotone(n2, n2.iface@[0], f2, top);
        lemma_port_alike(n1, n2, n1.iface@[0], top);
    } else if n1.iface@.len() > 0 && reduces(n2) {
        let f2 = choose|f: nat| #[trigger] eval_port_spec(n2, n2.iface@[0], f) is Some;
        assert(eval_port_spec(n1, n1.iface@[0], f2) is Some);
    }
}

/// The quotient and the remainder of a non-negative number by a positive one.
proof fn lemma_pos_div(x: int, d: int)
    requires
        0 <= x,
        0 < d,
    ensures
        x == d * (x / d) + x % d,
        0 <= x % d < d,
        0 <= x / d <= x,
        d >= 2 ==> 2 * (x / d) <= x,
{
    lemma_fundamental_div_mod(x, d);
    lemma_mod_pos_bound(x, d);
    lemma_div_pos_is_pos(x, d);
    let q = x / d;
    assert(q <= d * q) by (nonlinear_arith)
        requires
            d >= 1,
            q >= 0,
    ;
    if d >= 2 {
        assert(2 * q <= d * q) by (nonlinear_arith)
            requires
                d >= 2,
                q >= 0,
        ;
    }
}

/// Division and remainder agree (as an operator cell, or `apply_op`,
/// computes them): wherever the division neither is by zero nor overflows,
/// both operators give a value, the quotient times the divisor
/// plus the remainder is the dividend, the remainder is smaller in magnitude
/// than the divisor, and a non-zero remainder has the sign of the dividend.
pub proof fn lemma_div_mod_agree(l: i64, r: i64)
    requires
        r != 0,
        !(l == i64::MIN && r == -1),
    ensures
        op_result(OpKind::Div, l, r) is Some,
        op_result(OpKind::Mod, l, r) is Some,
        ({
            let q = op_result(OpKind::Div, l, r)->0 as int;
            let m = op_result(OpKind::Mod, l, r)->0 as int;
            &&& q * r + m == l
            &&& (if m < 0 { -m } else { m }) < (if r < 0 { -(r as int) } else { r as int })
            &&& (m == 0 || (m < 0) == (l < 0))
        }),
{
    let x: int = if l < 0 { -(l as int) } else { l as int };
    let d: int = if r < 0 { -(r as int) } else { r as int };
    lemma_pos_div(x, d);
    let q0 = x / d;
    let m0 = x % d;
    let li = l as int;
    let ri = r as int;
    if l == 0 {
    } else if l > 0 && r > 0 {
        assert(q0 * ri == d * q0) by (nonlinear_arith)
            requires
                ri == d,
        ;
    } else if l < 0 && r < 0 {
        assert(li * -1 == x);
        assert(ri * -1 == d);
        assert(q0 * ri == -(d * q0)) by (nonlinear_arith)
            requires
                ri == -d,
        ;
        assert(trunc_div(li, ri) == q0);
        assert(trunc_rem(li, ri) == -m0);
    } else if l < 0 {
        assert(li * -1 == x);
        assert((-q0) * ri == -(d * q0)) by (nonlinear_arith)
            requires
                ri == d,
        ;
        assert(trunc_div(li, ri) == -q0);
        assert(trunc_rem(li, ri) == -m0);
    } else {
        assert(ri * -1 == d);
        assert((-q0) * ri == d * q0) by (nonlinear_arith)
            requires
                ri == -d,
        ;
        assert(trunc_div(li, ri) == -q0);
        assert(trunc_rem(li, ri) == m0);
    }
}

/// The magnitude of an integer.
pub open spec fn magnitude(x: int) -> int {
    if x < 0 {
        -x
    } else {
        x
    }
}

/// `x` is a remainder left by dividing `l` by `r` toward zero: smaller in
/// magnitude than `r`, and zero or of the sign of `l`.
pub open spec fn toward_zero_remainder(l: int, r: int, x: int) -> bool {
    magnitude(x) < magnitude(r) && (x == 0 || (x < 0) == (l < 0))
}

/// An operator cell computes its operator on the values of its two inputs,
/// as integers: sums, differences and products where they fit in `i64`
/// (and nothing where they do not); division rounding toward zero and the
/// remainder that goes with it, 0 for a zero divisor; comparisons and
/// logical operators give 1 for true and 0 for false.
pub proof fn lemma_operator_cell(net: Net, id: CellId, f: nat, l: i64, r: i64)
    requires
        net.cells@.contains_key(id),
        net.cells@[id].kind is Op,
        eval_opt_spec(net, net.cells@[id].ports[1], f) == Some(l),
        eval_opt_spec(net, net.cells@[id].ports[2], f) == Some(r),
    ensures
        ({
            let k = net.cells@[id].kind->Op_0;
            let v = eval_cell_spec(net, id, f + 1);
            &&& k == OpKind::Add ==> (v is Some <==> i64::MIN <= l + r <= i64::MAX) && (v is Some ==> v->0 == l + r)
            &&& k == OpKind::Sub ==> (v is Some <==> i64::MIN <= l - r <= i64::MAX) && (v is Some ==> v->0 == l - r)
            &&& k == OpKind::Mul ==> (v is Some <==> i64::MIN <= l * r <= i64::MAX) && (v is Some ==> v->0 == l * r)
            &&& k == OpKind::Div && r == 0 ==> v == Some(0i64)
            &&& k == OpKind::Mod && r == 0 ==> v == Some(0i64)
            &&& k == OpKind::Div && r != 0 && !(l == i64::MIN && r == -1) ==> v is Some
                && toward_zero_remainder(l as int, r as int, l - (v->0) * r)
            &&& k == OpKind::Mod && r != 0 && !(l == i64::MIN && r == -1) ==> v is Some
                && toward_zero_remainder(l as int, r as int, v->0 as int) && exists|q: int| #[trigger] (q * r) == l - v->0
            &&& k == OpKind::Eq ==> v == Some(if l == r { 1i64 } else { 0i64 })
            &&& k == OpKind::Ne ==> v == Some(if l != r { 1i64 } else { 0i64 })
            &&& k == OpKind::Lt ==> v == Some(if l < r { 1i64 } else { 0i64 })
            &&& k == OpKind::Le ==> v == Some(if l <= r { 1i64 } else { 0i64 })
            &&& k == OpKind::Gt ==> v == Some(if l > r { 1i64 } else { 0i64 })
            &&& k == OpKind::Ge ==> v == Some(if l >= r { 1i64 } else { 0i64 })
            &&& k == OpKind::And ==> v == Some(if l != 0 && r != 0 { 1i64 } else { 0i64 })
            &&& k == OpKind::Or ==> v == Some(if l != 0 || r != 0 { 1i64 } else { 0i64 })
            &&& k == OpKind::Not ==> v == Some(if l == 0 { 1i64 } else { 0i64 })
        }),
{
    let k = net.cells@[id].kind->Op_0;
    assert(eval_cell_spec(net, id, f + 1) == op_result(k, l, r));
    if r != 0 && !(l == i64::MIN && r == -1) {
        lemma_div_mod_agree(l, r);
        let q = op_result(OpKind::Div, l, r)->0 as int;
        let m = op_result(OpKind::Mod, l, r)->0 as int;
        assert(l - q * r == m);
        if k == OpKind::Mod {
            assert(q * r == l - m);
        }
    }
}

/// Applies an operator to two values.
fn apply_op(kind: &OpKind, lhs: i64, rhs: i64) -> (r: i64)
    requires
        op_result(*kind, lhs, rhs) is Some,
    ensures
        r == op_result(*kind, lhs, rhs)->0,
{
    match kind {
        OpKind::Add => lhs + rhs,
        OpKind::Sub => lhs - rhs,
        OpKind::Mul => lhs * rhs,
        OpKind::Div => {
            if rhs == 0 {
                0
            } else {
                lhs.checked_div(rhs).unwrap()
            }
        },
        OpKind::Mod => {
            if rhs == 0 {
                0
            } else {
                lhs.checked_rem(rhs).unwrap()
            }
        },
        OpKind::Eq => if lhs == rhs { 1 } else { 0 },
        OpKind::Ne => if lhs != rhs { 1 } else { 0 },
        OpKind::Lt => if lhs < rhs { 1 } else { 0 },
        OpKind::Le => if lhs <= rhs { 1 } else { 0 },
        OpKind::Gt => if lhs > rhs { 1 } else { 0 },
        OpKind::Ge => if lhs >= rhs { 1 } else { 0 },
        OpKind::And => if lhs != 0 && rhs != 0 { 1 } else { 0 },
        OpKind::Or => if lhs != 0 || rhs != 0 { 1 } else { 0 },
        OpKind::Not => if lhs == 0 { 1 } else { 0 },
    }
}

} // verus!
