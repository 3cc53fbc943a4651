//! The interaction-net IR shared by the compiler and the reducer: cells with
//! three port slots, the wiring between them, redexes and the interface.
use std::collections::HashMap;
use vstd::prelude::*;

verus! {

broadcast use vstd::std_specs::hash::group_hash_axioms;

pub type CellId = u32;

pub type IfaceId = u32;

/// A place a wire can end: the principal port of a cell, one of its
/// auxiliary ports, or a slot of the net's interface.
#[derive(Debug, Clone, Copy, PartialEq, Eq, Hash, Structural)]
pub enum Port {
    Principal(CellId),
    Aux(CellId, u8),
    Free(IfaceId),
}

#[derive(Debug, Clone, Copy, PartialEq, Eq, Structural)]
pub enum OpKind {
    Add,
    Sub,
    Mul,
    Div,
    Mod,
    Eq,
    Ne,
    Lt,
    Le,
    Gt,
    Ge,
    And,
    Or,
    Not,
}

#[derive(Debug, Clone, Copy, PartialEq, Eq, Structural)]
pub enum CellKind {
    Con,
    Dup,
    Era,
    Num(i64),
    Op(OpKind),
    Switch,
}

/// A cell: slot 0 is the principal port, slots 1 and 2 the auxiliary ports.
#[derive(Debug, Clone, Copy)]
pub struct Cell {
    pub id: CellId,
    pub kind: CellKind,
    pub ports: [Option<Port>; 3],
}

impl Cell {
    pub open spec fn fresh(id: CellId, kind: CellKind) -> Cell {
        Cell { id, kind, ports: [None, None, None] }
    }

    /// A cell with no port connected.
    pub fn new(id: CellId, kind: CellKind) -> (cell: Self)
        ensures
            cell == Cell::fresh(id, kind),
    {
        Cell { id, kind, ports: [None, None, None] }
    }
}

#[derive(Debug, Clone, Copy)]
pub struct Redex {
    pub left: CellId,
    pub right: CellId,
}

/// The slot of a cell's port array that a port names, if it names one.
pub open spec fn port_slot(p: Port) -> Option<(CellId, int)> {
    match p {
        Port::Principal(id) => Some((id, 0)),
        Port::Aux(id, idx) => if 1 + idx < 3 {
            Some((id, 1 + idx))
        } else {
            None
        },
        Port::Free(_) => None,
    }
}

/// A port array with one slot replaced.
pub open spec fn ports_with(ps: [Option<Port>; 3], slot: int, v: Option<Port>) -> [Option<Port>; 3] {
    if slot == 0 {
        [v, ps[1], ps[2]]
    } else if slot == 1 {
        [ps[0], v, ps[2]]
    } else {
        [ps[0], ps[1], v]
    }
}

/// The cells after writing `value` into the slot that `target` names; a
/// target that names no slot, or a cell that does not exist, changes nothing.
pub open spec fn spec_set_port(cells: Map<CellId, Cell>, target: Port, value: Port) -> Map<
    CellId,
    Cell,
> {
    match port_slot(target) {
        Some((id, slot)) => if cells.contains_key(id) {
            let c = cells[id];
            cells.insert(id, Cell { ports: ports_with(c.ports, slot, Some(value)), ..c })
        } else {
            cells
        },
        None => cells,
    }
}

/// An interaction net: cells by id, the redexes found so far, the interface
/// (slot 0 is the root the reducer evaluates), and debug names.
#[derive(Debug, Clone)]
pub struct Net {
    pub cells: HashMap<CellId, Cell>,
    pub redexes: Vec<Redex>,
    pub iface: Vec<Port>,
    pub debug: HashMap<CellId, String>,
    pub next_id: CellId,
}

impl Net {
    /// The id the next allocation hands out.
    pub open spec fn next_id(&self) -> nat {
        self.next_id as nat
    }

    /// Every cell in the net has an id below the next one to be handed out.
    pub open spec fn wf(&self) -> bool {
        forall|k: CellId| #[trigger] self.cells@.contains_key(k) ==> k < self.next_id()
    }

    pub fn new() -> (net: Self)
        ensures
            net.cells@ == Map::<CellId, Cell>::empty(),
            net.redexes@ == Seq::<Redex>::empty(),
            net.iface@ == Seq::<Port>::empty(),
            net.debug@ == Map::<CellId, String>::empty(),
            net.next_id() == 0,
            net.wf(),
    {
        Net {
            cells: HashMap::new(),
            redexes: Vec::new(),
            iface: Vec::new(),
            debug: HashMap::new(),
            next_id: 0,
        }
    }

    /// Adds a fresh cell of the given kind and returns its id.
    pub fn allocate(&mut self, kind: CellKind) -> (id: CellId)
        requires
            old(self).next_id() < u32::MAX,
        ensures
            id as nat == old(self).next_id(),
            final(self).next_id() == old(self).next_id() + 1,
            final(self).cells@ == old(self).cells@.insert(id, Cell::fresh(id, kind)),
            final(self).redexes@ == old(self).redexes@,
            final(self).iface@ == old(self).iface@,
            final(self).debug@ == old(self).debug@,
            old(self).wf() ==> final(self).wf(),
            old(self).wf() ==> !old(self).cells@.contains_key(id),
    {
        let id = self.next_id;
        self.next_id = self.next_id + 1;
        self.cells.insert(id, Cell::new(id, kind));
        id
    }

    /// Wires `a` and `b` to each other: each port's slot records the other.
    pub fn connect(&mut self, a: Port, b: Port)
        ensures
            final(self).cells@ == spec_set_port(spec_set_port(old(self).cells@, a, b), b, a),
            final(self).redexes@ == old(self).redexes@,
            final(self).iface@ == old(self).iface@,
            final(self).debug@ == old(self).debug@,
            final(self).next_id() == old(self).next_id(),
            old(self).wf() ==> final(self).wf(),
    {
        self.set_port(a, b);
        self.set_port(b, a);
    }

    fn set_port(&mut self, target: Port, value: Port)
        ensures
            final(self).cells@ == spec_set_port(old(self).cells@, target, value),
            final(self).redexes@ == old(self).redexes@,
            final(self).iface@ == old(self).iface@,
            final(self).debug@ == old(self).debug@,
            final(self).next_id() == old(self).next_id(),
            old(self).wf() ==> final(self).wf(),
    {
        let (id, slot): (CellId, usize) = match target {
            Port::Principal(id) => (id, 0),
            Port::Aux(id, idx) => (id, 1 + idx as usize),
            Port::Free(_) => {
                return;
            },
        };
        if slot >= 3 {
            return;
        }
        match self.cells.get(&id) {
            Some(cell) => {
                let ps = cell.ports;
                let v = Some(value);
                let ports = if slot == 0 {
                    [v, ps[1], ps[2]]
                } else if slot == 1 {
                    [ps[0], v, ps[2]]
                } else {
                    [ps[0], ps[1], v]
                };
                self.cells.insert(id, Cell { id: cell.id, kind: cell.kind, ports });
            },
            None => {},
        }
    }

    /// Records that the principal ports of `left` and `right` meet.
    pub fn add_redex(&mut self, left: CellId, right: CellId)
        ensures
            final(self).redexes@ == old(self).redexes@.push(Redex { left, right }),
            final(self).cells@ == old(self).cells@,
            final(self).iface@ == old(self).iface@,
            final(self).debug@ == old(self).debug@,
            final(self).next_id() == old(self).next_id(),
    {
        self.redexes.push(Redex { left, right });
    }
}

impl Default for Net {
    fn default() -> (net: Self)
        ensures
            net.cells@ == Map::<CellId, Cell>::empty(),
            net.redexes@ == Seq::<Redex>::empty(),
            net.iface@ == Seq::<Port>::empty(),
            net.next_id() == 0,
    {
        Net::new()
    }
}

} // verus!
