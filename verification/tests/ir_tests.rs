use nexus::ir::{CellKind, Net, OpKind, Port};

#[test]
fn alloc_connect_and_redex_smoke_test() {
    let mut net = Net::new();

    let left = net.allocate(CellKind::Con);
    let right = net.allocate(CellKind::Con);

    net.connect(Port::Principal(left), Port::Principal(right));
    net.add_redex(left, right);

    assert_eq!(net.cells.len(), 2);
    assert_eq!(net.redexes.len(), 1);
}

#[test]
fn allocate_hands_out_consecutive_fresh_ids() {
    let mut net = Net::new();
    let a = net.allocate(CellKind::Num(7));
    let b = net.allocate(CellKind::Op(OpKind::Mul));
    assert_eq!(a, 0);
    assert_eq!(b, 1);
    assert_eq!(net.next_id, 2);
    assert_eq!(net.cells[&a].kind, CellKind::Num(7));
    assert_eq!(net.cells[&b].ports, [None, None, None]);
}

#[test]
fn connect_records_each_end_in_the_other() {
    let mut net = Net::new();
    let n = net.allocate(CellKind::Num(1));
    let op = net.allocate(CellKind::Op(OpKind::Add));
    net.connect(Port::Aux(op, 1), Port::Principal(n));
    assert_eq!(net.cells[&op].ports[2], Some(Port::Principal(n)));
    assert_eq!(net.cells[&n].ports[0], Some(Port::Aux(op, 1)));
    assert_eq!(net.cells[&op].ports[0], None);
}

#[test]
fn connect_to_missing_slot_or_interface_changes_nothing() {
    let mut net = Net::new();
    let n = net.allocate(CellKind::Num(1));
    net.connect(Port::Aux(n, 5), Port::Free(0));
    assert_eq!(net.cells[&n].ports, [None, None, None]);
    net.connect(Port::Free(3), Port::Principal(n));
    assert_eq!(net.cells[&n].ports[0], Some(Port::Free(3)));
}
