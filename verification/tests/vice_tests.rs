use nexus::ir::{CellKind, Net, OpKind, Port};
use nexus::vice::{reduce_ir, reduce_ir_with_stats};

#[test]
fn reduces_basic_arithmetic_net() {
    let mut net = Net::new();
    let n2 = net.allocate(CellKind::Num(2));
    let n3 = net.allocate(CellKind::Num(3));
    let add = net.allocate(CellKind::Op(OpKind::Add));

    net.connect(Port::Aux(add, 0), Port::Principal(n2));
    net.connect(Port::Aux(add, 1), Port::Principal(n3));
    net.add_redex(add, n2);
    net.iface.push(Port::Principal(add));

    assert_eq!(reduce_ir(net), 5);
}

fn binary_net(op: OpKind, a: i64, b: i64) -> Net {
    let mut net = Net::new();
    let x = net.allocate(CellKind::Num(a));
    let y = net.allocate(CellKind::Num(b));
    let o = net.allocate(CellKind::Op(op));
    net.connect(Port::Aux(o, 0), Port::Principal(x));
    net.connect(Port::Aux(o, 1), Port::Principal(y));
    net.add_redex(o, x);
    net.iface.push(Port::Principal(o));
    net
}

#[test]
fn reduce_empty_net_is_zero() {
    assert_eq!(reduce_ir(Net::new()), 0);
}

#[test]
fn reduce_division_and_remainder_truncate_and_zero_divisor_gives_zero() {
    assert_eq!(reduce_ir(binary_net(OpKind::Div, -7, 2)), -3);
    assert_eq!(reduce_ir(binary_net(OpKind::Mod, -7, 2)), -1);
    assert_eq!(reduce_ir(binary_net(OpKind::Div, 7, 0)), 0);
    assert_eq!(reduce_ir(binary_net(OpKind::Mod, 7, 0)), 0);
}

#[test]
fn reduce_comparisons_and_logic_give_flags() {
    assert_eq!(reduce_ir(binary_net(OpKind::Lt, 1, 2)), 1);
    assert_eq!(reduce_ir(binary_net(OpKind::Ge, 1, 2)), 0);
    assert_eq!(reduce_ir(binary_net(OpKind::Eq, 4, 4)), 1);
    assert_eq!(reduce_ir(binary_net(OpKind::Ne, 4, 4)), 0);
    assert_eq!(reduce_ir(binary_net(OpKind::And, 3, 0)), 0);
    assert_eq!(reduce_ir(binary_net(OpKind::Or, 3, 0)), 1);
    assert_eq!(reduce_ir(binary_net(OpKind::Not, 0, 9)), 1);
}

#[test]
fn reduce_follows_forwarding_cells_and_free_ports() {
    let mut net = Net::new();
    let n = net.allocate(CellKind::Num(42));
    let con = net.allocate(CellKind::Con);
    net.connect(Port::Aux(con, 1), Port::Principal(n));
    net.iface.push(Port::Free(1));
    net.iface.push(Port::Principal(con));
    assert_eq!(reduce_ir(net), 42);
}

#[test]
fn reduce_with_stats_counts_operator_steps() {
    let mut net = binary_net(OpKind::Sub, 10, 4);
    let twelve = net.allocate(CellKind::Num(12));
    let mul = net.allocate(CellKind::Op(OpKind::Mul));
    let first = net.iface[0];
    net.connect(Port::Aux(mul, 0), first);
    net.connect(Port::Aux(mul, 1), Port::Principal(twelve));
    net.iface[0] = Port::Principal(mul);
    let out = reduce_ir_with_stats(net);
    assert_eq!(out.value, 72);
    assert_eq!(out.stats.reductions, 2);
}

#[test]
fn reductions_count_operators_reached_or_redexes() {
    // Two operator cells reached from the root, no redex recorded: two
    // reductions; an operator cell the root does not reach is not counted.
    let mut net = Net::new();
    let a = net.allocate(CellKind::Num(2));
    let b = net.allocate(CellKind::Num(3));
    let add = net.allocate(CellKind::Op(OpKind::Add));
    net.connect(Port::Aux(add, 0), Port::Principal(a));
    net.connect(Port::Aux(add, 1), Port::Principal(b));
    let c = net.allocate(CellKind::Num(4));
    let mul = net.allocate(CellKind::Op(OpKind::Mul));
    net.connect(Port::Aux(mul, 0), Port::Principal(add));
    net.connect(Port::Aux(mul, 1), Port::Principal(c));
    let stray = net.allocate(CellKind::Op(OpKind::Sub));
    net.connect(Port::Aux(stray, 0), Port::Principal(c));
    net.iface.push(Port::Principal(mul));
    let out = reduce_ir_with_stats(net);
    assert_eq!(out.value, 20);
    assert_eq!(out.stats.reductions, 2);

    // More redexes recorded than operators reached: the redexes count.
    let mut net = binary_net(OpKind::Add, 1, 1);
    net.add_redex(0, 1);
    net.add_redex(1, 0);
    let out = reduce_ir_with_stats(net);
    assert_eq!(out.value, 2);
    assert_eq!(out.stats.reductions, 3);
}

#[test]
fn quotient_and_remainder_rebuild_the_dividend() {
    for &(l, r) in &[(-7i64, 2i64), (7, -2), (-7, -2), (7, 2), (i64::MIN, 2), (i64::MAX, -3)] {
        let q = reduce_ir(binary_net(OpKind::Div, l, r));
        let m = reduce_ir(binary_net(OpKind::Mod, l, r));
        assert_eq!(q * r + m, l);
        assert!(m.abs() < r.abs());
        assert!(m == 0 || (m < 0) == (l < 0));
    }
    assert_eq!(reduce_ir(binary_net(OpKind::Div, 7, -2)), -3);
    assert_eq!(reduce_ir(binary_net(OpKind::Mod, 7, -2)), 1);
}

#[test]
fn nets_built_alike_reduce_alike() {
    let a = reduce_ir_with_stats(binary_net(OpKind::Mul, 6, 7));
    let b = reduce_ir_with_stats(binary_net(OpKind::Mul, 6, 7));
    assert_eq!(a.value, 42);
    assert_eq!(a.value, b.value);
    assert_eq!(a.stats.reductions, b.stats.reductions);
    assert_eq!(reduce_ir(binary_net(OpKind::Mul, 6, 7)), a.value);
}
