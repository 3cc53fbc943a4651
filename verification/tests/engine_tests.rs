use nexus::engine::interaction::{apply_interaction, InteractionResult};
use nexus::engine::net::{Net, Node, Port, Redex};
use nexus::engine::runtime::Runtime;

fn con(tag: i32) -> Node {
    Node::Con { tag, ports: [Port::null(), Port::null()] }
}

#[test]
fn null_port_is_null() {
    assert!(Port::null().is_null());
    assert!(!Port::new(0, 1).is_null());
}

#[test]
fn connecting_matching_constructors_queues_a_pair() {
    let mut net = Net::new();
    let a = net.create_node(con(1));
    let b = net.create_node(con(1));
    let c = net.create_node(con(2));
    net.connect(a, 0, b, 0);
    net.connect(a, 1, c, 0);
    assert_eq!(net.node_count(), 3);
    assert_eq!(net.redex_count(), 1);
    let r = net.next_redex().unwrap();
    assert_eq!((r.a, r.b), (a, b));
    assert!(net.next_redex().is_none());
    assert_eq!(net.node_str(a), "CON(1)[1:0, 2:0]");
}

#[test]
fn definitions_are_replaced_by_name() {
    let mut net = Net::new();
    assert_eq!(net.get_definition("main"), None);
    net.add_definition("main", 3);
    net.add_definition("aux", 4);
    net.add_definition("main", 5);
    assert_eq!(net.get_definition("main"), Some(5));
    assert_eq!(net.get_definition("aux"), Some(4));
}

#[test]
fn node_text_for_each_kind() {
    let mut net = Net::new();
    let d = net.create_node(Node::Dup { ports: [Port::null(), Port::new(7, 1)] });
    let r = net.create_node(Node::Ref { name: "f".to_string(), port: Port::null() });
    let e = net.create_node(Node::Era { port: Port::new(0, 0) });
    let n = net.create_node(con(-4));
    assert_eq!(net.node_str(d), "DUP[NULL, 7:1]");
    assert_eq!(net.node_str(r), "REF(f):NULL");
    assert_eq!(net.node_str(e), "ERA:0:0");
    assert_eq!(net.node_str(n), "CON(-4)[NULL, NULL]");
}

#[test]
fn clone_subgraph_copies_reachable_nodes_once() {
    let mut net = Net::new();
    let a = net.create_node(con(1));
    let b = net.create_node(Node::Dup { ports: [Port::null(), Port::null()] });
    let lone = net.create_node(con(9));
    net.connect(a, 0, b, 1);
    net.connect(b, 1, a, 0);
    let copy = net.clone_subgraph(a);
    assert_eq!(copy, 3);
    assert_eq!(net.node_count(), 4 + 1);
    assert_eq!(net.node_str(copy), "CON(1)[4:1, NULL]");
    assert_eq!(net.node_str(4), "DUP[NULL, 3:0]");
    assert_eq!(net.node_str(lone), "CON(9)[NULL, NULL]");
}

#[test]
fn runtime_applies_rules_until_no_pair_is_left() {
    let mut net = Net::new();
    let a = net.create_node(con(1));
    let b = net.create_node(con(1));
    let x = net.create_node(Node::Era { port: Port::null() });
    let y = net.create_node(Node::Era { port: Port::null() });
    net.connect(a, 0, x, 0);
    net.connect(b, 0, y, 0);
    net.connect(b, 1, y, 0);
    net.connect(a, 1, b, 0);
    assert_eq!(net.redex_count(), 4);
    let mut rt = Runtime::new(net);
    assert!(rt.run().is_ok());
    assert_eq!(rt.get_stats().steps, 5);
    assert_eq!(rt.get_stats().max_nodes, 4);
    assert_eq!(rt.get_net().redex_count(), 0);
    assert_eq!(rt.get_net().node_str(x), "ERA:3:0");
}

#[test]
fn runtime_stops_on_a_pair_without_a_rule() {
    let mut net = Net::new();
    let a = net.create_node(Node::Era { port: Port::null() });
    let b = net.create_node(con(1));
    net.connect(a, 0, b, 0);
    let mut rt = Runtime::new(net);
    let res = rt.run();
    assert_eq!(res, Err("Error during evaluation: Unsupported interaction".to_string()));
    assert_eq!(rt.get_stats().steps, 0);
}

#[test]
fn runtime_step_reports_whether_work_remains() {
    let mut rt = Runtime::new(Net::new());
    assert_eq!(rt.step(), Ok(false));
}

#[test]
fn interaction_keeps_constructor_duplicator_pairs() {
    let mut net = Net::new();
    let a = net.create_node(con(1));
    let b = net.create_node(Node::Dup { ports: [Port::null(), Port::null()] });
    assert!(matches!(apply_interaction(&mut net, Redex { a, b }), InteractionResult::Success));
    assert!(matches!(apply_interaction(&mut net, Redex { a: b, b: a }), InteractionResult::Error(_)));
}

#[test]
fn active_pairs_and_definitions_are_listed_in_order() {
    let mut net = Net::new();
    let a = net.create_node(con(1));
    let b = net.create_node(con(1));
    let c = net.create_node(con(1));
    let d = net.create_node(con(1));
    net.connect(a, 0, b, 0);
    net.connect(c, 0, d, 0);
    let pairs: Vec<(usize, usize)> = net.active_pairs().iter().map(|r| (r.a, r.b)).collect();
    assert_eq!(pairs, vec![(a, b), (c, d)]);
    net.add_definition("main", a);
    net.add_definition("helper", c);
    net.add_definition("main", d);
    assert_eq!(
        net.definition_list(),
        vec![("main".to_string(), d), ("helper".to_string(), c)]
    );
    assert_eq!(net.get_definition("main"), Some(d));
}

#[test]
fn clone_subgraph_copies_the_reachable_nodes_after_the_old_ones() {
    let mut net = Net::new();
    let a = net.create_node(con(1));
    let b = net.create_node(Node::Era { port: Port::null() });
    net.connect(a, 0, b, 0);
    // An unreachable node whose port dangles does not matter.
    let _c = net.create_node(Node::Era { port: Port::new(99, 0) });
    let copy = net.clone_subgraph(a);
    assert_eq!(copy, 3);
    assert_eq!(net.node_count(), 5);
    assert_eq!(net.node_str(3), "CON(1)[4:0, NULL]");
    assert_eq!(net.node_str(4), net.node_str(b));
    assert_eq!(net.node_str(a), "CON(1)[1:0, NULL]");
}

#[test]
fn pairs_are_found_in_either_order() {
    let kinds = [con(1), con(2), Node::Dup { ports: [Port::null(), Port::null()] }, Node::Era { port: Port::null() }];
    for (i, x) in kinds.iter().enumerate() {
        for (j, y) in kinds.iter().enumerate() {
            let mut one = Net::new();
            let a = one.create_node(x.clone());
            let b = one.create_node(y.clone());
            one.connect(a, 0, b, 0);
            let mut two = Net::new();
            let c = two.create_node(y.clone());
            let d = two.create_node(x.clone());
            two.connect(c, 0, d, 0);
            assert_eq!(one.redex_count(), two.redex_count());
            let expected = match (i, j) {
                (0, 1) | (1, 0) => 0,
                (3, 3) => 0,
                _ => 1,
            };
            assert_eq!(one.redex_count(), expected);
        }
    }
}

#[test]
fn clone_subgraph_queues_the_pairs_its_wiring_makes() {
    let mut net = Net::new();
    let a = net.create_node(con(1));
    let b = net.create_node(Node::Dup { ports: [Port::null(), Port::null()] });
    let _lone = net.create_node(con(9));
    net.connect(a, 0, b, 1);
    net.connect(b, 1, a, 0);
    assert_eq!(net.redex_count(), 2);
    net.clone_subgraph(a);
    let pairs: Vec<(usize, usize)> = net.active_pairs().iter().map(|r| (r.a, r.b)).collect();
    assert_eq!(pairs, vec![(0, 1), (1, 0), (4, 3), (3, 4)]);
}
