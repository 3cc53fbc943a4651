//! The interaction rules applied to an active pair.
use crate::engine::net::{connect_ok, connect_spec, port_at, Net, Node, Port, Redex};
use vstd::prelude::*;

verus! {

broadcast use vstd::string::group_string_axioms;

pub enum InteractionResult {
    Success,
    Error(String),
}

/// Whether the rule for the pair would find its nodes and the ports it
/// rewires: two constructors with the same tag join their first ports to
/// each other and their second ports to each other.
pub open spec fn interaction_ok(nodes: Seq<Node>, r: Redex) -> bool {
    &&& r.a < nodes.len()
    &&& r.b < nodes.len()
    &&& match (nodes[r.a as int], nodes[r.b as int]) {
        (Node::Con { tag: ta, ports: pa }, Node::Con { tag: tb, ports: pb }) => ta == tb ==> {
            &&& connect_ok(nodes, pa[0].node, pa[0].slot, pb[0].node)
            &&& connect_ok(
                connect_spec(nodes, Seq::empty(), pa[0].node, pa[0].slot, pb[0].node, pb[0].slot).0,
                pa[1].node,
                pa[1].slot,
                pb[1].node,
            )
        },
        _ => true,
    }
}

/// The nodes and active pairs after the rule for `r`, and whether a rule
/// applied.  Constructor-duplicator, duplicator-duplicator and
/// constructor-eraser pairs leave the net as it is; every other pair has no
/// rule.
pub open spec fn interaction_spec(nodes: Seq<Node>, pairs: Seq<Redex>, r: Redex) -> (Seq<Node>, Seq<Redex>, bool) {
    match (nodes[r.a as int], nodes[r.b as int]) {
        (Node::Con { tag: ta, ports: pa }, Node::Con { tag: tb, ports: pb }) => if ta == tb {
            let first = connect_spec(nodes, pairs, pa[0].node, pa[0].slot, pb[0].node, pb[0].slot);
            let second = connect_spec(first.0, first.1, pa[1].node, pa[1].slot, pb[1].node, pb[1].slot);
            (second.0, second.1, true)
        } else {
            (nodes, pairs, false)
        },
        (Node::Con { .. }, Node::Dup { .. }) => (nodes, pairs, true),
        (Node::Dup { .. }, Node::Dup { .. }) => (nodes, pairs, true),
        (Node::Con { .. }, Node::Era { .. }) => (nodes, pairs, true),
        _ => (nodes, pairs, false),
    }
}

enum Rule {
    Join([Port; 2], [Port; 2]),
    Keep,
    Unsupported,
}

/// Applies the interaction rule for an active pair.
pub fn apply_interaction(net: &mut Net, redex: Redex) -> (res: InteractionResult)
    requires
        interaction_ok(old(net).nodes(), redex),
    ensures
        (final(net).nodes(), final(net).pairs(), res is Success) == interaction_spec(
            old(net).nodes(),
            old(net).pairs(),
            redex,
        ),
        forall|k: Seq<char>| #[trigger] final(net).definition(k) == old(net).definition(k),
        res matches InteractionResult::Error(msg) ==> msg@ == "Unsupported interaction"@,
{
    let rule = match (net.get_node(redex.a), net.get_node(redex.b)) {
        (Node::Con { tag: tag_a, ports: ports_a }, Node::Con { tag: tag_b, ports: ports_b }) => {
            if *tag_a == *tag_b {
                Rule::Join(*ports_a, *ports_b)
            } else {
                Rule::Unsupported
            }
        },
        (Node::Con { .. }, Node::Dup { .. }) => Rule::Keep,
        (Node::Dup { .. }, Node::Dup { .. }) => Rule::Keep,
        (Node::Con { .. }, Node::Era { .. }) => Rule::Keep,
        _ => Rule::Unsupported,
    };
    match rule {
        Rule::Join(ports_a, ports_b) => {
            proof {
                let n = old(net).nodes();
                let first = connect_spec(n, old(net).pairs(), ports_a[0].node, ports_a[0].slot, ports_b[0].node, ports_b[0].slot);
                let first0 = connect_spec(n, Seq::empty(), ports_a[0].node, ports_a[0].slot, ports_b[0].node, ports_b[0].slot);
                assert(first.0 == first0.0);
            }
            net.connect(ports_a[0].node, ports_a[0].slot, ports_b[0].node, ports_b[0].slot);
            net.connect(ports_a[1].node, ports_a[1].slot, ports_b[1].node, ports_b[1].slot);
            InteractionResult::Success
        },
        Rule::Keep => InteractionResult::Success,
        Rule::Unsupported => InteractionResult::Error("Unsupported interaction".to_string()),
    }
}


/// Two constructors with the same tag annihilate: the wire from the first
/// port of one is joined to the first port of the other, and likewise the
/// second ports (the later join wins where both write the same slot).
/// Constructors with different tags, and pairs without a rule, change
/// nothing; constructor-duplicator, duplicator-duplicator and
/// constructor-eraser pairs change nothing and succeed.
pub proof fn lemma_interaction_rules(nodes: Seq<Node>, pairs: Seq<Redex>, r: Redex)
    requires
        interaction_ok(nodes, r),
    ensures
        ({
            let (n2, p2, ok) = interaction_spec(nodes, pairs, r);
            match (nodes[r.a as int], nodes[r.b as int]) {
                (Node::Con { tag: ta, ports: pa }, Node::Con { tag: tb, ports: pb }) => if ta == tb {
                    &&& ok
                    &&& port_at(n2[pa[1].node as int], pa[1].slot as int) == pb[1]
                    &&& (pa[0].node != pa[1].node || pa[0].slot != pa[1].slot) ==> port_at(
                        n2[pa[0].node as int],
                        pa[0].slot as int,
                    ) == pb[0]
                    &&& n2.len() == nodes.len()
                } else {
                    !ok && n2 == nodes && p2 == pairs
                },
                (Node::Con { .. }, Node::Dup { .. }) | (Node::Dup { .. }, Node::Dup { .. }) | (
                    Node::Con { .. },
                    Node::Era { .. },
                ) => ok && n2 == nodes && p2 == pairs,
                _ => !ok && n2 == nodes && p2 == pairs,
            }
        }),
{
}

} // verus!
