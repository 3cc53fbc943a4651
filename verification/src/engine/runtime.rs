//! The runtime: applies interaction rules to active pairs, front first,
//! until none is left or a pair has no rule.
use crate::engine::interaction::{apply_interaction, interaction_ok, interaction_spec, InteractionResult};
use crate::engine::net::{Net, Node, Redex};
use crate::text::push_str;
use vstd::prelude::*;

verus! {

broadcast use vstd::string::group_string_axioms;

/// What running to the end gives: the nodes, the active pairs left, the
/// number of rules applied, and whether every pair met had a rule.
pub struct RunOutcome {
    pub nodes: Seq<Node>,
    pub pairs: Seq<Redex>,
    pub steps: nat,
    pub ok: bool,
}

/// Running from the given state with at most `fuel` rule applications:
/// `None` if the fuel runs out or a rule would not find its ports.
pub open spec fn run_spec(nodes: Seq<Node>, pairs: Seq<Redex>, fuel: nat) -> Option<RunOutcome>
    decreases fuel,
{
    if pairs.len() == 0 {
        Some(RunOutcome { nodes, pairs, steps: 0, ok: true })
    } else if fuel == 0 || !interaction_ok(nodes, pairs[0]) {
        None
    } else {
        let after = interaction_spec(nodes, pairs.drop_first(), pairs[0]);
        if !after.2 {
            Some(RunOutcome { nodes: after.0, pairs: after.1, steps: 0, ok: false })
        } else {
            match run_spec(after.0, after.1, (fuel - 1) as nat) {
                Some(o) => Some(RunOutcome { steps: o.steps + 1, ..o }),
                None => None,
            }
        }
    }
}

/// Running the net ends: some number of steps empties the queue or meets a
/// pair with no rule, and the step count fits in a `usize`.
pub open spec fn run_ends(net: Net) -> bool {
    exists|f: nat| #[trigger] run_spec(net.nodes(), net.pairs(), f) is Some
        && run_spec(net.nodes(), net.pairs(), f)->0.steps <= usize::MAX
}

pub open spec fn run_fuel(net: Net) -> nat {
    choose|f: nat| #[trigger] run_spec(net.nodes(), net.pairs(), f) is Some
        && run_spec(net.nodes(), net.pairs(), f)->0.steps <= usize::MAX
}

pub open spec fn run_outcome(net: Net) -> RunOutcome {
    run_spec(net.nodes(), net.pairs(), run_fuel(net))->0
}

pub struct Runtime {
    net: Net,
    stats: RuntimeStats,
}

#[derive(Debug, Clone, Default)]
pub struct RuntimeStats {
    /// How many interactions have been applied.
    pub steps: usize,
    /// The largest node count seen.
    pub max_nodes: usize,
}

impl Runtime {
    pub closed spec fn net(&self) -> Net {
        self.net
    }

    pub closed spec fn stats(&self) -> RuntimeStats {
        self.stats
    }

    /// A runtime over the net, with zeroed statistics.
    pub fn new(net: Net) -> (rt: Self)
        ensures
            rt.net() == net,
            rt.stats().steps == 0,
            rt.stats().max_nodes == 0,
    {
        Self { net, stats: RuntimeStats { steps: 0, max_nodes: 0 } }
    }

    /// Applies interactions until no active pair is left.  A pair without a
    /// rule stops the run with an error.
    pub fn run(&mut self) -> (res: Result<(), String>)
        requires
            run_ends(old(self).net()),
        ensures
            final(self).net().nodes() == run_outcome(old(self).net()).nodes,
            final(self).net().pairs() == run_outcome(old(self).net()).pairs,
            final(self).stats().steps == run_outcome(old(self).net()).steps,
            final(self).stats().max_nodes == old(self).net().nodes().len(),
            res is Ok <==> run_outcome(old(self).net()).ok,
            res matches Err(msg) ==> msg@ == "Error during evaluation: "@ + "Unsupported interaction"@,
            forall|k: Seq<char>| #[trigger] final(self).net().definition(k) == old(self).net().definition(k),
    {
        let ghost f0 = run_fuel(self.net);
        let ghost total = run_outcome(self.net);
        self.stats = RuntimeStats { steps: 0, max_nodes: 0 };
        self.stats.max_nodes = self.net.node_count();
        let ghost mut fuel = f0;
        loop
            invariant
                run_spec(self.net.nodes(), self.net.pairs(), fuel) is Some,
                run_spec(self.net.nodes(), self.net.pairs(), fuel)->0.nodes == total.nodes,
                run_spec(self.net.nodes(), self.net.pairs(), fuel)->0.pairs == total.pairs,
                run_spec(self.net.nodes(), self.net.pairs(), fuel)->0.ok == total.ok,
                self.stats.steps + run_spec(self.net.nodes(), self.net.pairs(), fuel)->0.steps == total.steps,
                total.steps <= usize::MAX,
                total == run_outcome(old(self).net()),
                self.stats.max_nodes == old(self).net.nodes().len(),
                self.net.nodes().len() == old(self).net.nodes().len(),
                forall|k: Seq<char>| #[trigger] self.net.definition(k) == old(self).net.definition(k),
            decreases fuel,
        {
            let ghost nodes = self.net.nodes();
            let ghost pairs = self.net.pairs();
            match self.net.next_redex() {
                Some(redex) => {
                    match apply_interaction(&mut self.net, redex) {
                        InteractionResult::Success => {
                            self.stats.steps = self.stats.steps + 1;
                            let count = self.net.node_count();
                            if count > self.stats.max_nodes {
                                self.stats.max_nodes = count;
                            }
                            proof {
                                fuel = (fuel - 1) as nat;
                            }
                        },
                        InteractionResult::Error(msg) => {
                            let mut text = "Error during evaluation: ".to_owned();
                            push_str(&mut text, msg.as_str());
                            return Err(text);
                        },
                    }
                },
                None => {
                    return Ok(());
                },
            }
        }
    }

    /// Applies one interaction, if an active pair is left.  Returns whether
    /// one was applied; a pair without a rule gives an error.
    pub fn step(&mut self) -> (res: Result<bool, String>)
        requires
            old(self).net().pairs().len() > 0 ==> interaction_ok(old(self).net().nodes(), old(self).net().pairs()[0]),
            old(self).stats().steps < usize::MAX,
        ensures
            old(self).net().pairs().len() == 0 ==> {
                &&& res == Ok::<bool, String>(false)
                &&& final(self).net().nodes() == old(self).net().nodes()
                &&& final(self).net().pairs() == old(self).net().pairs()
                &&& final(self).stats() == old(self).stats()
            },
            old(self).net().pairs().len() > 0 ==> {
                let after = interaction_spec(
                    old(self).net().nodes(),
                    old(self).net().pairs().drop_first(),
                    old(self).net().pairs()[0],
                );
                &&& final(self).net().nodes() == after.0
                &&& final(self).net().pairs() == after.1
                &&& (res is Ok <==> after.2)
                &&& res matches Err(msg) ==> msg@ == "Error during step: "@ + "Unsupported interaction"@
                &&& !after.2 ==> final(self).stats() == old(self).stats()
                &&& after.2 ==> res == Ok::<bool, String>(true)
                    && final(self).stats().steps == old(self).stats().steps + 1
                    && final(self).stats().max_nodes == if old(self).stats().max_nodes >= after.0.len() {
                        old(self).stats().max_nodes as int
                    } else {
                        after.0.len() as int
                    }
            },
            forall|k: Seq<char>| #[trigger] final(self).net().definition(k) == old(self).net().definition(k),
    {
        match self.net.next_redex() {
            Some(redex) => {
                match apply_interaction(&mut self.net, redex) {
                    InteractionResult::Success => {
                        self.stats.steps = self.stats.steps + 1;
                        let count = self.net.node_count();
                        if count > self.stats.max_nodes {
                            self.stats.max_nodes = count;
                        }
                        Ok(true)
                    },
                    InteractionResult::Error(msg) => {
                        let mut text = "Error during step: ".to_owned();
                        push_str(&mut text, msg.as_str());
                        Err(text)
                    },
                }
            },
            None => Ok(false),
        }
    }

    pub fn get_net(&self) -> (net: &Net)
        ensures
            *net == self.net(),
    {
        &self.net
    }

    pub fn get_net_mut(&mut self) -> (net: &mut Net)
        ensures
            *net == old(self).net(),
            final(self).net() == *final(net),
            final(self).stats() == old(self).stats(),
    {
        &mut self.net
    }

    pub fn get_stats(&self) -> (stats: &RuntimeStats)
        ensures
            *stats == self.stats(),
    {
        &self.stats
    }
}

} // verus!
