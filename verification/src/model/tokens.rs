//! Why a checked model can start and go on.
//!
//! The view taken here is that of the samples that wait on each wire. On its
//! turn an actor takes one sample from each wire that leads to it and puts one
//! on each wire that leaves it. Rates and the capacity of the channels are left
//! out: an actor that is not due on a tick, or whose consumer has not yet made
//! room, takes its turn later.
use super::Graph;
use vstd::prelude::*;

verus! {

/// The number of samples on each wire before any actor has taken a turn: one
/// on a bootstrapped wire, none on the others.
pub open spec fn initial(g: Graph) -> Seq<nat> {
    Seq::new(
        g.wires.len(),
        |e: int|
            if g.bootstrapped(e) {
                1nat
            } else {
                0nat
            },
    )
}

/// Actor `a` can take its turn: a sample waits on every wire that leads to it.
pub open spec fn enabled(g: Graph, tokens: Seq<nat>, a: int) -> bool {
    forall|e: int| 0 <= e < g.wires.len() && g.consumer(e) == a ==> #[trigger] tokens[e] >= 1
}

/// The samples on the wires after actor `a` has taken its turn.
pub open spec fn fire(g: Graph, tokens: Seq<nat>, a: int) -> Seq<nat> {
    Seq::new(
        g.wires.len(),
        |e: int|
            (tokens[e] - (if g.consumer(e) == a {
                1int
            } else {
                0int
            }) + (if g.producer(e) == a {
                1int
            } else {
                0int
            })) as nat,
    )
}

/// The samples on the wires after the first `k` actors of `order` have taken
/// their turns, one after the other.
pub open spec fn after_turns(g: Graph, order: Seq<usize>, k: nat) -> Seq<nat>
    decreases k,
{
    if k == 0 {
        initial(g)
    } else {
        fire(g, after_turns(g, order, (k - 1) as nat), order[k - 1] as int)
    }
}

/// Actor `a` is among the first `k` of `order`.
pub open spec fn had_turn(order: Seq<usize>, k: nat, a: int) -> bool {
    exists|i: int| 0 <= i < k && #[trigger] order[i] == a
}

proof fn lemma_turns(g: Graph, order: Seq<usize>, k: nat)
    requires
        g.closed(),
        g.fires_in(order),
        k <= order.len(),
    ensures
        after_turns(g, order, k).len() == g.wires.len(),
        forall|e: int|
            0 <= e < g.wires.len() ==> #[trigger] after_turns(g, order, k)[e] == initial(g)[e] + (
            if had_turn(order, k, g.producer(e)) {
                1int
            } else {
                0int
            }) - (if had_turn(order, k, g.consumer(e)) {
                1int
            } else {
                0int
            }),
        k < order.len() ==> enabled(g, after_turns(g, order, k), order[k as int] as int),
    decreases k,
{
    let now = after_turns(g, order, k);
    if k > 0 {
        let j = (k - 1) as nat;
        lemma_turns(g, order, j);
        let before = after_turns(g, order, j);
        let a = order[j as int] as int;
        assert(enabled(g, before, a));
        assert forall|x: int| had_turn(order, k, x) == (had_turn(order, j, x) || x == a) by {
            if had_turn(order, k, x) {
                let i = choose|i: int| 0 <= i < k && #[trigger] order[i] == x;
                if i < j {
                    assert(had_turn(order, j, x));
                }
            }
            if had_turn(order, j, x) {
                let i = choose|i: int| 0 <= i < j && #[trigger] order[i] == x;
                assert(0 <= i < k && order[i] == x);
            }
            if x == a {
                assert(0 <= j < k && order[j as int] == x);
            }
        }
        assert(!had_turn(order, j, a)) by {
            if had_turn(order, j, a) {
                let i = choose|i: int| 0 <= i < j && #[trigger] order[i] == a;
                assert(order[i] == order[j as int]);
            }
        }
        assert forall|e: int| 0 <= e < g.wires.len() implies #[trigger] now[e] == initial(g)[e] + (
        if had_turn(order, k, g.producer(e)) {
            1int
        } else {
            0int
        }) - (if had_turn(order, k, g.consumer(e)) {
            1int
        } else {
            0int
        }) by {
            if g.consumer(e) == a {
                assert(before[e] >= 1);
            }
        }
    }
    if k < order.len() {
        let a = order[k as int] as int;
        assert forall|e: int| 0 <= e < g.wires.len() && g.consumer(e) == a implies #[trigger] now[e]
            >= 1 by {
            assert(!had_turn(order, k, a)) by {
                if had_turn(order, k, a) {
                    let i = choose|i: int| 0 <= i < k && #[trigger] order[i] == a;
                    assert(order[i] == order[k as int]);
                }
            }
            if !g.bootstrapped(e) {
                assert(g.waits(e));
                assert(g.wires[e].port < g.ports.len());
                let p = g.ports[g.wires[e].port as int].producer;
                assert(p < g.actors.len());
                assert(order.contains(p));
                let i = choose|i: int| 0 <= i < order.len() && order[i] == p;
                assert(g.waits(e) && order[k as int] == g.consumer(e) && order[i] == g.producer(e));
                assert(i < k);
                assert(had_turn(order, k, g.producer(e)));
            }
        }
    }
}

/// A checked model starts and goes on. When the actors take their turns in an
/// order in which the model fires, each finds a sample on every wire that
/// leads to it when its turn comes, and after the last turn the wires hold
/// what they held at the start, so that the next round goes the same way.
pub proof fn lemma_round(g: Graph, order: Seq<usize>)
    requires
        g.closed(),
        g.fires_in(order),
    ensures
        forall|k: nat|
            k < order.len() ==> enabled(
                g,
                #[trigger] after_turns(g, order, k),
                order[k as int] as int,
            ),
        after_turns(g, order, order.len()) == initial(g),
{
    assert forall|k: nat| k < order.len() implies enabled(
        g,
        #[trigger] after_turns(g, order, k),
        order[k as int] as int,
    ) by {
        lemma_turns(g, order, k);
    }
    let n = order.len();
    lemma_turns(g, order, n);
    let last = after_turns(g, order, n);
    assert forall|e: int| 0 <= e < g.wires.len() implies last[e] == initial(g)[e] by {
        assert(g.wires[e].port < g.ports.len());
        let p = g.ports[g.wires[e].port as int].producer;
        let q = g.wires[e].consumer;
        assert(p < g.actors.len());
        assert(order.contains(p));
        assert(order.contains(q));
        let i = choose|i: int| 0 <= i < order.len() && order[i] == p;
        let j = choose|j: int| 0 <= j < order.len() && order[j] == q;
        assert(had_turn(order, n, g.producer(e))) by {
            assert(0 <= i < n && order[i] == g.producer(e));
        }
        assert(had_turn(order, n, g.consumer(e))) by {
            assert(0 <= j < n && order[j] == g.consumer(e));
        }
    }
    assert(last =~= initial(g));
}

} // verus!
