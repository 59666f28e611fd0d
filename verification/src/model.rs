//! The wired graph of a model and its validation.
//!
//! A model is described by the rates of its actors, by the outputs that were
//! built on them and by the wires that lead from an output to the actor that
//! reads it. The description holds no client and no channel: it is what the
//! checks of a model read.
pub mod tokens;

use crate::actor::{schedulable, Failure, RunLoop, Schedule};
use crate::rate::{agree, rates_agree, Pace, Pacer};
use vstd::prelude::*;

verus! {

/// One actor of a model: its input rate and its output rate, in base ticks.
/// An actor with `ni == 0` has no inputs, one with `no == 0` has no outputs.
#[derive(Debug, Clone, Copy, PartialEq, Eq, Structural)]
pub struct Node {
    pub ni: usize,
    pub no: usize,
}

/// One output of an actor, as it was built.
#[derive(Debug, Clone, Copy, PartialEq, Eq, Structural)]
pub struct Port {
    /// The actor that writes to the output.
    pub producer: usize,
    /// The hash of the signal that the output carries.
    pub uid: u64,
    /// The number of consumers that the output can feed.
    pub width: usize,
    /// Whether each channel of the output starts with one default sample.
    pub bootstrap: bool,
    /// Whether the channels of the output are unbounded.
    pub unbounded: bool,
}

/// One wire: the input of `consumer` that is fed by the output `port`.
#[derive(Debug, Clone, Copy, PartialEq, Eq, Structural)]
pub struct Wire {
    pub port: usize,
    pub consumer: usize,
}

/// One edge of the graph, with what it inherits from its output.
#[derive(Debug, Clone, Copy, PartialEq, Eq, Structural)]
pub struct Edge {
    pub producer: usize,
    pub consumer: usize,
    pub uid_hash: u64,
    /// The output rate of the producer.
    pub rate: usize,
    pub bootstrapped: bool,
    pub unbounded: bool,
}

/// Misuse of the builder.
#[derive(Debug, Clone, Copy, PartialEq, Eq, Structural)]
pub enum WiringError {
    /// The model has no actor or no output of that index.
    Unknown,
    /// The consumer reads another signal than the output carries.
    UidMismatch,
    /// The one channel of the output was wired already.
    Consumed,
    /// All the channels of a multiplexed output were wired already.
    MultiplexExceeded,
}

/// Why a model may not run.
#[derive(Debug, PartialEq, Eq)]
pub enum TopologyError {
    /// The actor reads at a rate but has no input.
    NoInputs { actor: usize },
    /// The actor writes at a rate but has no output.
    NoOutputs { actor: usize },
    /// The input rate and the output rate of the actor do not fit together.
    UnevenRates { actor: usize },
    /// The output of `actor` for the signal `uid` has no consumer.
    OrphanOutput { actor: usize, uid: u64 },
    /// The signal `uid` reaches `actor` on two inputs.
    DuplicateInput { actor: usize, uid: u64 },
    /// The rates of `producer` and `consumer` do not fit together on the wire
    /// that carries the signal `uid`.
    RateMismatch { producer: usize, consumer: usize, uid: u64 },
    /// A cycle without a bootstrapped wire, named by the signals on its wires
    /// in the order in which the samples would go round.
    UnbootstrappedCycle { uids: Vec<u64> },
}

/// How the run loop of one actor ended.
#[derive(Debug, Clone, Copy, PartialEq, Eq)]
pub struct Completion {
    /// The actor, by its index in the model.
    pub actor: usize,
    /// The result of its run loop.
    pub result: Result<(), Failure>,
}

/// The completion at `i` is a failure of the model: its run loop ended in
/// error, and the error is not a closed channel met while the model was
/// already shutting down, that is after another actor had ended.
pub open spec fn fatal(completions: Seq<Completion>, i: int) -> bool {
    match completions[i].result {
        Ok(_) => false,
        Err(Failure::Client) => true,
        Err(Failure::ChannelClosed) => i == 0,
    }
}

/// The first failure among the run loops of a model, which are given in the
/// order in which they ended: the actor and its error, or nothing for a model
/// that ended in good order.
pub fn first_failure(completions: &Vec<Completion>) -> (failure: Option<(usize, Failure)>)
    ensures
        match failure {
            Some((actor, error)) => exists|i: int|
                first_such(completions.len() as nat, |j: int| fatal(completions@, j), i)
                    && #[trigger] completions[i].actor == actor && completions[i].result == Err::<
                    (),
                    Failure,
                >(error),
            None => forall|i: int| 0 <= i < completions.len() ==> !fatal(completions@, i),
        },
{
    let mut i: usize = 0;
    while i < completions.len()
        invariant
            i <= completions.len(),
            forall|j: int| 0 <= j < i ==> !fatal(completions@, j),
        decreases completions.len() - i,
    {
        let done = completions[i];
        match done.result {
            Ok(_) => {},
            Err(error) => {
                let absorbed = match error {
                    Failure::Client => false,
                    Failure::ChannelClosed => i > 0,
                };
                if !absorbed {
                    assert(fatal(completions@, i as int));
                    return Some((done.actor, error));
                }
            },
        }
        i += 1;
    }
    None
}

/// What is wrong with one more consumer on an output whose `width` channels are
/// all wired: the one channel was consumed, or the multiplex is exceeded.
pub open spec fn spent(width: nat) -> WiringError {
    if width <= 1 {
        WiringError::Consumed
    } else {
        WiringError::MultiplexExceeded
    }
}

/// The error for one more consumer on an output whose `width` channels are all
/// wired.
pub fn used_up(width: usize) -> (error: WiringError)
    ensures
        error == spent(width as nat),
{
    if width <= 1 {
        WiringError::Consumed
    } else {
        WiringError::MultiplexExceeded
    }
}

/// The graph of a model, for contracts.
pub ghost struct Graph {
    pub actors: Seq<Node>,
    pub ports: Seq<Port>,
    pub wires: Seq<Wire>,
}

/// The number of wires among `wires` that leave the output `port`.
pub open spec fn fan_out(wires: Seq<Wire>, port: int) -> nat
    decreases wires.len(),
{
    if wires.len() == 0 {
        0
    } else {
        fan_out(wires.drop_last(), port) + if wires.last().port == port {
            1nat
        } else {
            0nat
        }
    }
}

impl Graph {
    /// Every output belongs to an actor of the graph and every wire joins an
    /// output of the graph to an actor of the graph.
    pub open spec fn closed(self) -> bool {
        &&& forall|p: int| 0 <= p < self.ports.len() ==> (#[trigger] self.ports[p]).producer
            < self.actors.len()
        &&& forall|e: int|
            0 <= e < self.wires.len() ==> (#[trigger] self.wires[e]).port < self.ports.len()
                && self.wires[e].consumer < self.actors.len()
    }

    /// No output feeds more consumers than it has channels.
    pub open spec fn within_width(self) -> bool {
        forall|p: int|
            0 <= p < self.ports.len() ==> fan_out(self.wires, p) <= (#[trigger] self.ports[p]).width
    }

    /// The actor at the tail of wire `e`.
    pub open spec fn producer(self, e: int) -> int {
        self.ports[self.wires[e].port as int].producer as int
    }

    /// The actor at the head of wire `e`.
    pub open spec fn consumer(self, e: int) -> int {
        self.wires[e].consumer as int
    }

    /// The signal on wire `e`.
    pub open spec fn uid(self, e: int) -> u64 {
        self.ports[self.wires[e].port as int].uid
    }

    /// Wire `e` starts with a sample in it.
    pub open spec fn bootstrapped(self, e: int) -> bool {
        self.ports[self.wires[e].port as int].bootstrap
    }

    /// Wire `e` as an edge of the graph.
    pub open spec fn edge(self, e: int) -> Edge {
        Edge {
            producer: self.ports[self.wires[e].port as int].producer,
            consumer: self.wires[e].consumer,
            uid_hash: self.uid(e),
            rate: self.actors[self.producer(e)].no,
            bootstrapped: self.bootstrapped(e),
            unbounded: self.ports[self.wires[e].port as int].unbounded,
        }
    }

    /// The edges of the graph, wire by wire.
    pub open spec fn edges(self) -> Seq<Edge> {
        Seq::new(self.wires.len(), |e: int| self.edge(e))
    }

    /// Why a wire from the output `port` to an input of `consumer` for the
    /// signal of hash `reads` is refused, if it is.
    pub open spec fn refusal(self, port: int, consumer: int, reads: u64) -> Option<WiringError> {
        if port >= self.ports.len() || consumer >= self.actors.len() {
            Some(WiringError::Unknown)
        } else if self.ports[port].uid != reads {
            Some(WiringError::UidMismatch)
        } else if fan_out(self.wires, port) < self.ports[port].width {
            None
        } else {
            Some(spent(self.ports[port].width as nat))
        }
    }

    /// Actor `a` reads at a rate but no wire leads to it.
    pub open spec fn lacks_inputs(self, a: int) -> bool {
        self.actors[a].ni > 0 && forall|e: int|
            0 <= e < self.wires.len() ==> (#[trigger] self.wires[e]).consumer != a
    }

    /// Actor `a` writes at a rate but no output was built on it.
    pub open spec fn lacks_outputs(self, a: int) -> bool {
        self.actors[a].no > 0 && forall|p: int|
            0 <= p < self.ports.len() ==> (#[trigger] self.ports[p]).producer != a
    }

    /// Actor `a` reads and writes at rates of which neither is a multiple of
    /// the other, so that its run loop has no schedule.
    pub open spec fn uneven(self, a: int) -> bool {
        !schedulable(self.actors[a].ni as nat, self.actors[a].no as nat)
    }

    /// No wire leaves the output `p`.
    pub open spec fn orphan(self, p: int) -> bool {
        fan_out(self.wires, p) == 0
    }

    /// An earlier wire brings the signal of wire `e` to the same actor.
    pub open spec fn duplicate(self, e: int) -> bool {
        exists|f: int|
            0 <= f < e && #[trigger] self.consumer(f) == self.consumer(e) && self.uid(f)
                == self.uid(e)
    }

    /// The rates at the two ends of wire `e` do not fit together.
    pub open spec fn mismatched(self, e: int) -> bool {
        !agree(self.actors[self.producer(e)].no as nat, self.actors[self.consumer(e)].ni as nat)
    }

    /// `rate` is the input rate of the slowest consumer of the output `p`, which
    /// governs how often the samples of the output are sent.
    pub open spec fn governs(self, p: int, rate: nat) -> bool {
        &&& exists|e: int|
            0 <= e < self.wires.len() && (#[trigger] self.wires[e]).port == p
                && self.actors[self.wires[e].consumer as int].ni == rate
        &&& forall|e: int|
            0 <= e < self.wires.len() && (#[trigger] self.wires[e]).port == p
                ==> self.actors[self.wires[e].consumer as int].ni <= rate
    }

    /// Wire `e` cannot start on its own: it holds no sample at the start.
    pub open spec fn waits(self, e: int) -> bool {
        0 <= e < self.wires.len() && !self.bootstrapped(e)
    }

    /// The wires `c` form a cycle of which none is bootstrapped: each leads to
    /// the actor from which the next one leaves, and the last one to the actor
    /// from which the first one leaves.
    pub open spec fn is_cycle(self, c: Seq<int>) -> bool {
        &&& c.len() > 0
        &&& forall|i: int| 0 <= i < c.len() ==> self.waits(#[trigger] c[i])
        &&& forall|i: int|
            0 <= i < c.len() - 1 ==> self.consumer(#[trigger] c[i]) == self.producer(c[i + 1])
        &&& self.consumer(c.last()) == self.producer(c[0])
    }

    /// `runs` are the run loops of the actors, actor by actor, at their start.
    pub open spec fn starts(self, runs: Seq<Schedule>) -> bool {
        &&& runs.len() == self.actors.len()
        &&& forall|a: int|
            0 <= a < runs.len() ==> #[trigger] runs[a] == Schedule::start(
                self.actors[a].ni as nat,
                self.actors[a].no as nat,
            )
    }

    /// `pacers` are the pacers of the outputs, output by output, at their
    /// start: each between the output rate of its producer and the input rate
    /// of the slowest of its consumers.
    pub open spec fn paces(self, pacers: Seq<Pace>) -> bool {
        &&& pacers.len() == self.ports.len()
        &&& forall|p: int|
            0 <= p < pacers.len() ==> (#[trigger] pacers[p]).rp
                == self.actors[self.ports[p].producer as int].no && self.governs(p, pacers[p].rc)
                && pacers[p].seen == 0
    }

    /// Every actor that reads has an input.
    pub open spec fn fed(self) -> bool {
        forall|a: int| 0 <= a < self.actors.len() ==> !self.lacks_inputs(a)
    }

    /// Every actor that writes has an output.
    pub open spec fn feeding(self) -> bool {
        forall|a: int| 0 <= a < self.actors.len() ==> !self.lacks_outputs(a)
    }

    /// The two rates of every actor fit together.
    pub open spec fn paced(self) -> bool {
        forall|a: int| 0 <= a < self.actors.len() ==> !self.uneven(a)
    }

    /// Every output has a consumer.
    pub open spec fn consumed(self) -> bool {
        forall|p: int| 0 <= p < self.ports.len() ==> !self.orphan(p)
    }

    /// No actor gets the same signal on two inputs.
    pub open spec fn distinct_inputs(self) -> bool {
        forall|e: int| 0 <= e < self.wires.len() ==> !self.duplicate(e)
    }

    /// The rates fit together on every wire.
    pub open spec fn rates_fit(self) -> bool {
        forall|e: int| 0 <= e < self.wires.len() ==> !self.mismatched(e)
    }

    /// Every cycle has a bootstrapped wire.
    pub open spec fn acyclic(self) -> bool {
        forall|c: Seq<int>| !self.is_cycle(c)
    }

    /// Every actor has the inputs and the outputs that its rates ask for, and
    /// rates that fit together.
    pub open spec fn equipped(self) -> bool {
        self.fed() && self.feeding() && self.paced()
    }

    /// The model may run: nothing dangles, no actor gets a signal twice, the
    /// rates fit together and every cycle is bootstrapped.
    pub open spec fn valid(self) -> bool {
        &&& self.fed()
        &&& self.feeding()
        &&& self.paced()
        &&& self.consumed()
        &&& self.distinct_inputs()
        &&& self.rates_fit()
        &&& self.acyclic()
    }

    /// Wire `e` holds back actor `v`: it leads to `v`, it starts empty, and its
    /// producer is among those that `alive` marks as not done.
    pub open spec fn held_by(self, alive: Seq<bool>, e: int, v: int) -> bool {
        self.waits(e) && self.consumer(e) == v && alive[self.producer(e)]
    }

    /// Every actor that `alive` marks as not done is held back by a wire.
    pub open spec fn stuck(self, alive: Seq<bool>) -> bool {
        forall|v: int|
            0 <= v < alive.len() && #[trigger] alive[v] ==> exists|e: int|
                self.held_by(alive, e, v)
    }

    /// Every actor in `order` comes after the producers of all the wires that
    /// it waits for.
    pub open spec fn grounded(self, order: Seq<usize>) -> bool {
        forall|e: int, i: int|
            #![trigger self.waits(e), order[i]]
            self.waits(e) && 0 <= i < order.len() && order[i] == self.consumer(e) ==> exists|
                j: int,
            |
                0 <= j < i && #[trigger] order[j] == self.producer(e)
    }

    /// What the error says is true of the graph, and it is the first fault in
    /// the order of the checks: actors without inputs, actors without outputs,
    /// actors with uneven rates, outputs without consumers, signals that reach
    /// an actor twice, wires between rates that do not fit, cycles that are not
    /// bootstrapped; and within one check the fault of the least index.
    pub open spec fn explains(self, error: TopologyError) -> bool {
        match error {
            TopologyError::NoInputs { actor } => first_such(
                self.actors.len(),
                |a: int| self.lacks_inputs(a),
                actor as int,
            ),
            TopologyError::NoOutputs { actor } => self.fed() && first_such(
                self.actors.len(),
                |a: int| self.lacks_outputs(a),
                actor as int,
            ),
            TopologyError::UnevenRates { actor } => self.fed() && self.feeding() && first_such(
                self.actors.len(),
                |a: int| self.uneven(a),
                actor as int,
            ),
            TopologyError::OrphanOutput { actor, uid } => self.equipped() && exists|p: int|
                #![trigger self.ports[p]]
                first_such(self.ports.len(), |q: int| self.orphan(q), p) && self.ports[p].producer
                    == actor && self.ports[p].uid == uid,
            TopologyError::DuplicateInput { actor, uid } => self.equipped() && self.consumed()
                && exists|e: int|
                #![trigger self.wires[e]]
                first_such(self.wires.len(), |f: int| self.duplicate(f), e) && self.consumer(e)
                    == actor && self.uid(e) == uid,
            TopologyError::RateMismatch { producer, consumer, uid } => self.equipped()
                && self.consumed() && self.distinct_inputs() && exists|e: int|
                #![trigger self.wires[e]]
                first_such(self.wires.len(), |f: int| self.mismatched(f), e) && self.producer(e)
                    == producer && self.consumer(e) == consumer && self.uid(e) == uid,
            TopologyError::UnbootstrappedCycle { uids } => self.equipped() && self.consumed()
                && self.distinct_inputs() && self.rates_fit() && exists|
                c: Seq<int>,
            |
                self.is_cycle(c) && #[trigger] c.len() == uids.len() && forall|i: int|
                    0 <= i < c.len() ==> uids[i] == self.uid(#[trigger] c[i]),
        }
    }

    /// `order` lists every actor once, and each actor after all those whose
    /// samples it waits for: an actor can take its turn when those before it
    /// have had theirs.
    pub open spec fn fires_in(self, order: Seq<usize>) -> bool {
        &&& order.len() == self.actors.len()
        &&& order.no_duplicates()
        &&& forall|i: int| 0 <= i < order.len() ==> #[trigger] order[i] < self.actors.len()
        &&& forall|a: usize| a < self.actors.len() ==> #[trigger] order.contains(a)
        &&& forall|e: int, i: int, j: int|
            #![trigger self.waits(e), order[i], order[j]]
            self.waits(e) && 0 <= i < order.len() && 0 <= j < order.len() && order[i]
                == self.consumer(e) && order[j] == self.producer(e) ==> j < i
    }
}

/// `i` is the least index under `n` at which `p` holds.
pub open spec fn first_such(n: nat, p: spec_fn(int) -> bool, i: int) -> bool {
    &&& 0 <= i < n
    &&& p(i)
    &&& forall|j: int| 0 <= j < i ==> !#[trigger] p(j)
}

/// How an output is to be built: a chain of choices that starts with one
/// bounded channel for one consumer.
#[derive(Debug, Clone, Copy, PartialEq, Eq, Structural)]
pub struct OutputBuilder {
    pub producer: usize,
    pub width: usize,
    pub bootstrap: bool,
    pub unbounded: bool,
}

impl OutputBuilder {
    /// Prefills each channel with one default sample, which lets a feedback
    /// loop start.
    pub fn bootstrap(self) -> (builder: Self)
        ensures
            builder == (OutputBuilder { bootstrap: true, ..self }),
    {
        OutputBuilder { bootstrap: true, ..self }
    }

    /// Replaces the channels of capacity one by unbounded ones.
    pub fn unbounded(self) -> (builder: Self)
        ensures
            builder == (OutputBuilder { unbounded: true, ..self }),
    {
        OutputBuilder { unbounded: true, ..self }
    }

    /// Gives the output `k` channels, for `k` consumers.
    pub fn multiplex(self, k: usize) -> (builder: Self)
        ensures
            builder == (OutputBuilder { width: k, ..self }),
    {
        OutputBuilder { width: k, ..self }
    }
}

/// A model under construction: actors, the outputs built on them and the
/// wires attached so far.
pub struct Model {
    actors: Vec<Node>,
    ports: Vec<Port>,
    wires: Vec<Wire>,
    taken: Vec<usize>,
}

impl View for Model {
    type V = Graph;

    closed spec fn view(&self) -> Graph {
        Graph { actors: self.actors@, ports: self.ports@, wires: self.wires@ }
    }
}

impl Model {
    #[verifier::type_invariant]
    spec fn well_formed(self) -> bool {
        &&& self@.closed()
        &&& self.taken.len() == self.ports.len()
        &&& forall|p: int|
            0 <= p < self.ports.len() ==> #[trigger] self.taken[p] == fan_out(self.wires@, p)
                && self.taken[p] <= self.ports[p].width
    }

    proof fn lemma_view(&self)
        ensures
            self@.actors == self.actors@,
            self@.ports == self.ports@,
            self@.wires == self.wires@,
    {
    }

    /// A model of the actors `actors`, with nothing wired.
    pub fn new(actors: Vec<Node>) -> (model: Self)
        ensures
            model@ == (Graph { actors: actors@, ports: Seq::empty(), wires: Seq::empty() }),
    {
        Model { actors, ports: Vec::new(), wires: Vec::new(), taken: Vec::new() }
    }

    /// Opens the builder of a new output of the actor `producer`.
    pub fn add_output(&self, producer: usize) -> (builder: OutputBuilder)
        ensures
            builder == (OutputBuilder { producer, width: 1, bootstrap: false, unbounded: false }),
    {
        OutputBuilder { producer, width: 1, bootstrap: false, unbounded: false }
    }

    /// Seals the output that `builder` describes, for the signal of hash `uid`,
    /// and returns its index. An unknown producer is refused and leaves the
    /// model as it was.
    pub fn build(&mut self, builder: OutputBuilder, uid: u64) -> (port: Result<usize, WiringError>)
        ensures
            builder.producer >= old(self)@.actors.len() ==> port == Err::<usize, WiringError>(
                WiringError::Unknown,
            ) && final(self)@ == old(self)@,
            builder.producer < old(self)@.actors.len() ==> port == Ok::<usize, WiringError>(
                old(self)@.ports.len() as usize,
            ) && final(self)@ == (Graph {
                ports: old(self)@.ports.push(
                    Port {
                        producer: builder.producer,
                        uid,
                        width: builder.width,
                        bootstrap: builder.bootstrap,
                        unbounded: builder.unbounded,
                    },
                ),
                ..old(self)@
            }),
    {
        proof {
            use_type_invariant(&*self);
        }
        if builder.producer >= self.actors.len() {
            return Err(WiringError::Unknown);
        }
        let index = self.ports.len();
        let port = Port {
            producer: builder.producer,
            uid,
            width: builder.width,
            bootstrap: builder.bootstrap,
            unbounded: builder.unbounded,
        };
        let mut model = Model::new(Vec::new());
        std::mem::swap(self, &mut model);
        proof {
            use_type_invariant(&model);
        }
        let Model { actors, mut ports, wires, mut taken } = model;
        assert(model@.closed());
        assert(forall|e: int| 0 <= e < wires.len() ==> (#[trigger] wires[e]).port < index);
        ports.push(port);
        taken.push(0);
        proof {
            lemma_fan_out_unknown(wires@, index as int);
        }
        *self = Model { actors, ports, wires, taken };
        Ok(index)
    }

    /// Attaches the output `port` to an input of the actor `consumer`, which
    /// reads the signal of hash `reads`. A wire that is refused leaves the
    /// model as it was.
    pub fn into_input(&mut self, port: usize, consumer: usize, reads: u64) -> (done: Result<
        (),
        WiringError,
    >)
        ensures
            match old(self)@.refusal(port as int, consumer as int, reads) {
                Some(error) => done == Err::<(), WiringError>(error) && final(self)@ == old(self)@,
                None => done is Ok && final(self)@ == (Graph {
                    wires: old(self)@.wires.push(Wire { port, consumer }),
                    ..old(self)@
                }),
            },
    {
        proof {
            use_type_invariant(&*self);
        }
        if port >= self.ports.len() || consumer >= self.actors.len() {
            return Err(WiringError::Unknown);
        }
        if self.ports[port].uid != reads {
            return Err(WiringError::UidMismatch);
        }
        if self.taken[port] >= self.ports[port].width {
            return Err(used_up(self.ports[port].width));
        }
        let mut model = Model::new(Vec::new());
        std::mem::swap(self, &mut model);
        proof {
            use_type_invariant(&model);
        }
        let Model { actors, ports, mut wires, mut taken } = model;
        let ghost before = wires@;
        let wire = Wire { port, consumer };
        wires.push(wire);
        let count = taken[port];
        taken.set(port, count + 1);
        proof {
            assert(wires@.drop_last() =~= before);
            assert forall|p: int| 0 <= p < ports.len() implies #[trigger] taken[p] == fan_out(
                wires@,
                p,
            ) && taken[p] <= ports[p].width by {
                assert(fan_out(wires@, p) == fan_out(before, p) + if wire.port == p {
                    1nat
                } else {
                    0nat
                });
            }
        }
        *self = Model { actors, ports, wires, taken };
        Ok(())
    }

    /// The edges of the model, wire by wire: its topology.
    pub fn flowchart(&self) -> (edges: Vec<Edge>)
        ensures
            edges@ == self@.edges(),
    {
        proof {
            use_type_invariant(self);
        }
        let mut edges: Vec<Edge> = Vec::new();
        let mut e: usize = 0;
        while e < self.wires.len()
            invariant
                e <= self.wires.len(),
                self@.closed(),
                edges.len() == e,
                forall|f: int| 0 <= f < e ==> edges[f] == self@.edge(f),
            decreases self.wires.len() - e,
        {
            proof {
                self.lemma_view();
            }
            let wire = self.wires[e];
            let port = self.ports[wire.port];
            edges.push(
                Edge {
                    producer: port.producer,
                    consumer: wire.consumer,
                    uid_hash: port.uid,
                    rate: self.actors[port.producer].no,
                    bootstrapped: port.bootstrap,
                    unbounded: port.unbounded,
                },
            );
            e += 1;
        }
        assert(edges@ =~= self@.edges());
        edges
    }

    fn first_unfed(&self) -> (found: Option<usize>)
        ensures
            match found {
                Some(a) => first_such(
                    self@.actors.len(),
                    |a: int| self@.lacks_inputs(a),
                    a as int,
                ),
                None => self@.fed(),
            },
    {
        let mut a: usize = 0;
        while a < self.actors.len()
            invariant
                a <= self.actors.len(),
                forall|b: int| 0 <= b < a ==> !self@.lacks_inputs(b),
            decreases self.actors.len() - a,
        {
            if self.actors[a].ni > 0 {
                let mut e: usize = 0;
                let mut fed = false;
                while e < self.wires.len() && !fed
                    invariant
                        e <= self.wires.len(),
                        !fed ==> forall|f: int|
                            0 <= f < e ==> (#[trigger] self@.wires[f]).consumer != a,
                        fed ==> exists|f: int|
                            0 <= f < self.wires.len() && (#[trigger] self@.wires[f]).consumer == a,
                    decreases self.wires.len() - e + if fed { 0int } else { 1int },
                {
                    proof {
                        self.lemma_view();
                    }
                    if self.wires[e].consumer == a {
                        assert(self@.wires[e as int].consumer == a);
                        fed = true;
                    } else {
                        e += 1;
                    }
                }
                if !fed {
                    return Some(a);
                }
            }
            a += 1;
        }
        None
    }

    fn first_unheard(&self) -> (found: Option<usize>)
        ensures
            match found {
                Some(a) => first_such(
                    self@.actors.len(),
                    |a: int| self@.lacks_outputs(a),
                    a as int,
                ),
                None => self@.feeding(),
            },
    {
        let mut a: usize = 0;
        while a < self.actors.len()
            invariant
                a <= self.actors.len(),
                forall|b: int| 0 <= b < a ==> !self@.lacks_outputs(b),
            decreases self.actors.len() - a,
        {
            if self.actors[a].no > 0 {
                let mut p: usize = 0;
                let mut heard = false;
                while p < self.ports.len() && !heard
                    invariant
                        p <= self.ports.len(),
                        !heard ==> forall|q: int|
                            0 <= q < p ==> (#[trigger] self@.ports[q]).producer != a,
                        heard ==> exists|q: int|
                            0 <= q < self.ports.len() && (#[trigger] self@.ports[q]).producer == a,
                    decreases self.ports.len() - p + if heard { 0int } else { 1int },
                {
                    proof {
                        self.lemma_view();
                    }
                    if self.ports[p].producer == a {
                        assert(self@.ports[p as int].producer == a);
                        heard = true;
                    } else {
                        p += 1;
                    }
                }
                if !heard {
                    return Some(a);
                }
            }
            a += 1;
        }
        None
    }

    fn first_uneven(&self) -> (found: Option<usize>)
        ensures
            match found {
                Some(a) => first_such(self@.actors.len(), |a: int| self@.uneven(a), a as int),
                None => self@.paced(),
            },
    {
        let mut a: usize = 0;
        while a < self.actors.len()
            invariant
                a <= self.actors.len(),
                forall|b: int| 0 <= b < a ==> !self@.uneven(b),
            decreases self.actors.len() - a,
        {
            proof {
                self.lemma_view();
            }
            let node = self.actors[a];
            if node.ni > 0 && node.no > 0 && !rates_agree(node.ni, node.no) {
                return Some(a);
            }
            a += 1;
        }
        None
    }

    fn first_orphan(&self) -> (found: Option<usize>)
        ensures
            match found {
                Some(p) => first_such(self@.ports.len(), |q: int| self@.orphan(q), p as int),
                None => self@.consumed(),
            },
    {
        proof {
            use_type_invariant(self);
        }
        let mut p: usize = 0;
        while p < self.ports.len()
            invariant
                p <= self.ports.len(),
                self.taken.len() == self.ports.len(),
                forall|q: int|
                    0 <= q < self.ports.len() ==> #[trigger] self.taken[q] == fan_out(
                        self.wires@,
                        q,
                    ),
                forall|q: int| 0 <= q < p ==> !self@.orphan(q),
            decreases self.ports.len() - p,
        {
            if self.taken[p] == 0 {
                return Some(p);
            }
            p += 1;
        }
        None
    }

    fn first_duplicate(&self) -> (found: Option<usize>)
        ensures
            match found {
                Some(e) => first_such(self@.wires.len(), |f: int| self@.duplicate(f), e as int),
                None => self@.distinct_inputs(),
            },
    {
        proof {
            use_type_invariant(self);
        }
        let mut e: usize = 0;
        while e < self.wires.len()
            invariant
                e <= self.wires.len(),
                self@.closed(),
                forall|f: int| 0 <= f < e ==> !self@.duplicate(f),
            decreases self.wires.len() - e,
        {
            let mut f: usize = 0;
            while f < e
                invariant
                    f <= e < self.wires.len(),
                    self@.closed(),
                    forall|g: int| 0 <= g < e ==> !self@.duplicate(g),
                    forall|g: int|
                        0 <= g < f ==> !(#[trigger] self@.consumer(g) == self@.consumer(e as int)
                            && self@.uid(g) == self@.uid(e as int)),
                decreases e - f,
            {
                proof {
                    self.lemma_view();
                }
                let earlier = self.wires[f];
                let later = self.wires[e];
                if earlier.consumer == later.consumer && self.ports[earlier.port].uid
                    == self.ports[later.port].uid {
                    assert(self@.consumer(f as int) == self@.consumer(e as int));
                    assert(self@.duplicate(e as int));
                    return Some(e);
                }
                f += 1;
            }
            e += 1;
        }
        None
    }

    fn first_mismatch(&self) -> (found: Option<usize>)
        ensures
            match found {
                Some(e) => first_such(self@.wires.len(), |f: int| self@.mismatched(f), e as int),
                None => self@.rates_fit(),
            },
    {
        proof {
            use_type_invariant(self);
        }
        let mut e: usize = 0;
        while e < self.wires.len()
            invariant
                e <= self.wires.len(),
                self@.closed(),
                forall|f: int| 0 <= f < e ==> !self@.mismatched(f),
            decreases self.wires.len() - e,
        {
            proof {
                self.lemma_view();
            }
            let wire = self.wires[e];
            let producer = self.ports[wire.port].producer;
            if !rates_agree(self.actors[producer].no, self.actors[wire.consumer].ni) {
                return Some(e);
            }
            e += 1;
        }
        None
    }

    fn holder(&self, alive: &Vec<bool>, v: usize) -> (found: Option<usize>)
        requires
            alive.len() == self@.actors.len(),
        ensures
            match found {
                Some(e) => self@.held_by(alive@, e as int, v as int),
                None => forall|e: int| !self@.held_by(alive@, e, v as int),
            },
    {
        proof {
            use_type_invariant(self);
        }
        let mut e: usize = 0;
        while e < self.wires.len()
            invariant
                e <= self.wires.len(),
                self@.closed(),
                alive.len() == self@.actors.len(),
                forall|f: int| 0 <= f < e ==> !self@.held_by(alive@, f, v as int),
            decreases self.wires.len() - e,
        {
            proof {
                self.lemma_view();
            }
            let wire = self.wires[e];
            let port = self.ports[wire.port];
            if !port.bootstrap && wire.consumer == v && alive[port.producer] {
                return Some(e);
            }
            e += 1;
        }
        None
    }

    fn peel(&self) -> (done: (Vec<usize>, Vec<bool>))
        ensures
            done.0@.no_duplicates(),
            forall|i: int| 0 <= i < done.0.len() ==> #[trigger] done.0[i] < self@.actors.len(),
            done.1.len() == self@.actors.len(),
            forall|v: usize| v < self@.actors.len() ==> done.1[v as int] == !done.0@.contains(v),
            self@.grounded(done.0@),
            self@.stuck(done.1@),
    {
        proof {
            use_type_invariant(self);
            self.lemma_view();
        }
        let n = self.actors.len();
        let mut alive: Vec<bool> = Vec::new();
        let mut v: usize = 0;
        while v < n
            invariant
                v <= n,
                alive.len() == v,
                forall|u: int| 0 <= u < v ==> alive[u],
            decreases n - v,
        {
            alive.push(true);
            v += 1;
        }
        let mut order: Vec<usize> = Vec::new();
        let mut progress = true;
        while progress
            invariant
                n == self@.actors.len(),
                self@.closed(),
                alive.len() == n,
                order.len() <= n,
                order@.no_duplicates(),
                forall|i: int| 0 <= i < order.len() ==> #[trigger] order[i] < n,
                forall|u: usize| u < n ==> alive[u as int] == !order@.contains(u),
                self@.grounded(order@),
                !progress ==> self@.stuck(alive@),
            decreases 2 * (n - order.len()) + if progress { 1int } else { 0int },
        {
            progress = false;
            let ghost start = order.len();
            v = 0;
            while v < n
                invariant
                    v <= n,
                    n == self@.actors.len(),
                    self@.closed(),
                    alive.len() == n,
                    order.len() <= n,
                    order@.no_duplicates(),
                    forall|i: int| 0 <= i < order.len() ==> #[trigger] order[i] < n,
                    forall|u: usize| u < n ==> alive[u as int] == !order@.contains(u),
                    self@.grounded(order@),
                    progress ==> order.len() > start,
                    !progress ==> order.len() == start && forall|u: int|
                        0 <= u < v && #[trigger] alive[u] ==> exists|e: int|
                            self@.held_by(alive@, e, u),
                decreases n - v,
            {
                if alive[v] {
                    let held = self.holder(&alive, v);
                    if held.is_none() {
                        let ghost before = order@;
                        let ghost marks = alive@;
                        alive.set(v, false);
                        order.push(v);
                        progress = true;
                        proof {
                            assert(order@.drop_last() =~= before);
                            assert(forall|u: usize| #[trigger]
                                order@.contains(u) <==> before.contains(u) || u == v) by {
                                assert forall|u: usize| #[trigger]
                                    order@.contains(u) implies before.contains(u) || u == v by {
                                    let i = choose|i: int| 0 <= i < order.len() && order[i] == u;
                                    if i < before.len() {
                                        assert(before[i] == u);
                                    }
                                }
                                assert forall|u: usize| before.contains(u) || u == v implies #[trigger]
                                    order@.contains(u) by {
                                    if before.contains(u) {
                                        let i = choose|i: int| 0 <= i < before.len() && before[i] == u;
                                        assert(order[i] == u);
                                    } else {
                                        assert(order[before.len() as int] == u);
                                    }
                                }
                            }
                            assert(self@.grounded(order@)) by {
                                assert forall|e: int, i: int|
                                    #![trigger self@.waits(e), order@[i]]
                                    self@.waits(e) && 0 <= i < order.len() && order[i]
                                        == self@.consumer(e) implies exists|j: int|
                                    0 <= j < i && #[trigger] order@[j] == self@.producer(e) by {
                                    if i < before.len() {
                                        assert(before[i] == order[i]);
                                        let j = choose|j: int|
                                            0 <= j < i && #[trigger] before[j] == self@.producer(e);
                                        assert(order@[j] == self@.producer(e));
                                    } else {
                                        assert(!self@.held_by(marks, e, v as int));
                                        let p = self@.producer(e) as usize;
                                        assert(self@.wires[e].port < self@.ports.len());
                                        assert(self@.ports[self@.wires[e].port as int].producer < n);
                                        assert(!marks[p as int]);
                                        assert(before.contains(p));
                                        let j = choose|j: int| 0 <= j < before.len() && before[j] == p;
                                        assert(order@[j] == self@.producer(e));
                                    }
                                }
                            }
                            lemma_distinct_bounded(order@, n as nat);
                        }
                    }
                }
                v += 1;
            }
        }
        (order, alive)
    }

    fn find_cycle(&self, alive: &Vec<bool>, start: usize) -> (cycle: Vec<usize>)
        requires
            alive.len() == self@.actors.len(),
            start < alive.len(),
            alive[start as int],
            self@.stuck(alive@),
        ensures
            self@.is_cycle(cycle@.map_values(|e: usize| e as int)),
    {
        proof {
            use_type_invariant(self);
            self.lemma_view();
        }
        let n = self.actors.len();
        let mut seen: Vec<Option<usize>> = Vec::new();
        let mut v: usize = 0;
        while v < n
            invariant
                v <= n,
                seen.len() == v,
                forall|u: int| 0 <= u < v ==> seen[u] is None,
            decreases n - v,
        {
            seen.push(None);
            v += 1;
        }
        let mut path: Vec<usize> = Vec::new();
        let mut cur = start;
        let ghost mut nodes: Seq<usize> = seq![start];
        loop
            invariant
                n == self@.actors.len(),
                self@.closed(),
                alive.len() == n,
                self@.stuck(alive@),
                seen.len() == n,
                cur < n,
                alive[cur as int],
                nodes.len() == path.len() + 1,
                nodes[path.len() as int] == cur,
                path.len() <= n,
                forall|i: int| 0 <= i < nodes.len() ==> #[trigger] nodes[i] < n,
                forall|i: int|
                    0 <= i < path.len() ==> self@.waits(#[trigger] path[i] as int)
                        && self@.consumer(path[i] as int) == nodes[i] && self@.producer(
                        path[i] as int,
                    ) == nodes[i + 1],
                forall|i: int| 0 <= i < path.len() ==> seen[#[trigger] nodes[i] as int] == Some(i as usize),
                forall|u: int|
                    0 <= u < n ==> match #[trigger] seen[u] {
                        Some(k) => k < path.len() && nodes[k as int] == u,
                        None => forall|k: int| 0 <= k < path.len() ==> nodes[k] != u,
                    },
            decreases n - path.len(),
        {
            proof {
                self.lemma_view();
            }
            match seen[cur] {
                Some(k) => {
                    let len = path.len();
                    let mut cycle: Vec<usize> = Vec::new();
                    let mut i: usize = len;
                    while i > k
                        invariant
                            k <= i <= len,
                            len == path.len(),
                            cycle.len() == len - i,
                            forall|t: int| 0 <= t < cycle.len() ==> cycle[t] == path[len - 1 - t],
                        decreases i,
                    {
                        i -= 1;
                        cycle.push(path[i]);
                    }
                    proof {
                        let c = cycle@.map_values(|e: usize| e as int);
                        assert(c.len() == len - k);
                        assert forall|t: int| 0 <= t < c.len() implies self@.waits(
                            #[trigger] c[t],
                        ) by {
                            assert(c[t] == path[len - 1 - t] as int);
                        }
                        assert forall|t: int| 0 <= t < c.len() - 1 implies self@.consumer(
                            #[trigger] c[t],
                        ) == self@.producer(c[t + 1]) by {
                            assert(c[t] == path[len - 1 - t] as int);
                            assert(c[t + 1] == path[len - 2 - t] as int);
                        }
                        assert(c.last() == path[k as int] as int);
                        assert(c[0] == path[len - 1] as int);
                    }
                    return cycle;
                },
                None => {
                    proof {
                        assert(nodes.no_duplicates()) by {
                            assert forall|i: int, j: int|
                                0 <= i < nodes.len() && 0 <= j < nodes.len() && i != j implies nodes[i]
                                != nodes[j] by {
                                if i < path.len() && j < path.len() {
                                    assert(seen[nodes[i] as int] == Some(i as usize));
                                    assert(seen[nodes[j] as int] == Some(j as usize));
                                }
                            }
                        }
                        lemma_distinct_bounded(nodes, n as nat);
                    }
                    seen.set(cur, Some(path.len()));
                    let held = self.holder(alive, cur);
                    match held {
                        Some(e) => {
                            let next = self.ports[self.wires[e].port].producer;
                            path.push(e);
                            proof {
                                nodes = nodes.push(next);
                            }
                            cur = next;
                        },
                        None => {
                            proof {
                                assert(alive@[cur as int]);
                                let e = choose|e: int| self@.held_by(alive@, e, cur as int);
                                assert(self@.held_by(alive@, e, cur as int));
                                assert(false);
                            }
                            return path;
                        },
                    }
                },
            }
        }
    }

    fn uids_along(&self, cycle: &Vec<usize>) -> (uids: Vec<u64>)
        requires
            forall|i: int| 0 <= i < cycle.len() ==> #[trigger] cycle[i] < self@.wires.len(),
        ensures
            uids.len() == cycle.len(),
            forall|i: int| 0 <= i < cycle.len() ==> #[trigger] uids[i] == self@.uid(cycle[i] as int),
    {
        proof {
            use_type_invariant(self);
        }
        let mut uids: Vec<u64> = Vec::new();
        let mut i: usize = 0;
        while i < cycle.len()
            invariant
                i <= cycle.len(),
                self@.closed(),
                forall|t: int| 0 <= t < cycle.len() ==> #[trigger] cycle[t] < self@.wires.len(),
                uids.len() == i,
                forall|t: int| 0 <= t < i ==> #[trigger] uids[t] == self@.uid(cycle[t] as int),
            decreases cycle.len() - i,
        {
            proof {
                self.lemma_view();
            }
            uids.push(self.ports[self.wires[cycle[i]].port].uid);
            i += 1;
        }
        uids
    }

    fn check_ports(&self) -> (verdict: Result<(), TopologyError>)
        ensures
            match verdict {
                Ok(_) => self@.equipped() && self@.consumed(),
                Err(error) => self@.explains(error) && !(self@.equipped() && self@.consumed()),
            },
    {
        proof {
            use_type_invariant(self);
            self.lemma_view();
        }
        if let Some(actor) = self.first_unfed() {
            assert(self@.lacks_inputs(actor as int));
            return Err(TopologyError::NoInputs { actor });
        }
        if let Some(actor) = self.first_unheard() {
            assert(self@.lacks_outputs(actor as int));
            return Err(TopologyError::NoOutputs { actor });
        }
        if let Some(actor) = self.first_uneven() {
            assert(self@.uneven(actor as int));
            return Err(TopologyError::UnevenRates { actor });
        }
        if let Some(p) = self.first_orphan() {
            let port = self.ports[p];
            assert(self@.orphan(p as int));
            assert(self@.ports[p as int] == port);
            return Err(TopologyError::OrphanOutput { actor: port.producer, uid: port.uid });
        }
        Ok(())
    }

    fn check_wires(&self) -> (verdict: Result<(), TopologyError>)
        ensures
            match verdict {
                Ok(_) => self@.distinct_inputs() && self@.rates_fit(),
                Err(error) => !(self@.distinct_inputs() && self@.rates_fit()) && (self@.equipped()
                    && self@.consumed() ==> self@.explains(error)),
            },
    {
        proof {
            use_type_invariant(self);
            self.lemma_view();
        }
        if let Some(e) = self.first_duplicate() {
            let wire = self.wires[e];
            assert(self@.wires[e as int] == wire);
            assert(self@.duplicate(e as int));
            return Err(
                TopologyError::DuplicateInput {
                    actor: wire.consumer,
                    uid: self.ports[wire.port].uid,
                },
            );
        }
        if let Some(e) = self.first_mismatch() {
            let wire = self.wires[e];
            let port = self.ports[wire.port];
            assert(self@.wires[e as int] == wire);
            assert(self@.mismatched(e as int));
            return Err(
                TopologyError::RateMismatch {
                    producer: port.producer,
                    consumer: wire.consumer,
                    uid: port.uid,
                },
            );
        }
        Ok(())
    }

    fn check_cycles(&self) -> (verdict: Result<Vec<usize>, TopologyError>)
        ensures
            match verdict {
                Ok(order) => self@.acyclic() && self@.fires_in(order@),
                Err(error) => !self@.acyclic() && (self@.equipped() && self@.consumed()
                    && self@.distinct_inputs() && self@.rates_fit() ==> self@.explains(error)),
            },
    {
        proof {
            use_type_invariant(self);
            self.lemma_view();
        }
        let (order, alive) = self.peel();
        let n = self.actors.len();
        if let Some(v) = first_set(&alive) {
            let cycle = self.find_cycle(&alive, v);
            let ghost c = cycle@.map_values(|e: usize| e as int);
            assert forall|i: int| 0 <= i < cycle.len() implies #[trigger] cycle[i]
                < self@.wires.len() by {
                assert(self@.waits(c[i]));
            }
            let uids = self.uids_along(&cycle);
            assert(c.len() == uids.len());
            assert forall|i: int| 0 <= i < c.len() implies uids[i] == self@.uid(#[trigger] c[i]) by {
                assert(uids[i] == self@.uid(cycle[i] as int));
            }
            return Err(TopologyError::UnbootstrappedCycle { uids });
        }
        proof {
            assert forall|a: usize| a < n implies #[trigger] order@.contains(a) by {
                assert(!alive[a as int]);
            }
            lemma_distinct_bounded(order@, n as nat);
            lemma_covering(order@, n as nat);
            assert(self@.fires_in(order@)) by {
                assert forall|e: int, i: int, j: int|
                    #![trigger self@.waits(e), order@[i], order@[j]]
                    self@.waits(e) && 0 <= i < order.len() && 0 <= j < order.len() && order[i]
                        == self@.consumer(e) && order[j] == self@.producer(e) implies j < i by {
                    let k = choose|k: int| 0 <= k < i && #[trigger] order@[k] == self@.producer(e);
                    assert(order@[k] == order@[j]);
                }
            }
            lemma_order_excludes_cycles(self@, order@);
        }
        Ok(order)
    }

    fn governing(&self, p: usize) -> (rate: Option<usize>)
        ensures
            match rate {
                Some(r) => self@.governs(p as int, r as nat),
                None => forall|e: int|
                    0 <= e < self@.wires.len() ==> (#[trigger] self@.wires[e]).port != p,
            },
    {
        proof {
            use_type_invariant(self);
        }
        let mut rate: Option<usize> = None;
        let mut e: usize = 0;
        while e < self.wires.len()
            invariant
                e <= self.wires.len(),
                self@.closed(),
                match rate {
                    Some(r) => {
                        &&& exists|f: int|
                            0 <= f < e && (#[trigger] self@.wires[f]).port == p
                                && self@.actors[self@.wires[f].consumer as int].ni == r
                        &&& forall|f: int|
                            0 <= f < e && (#[trigger] self@.wires[f]).port == p
                                ==> self@.actors[self@.wires[f].consumer as int].ni <= r
                    },
                    None => forall|f: int| 0 <= f < e ==> (#[trigger] self@.wires[f]).port != p,
                },
            decreases self.wires.len() - e,
        {
            proof {
                self.lemma_view();
            }
            let wire = self.wires[e];
            if wire.port == p {
                let ni = self.actors[wire.consumer].ni;
                let slower = match rate {
                    Some(r) => ni > r,
                    None => true,
                };
                if slower {
                    rate = Some(ni);
                }
                assert(self@.wires[e as int].port == p);
            }
            e += 1;
        }
        rate
    }

    fn run_loops(&self) -> (runs: Vec<RunLoop>)
        requires
            self@.paced(),
        ensures
            self@.starts(runs@.map_values(|r: RunLoop| r@)),
    {
        let mut runs: Vec<RunLoop> = Vec::new();
        let mut a: usize = 0;
        while a < self.actors.len()
            invariant
                a <= self.actors.len(),
                self@.paced(),
                runs.len() == a,
                forall|b: int|
                    0 <= b < a ==> (#[trigger] runs[b])@ == Schedule::start(
                        self@.actors[b].ni as nat,
                        self@.actors[b].no as nat,
                    ),
            decreases self.actors.len() - a,
        {
            proof {
                self.lemma_view();
                assert(!self@.uneven(a as int));
            }
            let node = self.actors[a];
            match RunLoop::new(node.ni, node.no) {
                Some(run) => {
                    runs.push(run);
                },
                None => {
                    assert(false);
                },
            }
            a += 1;
        }
        proof {
            self.lemma_view();
        }
        runs
    }

    fn pacers(&self) -> (pacers: Vec<Pacer>)
        requires
            self@.consumed(),
            self@.rates_fit(),
        ensures
            self@.paces(pacers@.map_values(|p: Pacer| p@)),
    {
        proof {
            use_type_invariant(self);
        }
        let mut pacers: Vec<Pacer> = Vec::new();
        let mut p: usize = 0;
        while p < self.ports.len()
            invariant
                p <= self.ports.len(),
                self@.closed(),
                self@.consumed(),
                self@.rates_fit(),
                pacers.len() == p,
                forall|q: int|
                    0 <= q < p ==> (#[trigger] pacers[q])@.rp
                        == self@.actors[self@.ports[q].producer as int].no && self@.governs(
                        q,
                        pacers[q]@.rc,
                    ) && pacers[q]@.seen == 0,
            decreases self.ports.len() - p,
        {
            proof {
                self.lemma_view();
            }
            let no = self.actors[self.ports[p].producer].no;
            match self.governing(p) {
                Some(rc) => {
                    proof {
                        let e = choose|e: int|
                            0 <= e < self@.wires.len() && (#[trigger] self@.wires[e]).port == p
                                && self@.actors[self@.wires[e].consumer as int].ni == rc;
                        assert(!self@.mismatched(e));
                    }
                    match Pacer::new(no, rc) {
                        Some(pacer) => {
                            pacers.push(pacer);
                        },
                        None => {
                            assert(false);
                        },
                    }
                },
                None => {
                    proof {
                        lemma_fan_out_unknown(self@.wires, p as int);
                        assert(self@.orphan(p as int));
                        assert(false);
                    }
                },
            }
            p += 1;
        }
        proof {
            self.lemma_view();
        }
        pacers
    }

    /// What runs a model that may run: the run loop of each actor, actor by
    /// actor, and the pacer of each output, output by output, all at their
    /// start; or the first fault of a model that may not run.
    pub fn launch(&self) -> (launched: Result<(Vec<RunLoop>, Vec<Pacer>), TopologyError>)
        ensures
            launched is Ok <==> self@.valid(),
            match launched {
                Ok((runs, pacers)) => self@.starts(runs@.map_values(|r: RunLoop| r@))
                    && self@.paces(pacers@.map_values(|p: Pacer| p@)),
                Err(error) => self@.explains(error),
            },
    {
        match self.check() {
            Err(error) => Err(error),
            Ok(_) => {
                let runs = self.run_loops();
                let pacers = self.pacers();
                Ok((runs, pacers))
            },
        }
    }

    /// Checks the model. A model that may run comes with the order in which its
    /// actors can take their first turn; one that may not, with its first fault.
    pub fn check(&self) -> (verdict: Result<Vec<usize>, TopologyError>)
        ensures
            self@.closed(),
            self@.within_width(),
            verdict is Ok <==> self@.valid(),
            match verdict {
                Ok(order) => self@.fires_in(order@),
                Err(error) => self@.explains(error),
            },
    {
        proof {
            use_type_invariant(self);
            self.lemma_view();
            assert forall|p: int| 0 <= p < self@.ports.len() implies fan_out(self@.wires, p) <= (
            #[trigger] self@.ports[p]).width by {
                assert(self.taken[p] == fan_out(self.wires@, p));
            }
        }
        if let Err(error) = self.check_ports() {
            return Err(error);
        }
        if let Err(error) = self.check_wires() {
            return Err(error);
        }
        self.check_cycles()
    }
}

/// No wire leaves an output that none of them names.
proof fn lemma_fan_out_unknown(wires: Seq<Wire>, port: int)
    requires
        forall|e: int| 0 <= e < wires.len() ==> (#[trigger] wires[e]).port != port,
    ensures
        fan_out(wires, port) == 0,
    decreases wires.len(),
{
    if wires.len() > 0 {
        lemma_fan_out_unknown(wires.drop_last(), port);
    }
}

/// The least index at which `flags` is set.
fn first_set(flags: &Vec<bool>) -> (found: Option<usize>)
    ensures
        match found {
            Some(v) => v < flags.len() && flags[v as int],
            None => forall|u: int| 0 <= u < flags.len() ==> !flags[u],
        },
{
    let mut v: usize = 0;
    while v < flags.len()
        invariant
            v <= flags.len(),
            forall|u: int| 0 <= u < v ==> !flags[u],
        decreases flags.len() - v,
    {
        if flags[v] {
            return Some(v);
        }
        v += 1;
    }
    None
}

/// Along a cycle the turn of each actor would come after that of the actor
/// from which the first wire leaves.
proof fn lemma_chain(g: Graph, order: Seq<usize>, c: Seq<int>, i: int)
    requires
        g.closed(),
        g.fires_in(order),
        g.is_cycle(c),
        0 <= i < c.len(),
    ensures
        exists|a: int, b: int|
            0 <= a < b < order.len() && #[trigger] order[a] == g.producer(c[0]) && #[trigger] order[b]
                == g.consumer(c[i]),
    decreases i,
{
    let e = c[i];
    assert(g.waits(e));
    let q = g.consumer(e) as usize;
    let p = g.producer(e) as usize;
    assert(g.wires[e].port < g.ports.len());
    assert(g.ports[g.wires[e].port as int].producer < g.actors.len());
    assert(order.contains(q));
    assert(order.contains(p));
    let b = choose|b: int| 0 <= b < order.len() && order[b] == q;
    let a = choose|a: int| 0 <= a < order.len() && order[a] == p;
    assert(g.waits(e) && order[b] == g.consumer(e) && order[a] == g.producer(e));
    assert(a < b);
    if i > 0 {
        lemma_chain(g, order, c, i - 1);
        let (a0, b0) = choose|a0: int, b0: int|
            0 <= a0 < b0 < order.len() && #[trigger] order[a0] == g.producer(c[0])
                && #[trigger] order[b0] == g.consumer(c[i - 1]);
        assert(g.consumer(c[i - 1]) == g.producer(c[i - 1 + 1]));
        assert(order[b0] == order[a]);
        assert(order[a0] == g.producer(c[0]) && order[b] == g.consumer(c[i]));
    }
}

/// A model whose actors can take turns in some order has no cycle without a
/// bootstrapped wire.
pub proof fn lemma_order_excludes_cycles(g: Graph, order: Seq<usize>)
    requires
        g.closed(),
        g.fires_in(order),
    ensures
        g.acyclic(),
{
    assert forall|c: Seq<int>| !g.is_cycle(c) by {
        if g.is_cycle(c) {
            lemma_chain(g, order, c, c.len() - 1);
            let (a, b) = choose|a: int, b: int|
                0 <= a < b < order.len() && #[trigger] order[a] == g.producer(c[0])
                    && #[trigger] order[b] == g.consumer(c[c.len() - 1]);
            assert(order[a] == order[b]);
        }
    }
}

/// A model with a cycle of which no wire is bootstrapped may not run: the check
/// refuses it.
pub proof fn lemma_cycle_is_refused(g: Graph, c: Seq<int>)
    requires
        g.is_cycle(c),
    ensures
        !g.valid(),
{
}

/// A sequence without repetition whose entries are all under `n` has at most
/// `n` entries.
proof fn lemma_distinct_bounded(s: Seq<usize>, n: nat)
    requires
        s.no_duplicates(),
        forall|i: int| 0 <= i < s.len() ==> #[trigger] s[i] < n,
    ensures
        s.len() <= n,
    decreases n,
{
    if n == 0 {
        if s.len() > 0 {
            assert(s[0] < n);
        }
    } else {
        let top = (n - 1) as usize;
        if s.contains(top) {
            let k = choose|k: int| 0 <= k < s.len() && s[k] == top;
            let rest = s.remove(k);
            assert forall|i: int| 0 <= i < rest.len() implies #[trigger] rest[i] < n - 1 by {
                if i < k {
                    assert(rest[i] == s[i]);
                } else {
                    assert(rest[i] == s[i + 1]);
                }
            }
            assert(rest.no_duplicates()) by {
                assert forall|i: int, j: int|
                    0 <= i < rest.len() && 0 <= j < rest.len() && i != j implies rest[i]
                    != rest[j] by {
                    let a = if i < k { i } else { i + 1 };
                    let b = if j < k { j } else { j + 1 };
                    assert(rest[i] == s[a] && rest[j] == s[b]);
                }
            }
            lemma_distinct_bounded(rest, (n - 1) as nat);
        } else {
            assert forall|i: int| 0 <= i < s.len() implies #[trigger] s[i] < n - 1 by {
                assert(s.contains(s[i]));
            }
            lemma_distinct_bounded(s, (n - 1) as nat);
        }
    }
}

/// A sequence in which every number under `n` occurs has at least `n` entries.
proof fn lemma_covering(s: Seq<usize>, n: nat)
    requires
        n <= usize::MAX,
        forall|a: usize| a < n ==> #[trigger] s.contains(a),
    ensures
        s.len() >= n,
    decreases n,
{
    if n > 0 {
        let top = (n - 1) as usize;
        assert(s.contains(top));
        let k = choose|k: int| 0 <= k < s.len() && s[k] == top;
        let rest = s.remove(k);
        assert forall|a: usize| a < n - 1 implies #[trigger] rest.contains(a) by {
            assert(s.contains(a));
            let i = choose|i: int| 0 <= i < s.len() && s[i] == a;
            if i < k {
                assert(rest[i] == a);
            } else {
                assert(i > k);
                assert(rest[i - 1] == s[i]);
            }
        }
        lemma_covering(rest, (n - 1) as nat);
    }
}

} // verus!
