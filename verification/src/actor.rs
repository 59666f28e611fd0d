//! The client surface of an actor and the schedule of its run loop.
//!
//! An actor repeats three stages: it collects one sample on every input and
//! hands them to its client, it lets the client update, and it asks the client
//! for a sample on every output and sends it. With different input and output
//! rates not every stage is due on every tick. [`RunLoop`] decides which stage
//! comes next and when the loop ends; the one who runs the loop performs the
//! stage and reports how it went.
use crate::rate::{agree, read_period, reads_on, write_period, writes_on};
use vstd::arithmetic::div_mod::{
    lemma_fundamental_div_mod, lemma_fundamental_div_mod_converse, lemma_mod_twice,
};
use vstd::prelude::*;

verus! {

/// State update of a client, invoked once per tick between reading the inputs
/// and writing the outputs. The default does nothing.
pub trait Update {
    fn update(&mut self) {
    }
}

/// The stages of one tick, in the order in which they come.
#[derive(Debug, Clone, Copy, PartialEq, Eq, Structural)]
pub enum Stage {
    /// One sample is taken from every input and read by the client.
    Read,
    /// The client updates its state.
    Update,
    /// One sample goes out on every output.
    Write,
}

/// Why a run loop ended in error.
#[derive(Debug, Clone, Copy, PartialEq, Eq, Structural)]
pub enum Failure {
    /// A consumer went away while the actor was sending to it.
    ChannelClosed,
    /// The client reported an error, which the runtime does not interpret.
    Client,
}

/// What the one who runs the loop does next.
#[derive(Debug, Clone, Copy, PartialEq, Eq)]
pub enum Action {
    /// Await one sample on every input and hand each to the client.
    Collect,
    /// Let the client update its state.
    Update,
    /// Ask the client for a sample on every output and send it to every
    /// consumer; an output for which the client has nothing is closed.
    Produce,
    /// Send once more, on every output, the sample that went out last.
    Hold,
    /// Close every output and end the loop with this result.
    Finish(Result<(), Failure>),
}

/// How the last action went.
#[derive(Debug, Clone, Copy, PartialEq, Eq, Structural)]
pub enum Event {
    /// The loop starts, or the last action was carried out.
    Ready,
    /// An input found its channel closed.
    InputClosed,
    /// The client had nothing left for any output.
    Exhausted,
    /// A consumer of an output is gone.
    OutputClosed,
    /// The client failed.
    ClientFailed,
}

/// How the send of one output went.
#[derive(Debug, Clone, Copy, PartialEq, Eq, Structural)]
pub enum Sent {
    /// Every consumer took the sample.
    Delivered,
    /// The client had no sample for the output, which is closed for good.
    Exhausted,
    /// A consumer of the output is gone.
    Closed,
}

/// The event that follows a collect: all the inputs handed over a sample, or
/// one of them found its channel closed.
pub open spec fn after_collect(received: Seq<bool>) -> Event {
    if forall|i: int| 0 <= i < received.len() ==> received[i] {
        Event::Ready
    } else {
        Event::InputClosed
    }
}

/// The event that follows the sends of a produce or a hold. A consumer that is
/// gone counts first. Else the actor goes on as long as one output delivered,
/// and its client is exhausted once no output is left open.
pub open spec fn after_send(sent: Seq<Sent>) -> Event {
    if exists|i: int| 0 <= i < sent.len() && sent[i] == Sent::Closed {
        Event::OutputClosed
    } else if exists|i: int| 0 <= i < sent.len() && sent[i] == Sent::Delivered {
        Event::Ready
    } else {
        Event::Exhausted
    }
}

/// The event to report after a collect, given for each input whether it
/// handed over a sample.
pub fn collected(received: &Vec<bool>) -> (event: Event)
    ensures
        event == after_collect(received@),
{
    let mut i: usize = 0;
    while i < received.len()
        invariant
            i <= received.len(),
            forall|j: int| 0 <= j < i ==> received[j],
        decreases received.len() - i,
    {
        if !received[i] {
            return Event::InputClosed;
        }
        i += 1;
    }
    Event::Ready
}

/// The event to report after a produce or a hold, given how the send of each
/// output went, and for each output whether it stays open: an output stays
/// open when it delivered.
pub fn distributed(sent: &Vec<Sent>) -> (outcome: (Event, Vec<bool>))
    ensures
        outcome.0 == after_send(sent@),
        outcome.1.len() == sent.len(),
        forall|i: int|
            0 <= i < sent.len() ==> #[trigger] outcome.1[i] == (sent[i] == Sent::Delivered),
{
    let mut open: Vec<bool> = Vec::new();
    let mut closed = false;
    let mut delivered = false;
    let mut i: usize = 0;
    while i < sent.len()
        invariant
            i <= sent.len(),
            open.len() == i,
            forall|j: int| 0 <= j < i ==> open[j] == (sent[j] == Sent::Delivered),
            closed == exists|j: int| 0 <= j < i && sent[j] == Sent::Closed,
            delivered == exists|j: int| 0 <= j < i && sent[j] == Sent::Delivered,
        decreases sent.len() - i,
    {
        match sent[i] {
            Sent::Delivered => {
                delivered = true;
                open.push(true);
            },
            Sent::Exhausted => {
                open.push(false);
            },
            Sent::Closed => {
                closed = true;
                open.push(false);
            },
        }
        i += 1;
    }
    let event = if closed {
        Event::OutputClosed
    } else if delivered {
        Event::Ready
    } else {
        Event::Exhausted
    };
    (event, open)
}

/// The stage `stage` is due on local tick `t` of an actor with rates `ni` and
/// `no`: it reads and writes as the rate law says, and it updates whenever it
/// has read, or on every tick if it has no inputs.
pub open spec fn due(ni: nat, no: nat, t: nat, stage: Stage) -> bool {
    match stage {
        Stage::Read => reads_on(ni, no, t),
        Stage::Update => ni == 0 || reads_on(ni, no, t),
        Stage::Write => writes_on(ni, no, t),
    }
}

/// The action that carries out a stage on tick `t`: a write sends a fresh
/// sample when the client has updated on that tick and else holds the last one.
pub open spec fn action_of(ni: nat, no: nat, t: nat, stage: Stage) -> Action {
    match stage {
        Stage::Read => Action::Collect,
        Stage::Update => Action::Update,
        Stage::Write => if due(ni, no, t, Stage::Update) {
            Action::Produce
        } else {
            Action::Hold
        },
    }
}

/// The first stage that is due on tick `t`.
pub open spec fn first_due(ni: nat, no: nat, t: nat) -> Stage {
    if due(ni, no, t, Stage::Read) {
        Stage::Read
    } else if due(ni, no, t, Stage::Update) {
        Stage::Update
    } else {
        Stage::Write
    }
}

/// The length of the cycle after which the schedule repeats, in local ticks.
pub open spec fn cycle(ni: nat, no: nat) -> nat {
    read_period(ni, no) * write_period(ni, no)
}

/// The state of a run loop, for contracts.
pub ghost struct Schedule {
    /// The input rate of the actor; 0 for an actor without inputs.
    pub ni: nat,
    /// The output rate of the actor; 0 for an actor without outputs.
    pub no: nat,
    /// The local tick, counted within the cycle.
    pub tick: nat,
    /// The stage to carry out next.
    pub stage: Stage,
    /// How the loop ended, once it has.
    pub ended: Option<Result<(), Failure>>,
}

impl Schedule {
    /// The tick that follows the current one.
    pub open spec fn next_tick(self) -> nat {
        if self.tick + 1 >= cycle(self.ni, self.no) {
            0
        } else {
            self.tick + 1
        }
    }

    /// The tick and the stage that come after the current stage: the next stage
    /// due on this tick, or else the first one due on the next tick.
    pub open spec fn following(self) -> (nat, Stage) {
        let later = (self.next_tick(), first_due(self.ni, self.no, self.next_tick()));
        match self.stage {
            Stage::Read => if due(self.ni, self.no, self.tick, Stage::Update) {
                (self.tick, Stage::Update)
            } else if due(self.ni, self.no, self.tick, Stage::Write) {
                (self.tick, Stage::Write)
            } else {
                later
            },
            Stage::Update => if due(self.ni, self.no, self.tick, Stage::Write) {
                (self.tick, Stage::Write)
            } else {
                later
            },
            Stage::Write => later,
        }
    }

    /// The action that answers `event`. A loop that has ended stays ended. A
    /// closed input and an exhausted client end it in good order, a consumer
    /// that is gone and a client that failed end it with an error, and
    /// otherwise the stage that is due is carried out.
    pub open spec fn answer(self, event: Event) -> Action {
        match self.ended {
            Some(result) => Action::Finish(result),
            None => match event {
                Event::Ready => action_of(self.ni, self.no, self.tick, self.stage),
                Event::InputClosed => Action::Finish(Ok(())),
                Event::Exhausted => Action::Finish(Ok(())),
                Event::OutputClosed => Action::Finish(Err(Failure::ChannelClosed)),
                Event::ClientFailed => Action::Finish(Err(Failure::Client)),
            },
        }
    }

    /// The state after `event` was answered.
    pub open spec fn after(self, event: Event) -> Schedule {
        match self.ended {
            Some(_) => self,
            None => match event {
                Event::Ready => Schedule {
                    tick: self.following().0,
                    stage: self.following().1,
                    ..self
                },
                Event::InputClosed => Schedule { ended: Some(Ok(())), ..self },
                Event::Exhausted => Schedule { ended: Some(Ok(())), ..self },
                Event::OutputClosed => Schedule { ended: Some(Err(Failure::ChannelClosed)), ..self },
                Event::ClientFailed => Schedule { ended: Some(Err(Failure::Client)), ..self },
            },
        }
    }

    /// The state in which the loop of an actor with rates `ni` and `no` starts.
    /// An actor without inputs and without outputs has nothing to do.
    pub open spec fn start(ni: nat, no: nat) -> Schedule {
        Schedule {
            ni,
            no,
            tick: 0,
            stage: first_due(ni, no, 0),
            ended: if ni == 0 && no == 0 {
                Some(Ok(()))
            } else {
                None
            },
        }
    }
}

/// The schedule goes on: after every stage that is due on a tick of the cycle
/// another stage is due, on a tick of the cycle. An actor whose rates fit
/// together never runs out of work by itself.
pub proof fn lemma_schedule_goes_on(s: Schedule)
    requires
        schedulable(s.ni, s.no),
        s.ni > 0 || s.no > 0,
        s.tick < cycle(s.ni, s.no),
    ensures
        s.following().0 < cycle(s.ni, s.no),
        due(s.ni, s.no, s.following().0, s.following().1),
{
    lemma_one_side_every_tick(s.ni, s.no);
    let next = s.next_tick();
    lemma_fundamental_div_mod_converse(next as int, 1, next as int, 0);
    assert(cycle(s.ni, s.no) >= 1) by (nonlinear_arith)
        requires
            read_period(s.ni, s.no) >= 1,
            write_period(s.ni, s.no) >= 1,
            cycle(s.ni, s.no) == read_period(s.ni, s.no) * write_period(s.ni, s.no),
    ;
}

/// The schedule repeats: what is due on a tick is due one cycle later, so the
/// ticks of the rate law can be counted within the cycle.
pub proof fn lemma_schedule_repeats(ni: nat, no: nat, t: nat, stage: Stage)
    requires
        schedulable(ni, no),
    ensures
        due(ni, no, t, stage) == due(ni, no, t % cycle(ni, no), stage),
{
    lemma_one_side_every_tick(ni, no);
    let r = read_period(ni, no);
    let w = write_period(ni, no);
    assert(cycle(ni, no) == if r == 1 { w } else { r }) by (nonlinear_arith)
        requires
            cycle(ni, no) == r * w,
            r == 1 || w == 1,
    ;
    let c = cycle(ni, no);
    lemma_fundamental_div_mod_converse(t as int, 1, t as int, 0);
    lemma_fundamental_div_mod_converse((t % c) as int, 1, (t % c) as int, 0);
    lemma_mod_twice(t as int, c as int);
}

proof fn lemma_one_side_every_tick(ni: nat, no: nat)
    requires
        schedulable(ni, no),
    ensures
        read_period(ni, no) >= 1,
        write_period(ni, no) >= 1,
        read_period(ni, no) == 1 || write_period(ni, no) == 1,
{
    if no > 0 && ni > no {
        lemma_fundamental_div_mod(ni as int, no as int);
        assert(ni as int / no as int >= 1) by (nonlinear_arith)
            requires
                ni == no * (ni as int / no as int) + (ni as int % no as int),
                0 <= (ni as int % no as int) < no,
                ni > no,
                no > 0,
        ;
    }
    if ni > 0 && no > ni {
        lemma_fundamental_div_mod(no as int, ni as int);
        assert(no as int / ni as int >= 1) by (nonlinear_arith)
            requires
                no == ni * (no as int / ni as int) + (no as int % ni as int),
                0 <= (no as int % ni as int) < ni,
                no > ni,
                ni > 0,
        ;
    }
}

/// The rates of one actor can be scheduled: it lacks inputs or outputs, or its
/// two rates fit together.
pub open spec fn schedulable(ni: nat, no: nat) -> bool {
    ni == 0 || no == 0 || agree(ni, no)
}

/// The run loop of one actor.
pub struct RunLoop {
    ni: usize,
    no: usize,
    read_every: usize,
    write_every: usize,
    tick: usize,
    stage: Stage,
    ended: Option<Result<(), Failure>>,
}

impl View for RunLoop {
    type V = Schedule;

    closed spec fn view(&self) -> Schedule {
        Schedule {
            ni: self.ni as nat,
            no: self.no as nat,
            tick: self.tick as nat,
            stage: self.stage,
            ended: self.ended,
        }
    }
}

impl RunLoop {
    #[verifier::type_invariant]
    spec fn well_formed(self) -> bool {
        &&& schedulable(self.ni as nat, self.no as nat)
        &&& self.read_every == read_period(self.ni as nat, self.no as nat)
        &&& self.write_every == write_period(self.ni as nat, self.no as nat)
        &&& self.read_every >= 1
        &&& self.write_every >= 1
        &&& self.read_every == 1 || self.write_every == 1
        &&& self.tick < cycle(self.ni as nat, self.no as nat)
        &&& self.ended is None ==> due(
            self.ni as nat,
            self.no as nat,
            self.tick as nat,
            self.stage,
        )
    }

    /// The run loop of an actor with input rate `ni` and output rate `no`, at
    /// its start; none for two rates that do not fit together.
    pub fn new(ni: usize, no: usize) -> (run: Option<Self>)
        ensures
            run is Some <==> schedulable(ni as nat, no as nat),
            run matches Some(r) ==> r@ == Schedule::start(ni as nat, no as nat),
    {
        if ni > 0 && no > 0 && ni % no != 0 && no % ni != 0 {
            return None;
        }
        let read_every: usize = if no > 0 && ni > no {
            ni / no
        } else {
            1
        };
        let write_every: usize = if ni > 0 && no > ni {
            no / ni
        } else {
            1
        };
        proof {
            lemma_one_side_every_tick(ni as nat, no as nat);
            assert(0int % (read_every as int) == 0) by {
                lemma_fundamental_div_mod_converse(0, read_every as int, 0, 0);
            }
            assert(0int % (write_every as int) == 0) by {
                lemma_fundamental_div_mod_converse(0, write_every as int, 0, 0);
            }
            assert(read_every * write_every >= 1) by (nonlinear_arith)
                requires
                    read_every >= 1,
                    write_every >= 1,
            ;
        }
        let stage = if ni > 0 {
            Stage::Read
        } else if no > 0 {
            Stage::Update
        } else {
            Stage::Update
        };
        let ended = if ni == 0 && no == 0 {
            Some(Ok(()))
        } else {
            None
        };
        Some(RunLoop { ni, no, read_every, write_every, tick: 0, stage, ended })
    }

    fn is_due(&self, tick: usize, stage: Stage) -> (yes: bool)
        ensures
            yes == due(self.ni as nat, self.no as nat, tick as nat, stage),
    {
        proof {
            use_type_invariant(self);
        }
        match stage {
            Stage::Read => self.ni > 0 && tick % self.read_every == 0,
            Stage::Update => self.ni == 0 || tick % self.read_every == 0,
            Stage::Write => self.no > 0 && tick % self.write_every == 0,
        }
    }

    /// Answers `event` with the action to carry out next, and moves on.
    pub fn step(&mut self, event: Event) -> (action: Action)
        ensures
            action == old(self)@.answer(event),
            final(self)@ == old(self)@.after(event),
    {
        proof {
            use_type_invariant(&*self);
        }
        if let Some(result) = self.ended {
            return Action::Finish(result);
        }
        match event {
            Event::InputClosed | Event::Exhausted => {
                self.ended = Some(Ok(()));
                Action::Finish(Ok(()))
            },
            Event::OutputClosed => {
                self.ended = Some(Err(Failure::ChannelClosed));
                Action::Finish(Err(Failure::ChannelClosed))
            },
            Event::ClientFailed => {
                self.ended = Some(Err(Failure::Client));
                Action::Finish(Err(Failure::Client))
            },
            Event::Ready => {
                let tick = self.tick;
                let action = match self.stage {
                    Stage::Read => Action::Collect,
                    Stage::Update => Action::Update,
                    Stage::Write => if self.is_due(tick, Stage::Update) {
                        Action::Produce
                    } else {
                        Action::Hold
                    },
                };
                let same_tick = match self.stage {
                    Stage::Read => if self.is_due(tick, Stage::Update) {
                        Some(Stage::Update)
                    } else if self.is_due(tick, Stage::Write) {
                        Some(Stage::Write)
                    } else {
                        None
                    },
                    Stage::Update => if self.is_due(tick, Stage::Write) {
                        Some(Stage::Write)
                    } else {
                        None
                    },
                    Stage::Write => None,
                };
                let (next, stage) = match same_tick {
                    Some(stage) => (tick, stage),
                    None => {
                        let period = if self.read_every == 1 {
                            self.write_every
                        } else {
                            self.read_every
                        };
                        assert(period == cycle(self.ni as nat, self.no as nat)) by (nonlinear_arith)
                            requires
                                self.read_every == read_period(self.ni as nat, self.no as nat),
                                self.write_every == write_period(self.ni as nat, self.no as nat),
                                self.read_every == 1 || self.write_every == 1,
                                period == if self.read_every == 1 {
                                    self.write_every
                                } else {
                                    self.read_every
                                },
                        ;
                        let next: usize = if tick + 1 >= period {
                            0
                        } else {
                            tick + 1
                        };
                        let stage = if self.is_due(next, Stage::Read) {
                            Stage::Read
                        } else if self.is_due(next, Stage::Update) {
                            Stage::Update
                        } else {
                            Stage::Write
                        };
                        proof {
                            lemma_fundamental_div_mod_converse(next as int, 1, next as int, 0);
                        }
                        (next, stage)
                    },
                };
                *self = RunLoop {
                    ni: self.ni,
                    no: self.no,
                    read_every: self.read_every,
                    write_every: self.write_every,
                    tick: next,
                    stage,
                    ended: None,
                };
                action
            },
        }
    }

    /// Whether the loop has ended.
    pub fn is_over(&self) -> (over: bool)
        ensures
            over == self@.ended is Some,
    {
        self.ended.is_some()
    }
}

} // verus!
