use dos_actors::actor::{Action, Event, Failure};
use dos_actors::model::{
    first_failure, used_up, Completion, Edge, Model, Node, OutputBuilder, TopologyError,
    WiringError,
};

fn node(ni: usize, no: usize) -> Node {
    Node { ni, no }
}

/// Builds an output of `producer` for the signal `uid` and wires it to each of
/// `consumers`.
fn wire(model: &mut Model, producer: usize, uid: u64, consumers: &[usize]) {
    let builder = model.add_output(producer).multiplex(consumers.len());
    let port = model.build(builder, uid).unwrap();
    for consumer in consumers {
        model.into_input(port, *consumer, uid).unwrap();
    }
}

fn bootstrap(model: &mut Model, producer: usize, uid: u64, consumers: &[usize]) {
    let builder = model.add_output(producer).multiplex(consumers.len()).bootstrap();
    let port = model.build(builder, uid).unwrap();
    for consumer in consumers {
        model.into_input(port, *consumer, uid).unwrap();
    }
}

fn before(order: &[usize], a: usize, b: usize) -> bool {
    let position = |x: usize| order.iter().position(|y| *y == x).unwrap();
    position(a) < position(b)
}

#[test]
fn builder_starts_with_one_bounded_channel() {
    let model = Model::new(vec![node(0, 1)]);
    assert_eq!(
        model.add_output(0),
        OutputBuilder { producer: 0, width: 1, bootstrap: false, unbounded: false }
    );
}

#[test]
fn builder_choices_chain() {
    let model = Model::new(vec![node(0, 1), node(0, 1), node(0, 1)]);
    assert_eq!(
        model.add_output(2).bootstrap().multiplex(3).unbounded(),
        OutputBuilder { producer: 2, width: 3, bootstrap: true, unbounded: true }
    );
    assert_eq!(
        model.add_output(1).unbounded(),
        OutputBuilder { producer: 1, width: 1, bootstrap: false, unbounded: true }
    );
    assert_eq!(
        model.add_output(1).multiplex(2).multiplex(5),
        OutputBuilder { producer: 1, width: 5, bootstrap: false, unbounded: false }
    );
}

#[test]
fn build_numbers_the_outputs() {
    let mut model = Model::new(vec![node(0, 1), node(1, 0)]);
    assert_eq!(model.build(model.add_output(0), 11), Ok(0));
    assert_eq!(model.build(model.add_output(0), 12), Ok(1));
    assert_eq!(model.build(model.add_output(1), 13), Ok(2));
}

#[test]
fn build_refuses_an_unknown_producer() {
    let mut model = Model::new(vec![node(0, 1), node(1, 0)]);
    assert_eq!(model.build(model.add_output(2), 11), Err(WiringError::Unknown));
    assert_eq!(model.build(model.add_output(0), 11), Ok(0));
}

#[test]
fn wiring_refuses_unknown_ends() {
    let mut model = Model::new(vec![node(0, 1), node(1, 0)]);
    let port = model.build(model.add_output(0), 11).unwrap();
    assert_eq!(model.into_input(port + 1, 1, 11), Err(WiringError::Unknown));
    assert_eq!(model.into_input(port, 2, 11), Err(WiringError::Unknown));
    assert_eq!(model.into_input(port, 1, 11), Ok(()));
}

#[test]
fn wiring_refuses_another_signal() {
    let mut model = Model::new(vec![node(0, 1), node(1, 0)]);
    let port = model.build(model.add_output(0), 11).unwrap();
    assert_eq!(model.into_input(port, 1, 12), Err(WiringError::UidMismatch));
    assert!(model.flowchart().is_empty());
    assert_eq!(model.into_input(port, 1, 11), Ok(()));
}

#[test]
fn a_channel_is_wired_once() {
    let mut model = Model::new(vec![node(0, 1), node(1, 0), node(1, 0)]);
    let port = model.build(model.add_output(0), 11).unwrap();
    assert_eq!(model.into_input(port, 1, 11), Ok(()));
    assert_eq!(model.into_input(port, 2, 11), Err(WiringError::Consumed));
    assert_eq!(model.flowchart().len(), 1);
}

#[test]
fn multiplex_bounds_the_consumers() {
    let mut model = Model::new(vec![node(0, 1), node(1, 0), node(1, 0), node(1, 0)]);
    let port = model.build(model.add_output(0).multiplex(2), 11).unwrap();
    assert_eq!(model.into_input(port, 1, 11), Ok(()));
    assert_eq!(model.into_input(port, 2, 11), Ok(()));
    assert_eq!(model.into_input(port, 3, 11), Err(WiringError::MultiplexExceeded));
    assert_eq!(model.flowchart().len(), 2);
}

#[test]
fn one_consumer_too_many_is_named_by_the_width() {
    assert_eq!(used_up(0), WiringError::Consumed);
    assert_eq!(used_up(1), WiringError::Consumed);
    assert_eq!(used_up(2), WiringError::MultiplexExceeded);
    assert_eq!(used_up(7), WiringError::MultiplexExceeded);
}

#[test]
fn an_output_without_channels_takes_no_consumer() {
    let mut model = Model::new(vec![node(0, 1), node(1, 0)]);
    let port = model.build(model.add_output(0).multiplex(0), 11).unwrap();
    assert_eq!(model.into_input(port, 1, 11), Err(WiringError::Consumed));
}

#[test]
fn flowchart_lists_the_edges() {
    let mut model = Model::new(vec![node(0, 2), node(2, 4), node(4, 0)]);
    wire(&mut model, 0, 11, &[1]);
    let builder = model.add_output(1).unbounded().bootstrap();
    let port = model.build(builder, 12).unwrap();
    model.into_input(port, 2, 12).unwrap();
    assert_eq!(
        model.flowchart(),
        vec![
            Edge {
                producer: 0,
                consumer: 1,
                uid_hash: 11,
                rate: 2,
                bootstrapped: false,
                unbounded: false
            },
            Edge {
                producer: 1,
                consumer: 2,
                uid_hash: 12,
                rate: 4,
                bootstrapped: true,
                unbounded: true
            },
        ]
    );
}

#[test]
fn an_empty_model_may_run() {
    let model = Model::new(vec![]);
    assert_eq!(model.check(), Ok(vec![]));
    let (loops, pacers) = model.launch().unwrap();
    assert!(loops.is_empty());
    assert!(pacers.is_empty());
}

#[test]
fn a_chain_fires_from_source_to_sink() {
    let mut model = Model::new(vec![node(1, 0), node(1, 1), node(0, 1)]);
    wire(&mut model, 2, 11, &[1]);
    wire(&mut model, 1, 12, &[0]);
    assert_eq!(model.check(), Ok(vec![2, 1, 0]));
}

#[test]
fn an_order_lists_every_actor_after_its_producers() {
    let mut model = Model::new(vec![
        node(1, 0),
        node(1, 1),
        node(0, 1),
        node(1, 1),
        node(0, 1),
        node(1, 0),
    ]);
    wire(&mut model, 2, 1, &[1, 3]);
    wire(&mut model, 4, 2, &[3]);
    wire(&mut model, 1, 3, &[0]);
    wire(&mut model, 3, 4, &[0, 5]);
    let order = model.check().unwrap();
    let mut sorted = order.clone();
    sorted.sort();
    assert_eq!(sorted, vec![0, 1, 2, 3, 4, 5]);
    assert!(before(&order, 2, 1));
    assert!(before(&order, 2, 3));
    assert!(before(&order, 4, 3));
    assert!(before(&order, 1, 0));
    assert!(before(&order, 3, 0));
    assert!(before(&order, 3, 5));
}

#[test]
fn an_actor_that_reads_needs_an_input() {
    let mut model = Model::new(vec![node(0, 1), node(1, 0), node(1, 0)]);
    wire(&mut model, 0, 11, &[1]);
    assert_eq!(model.check(), Err(TopologyError::NoInputs { actor: 2 }));
}

#[test]
fn the_first_actor_without_input_is_named() {
    let model = Model::new(vec![node(0, 1), node(1, 0), node(1, 0)]);
    assert_eq!(model.check(), Err(TopologyError::NoInputs { actor: 1 }));
}

#[test]
fn an_actor_that_writes_needs_an_output() {
    let mut model = Model::new(vec![node(0, 1), node(1, 1), node(0, 1)]);
    wire(&mut model, 0, 11, &[1]);
    assert_eq!(model.check(), Err(TopologyError::NoOutputs { actor: 1 }));
}

#[test]
fn the_rates_of_an_actor_must_fit() {
    let mut model = Model::new(vec![node(0, 2), node(2, 3), node(3, 0)]);
    wire(&mut model, 0, 11, &[1]);
    wire(&mut model, 1, 12, &[2]);
    assert_eq!(model.check(), Err(TopologyError::UnevenRates { actor: 1 }));
}

#[test]
fn an_output_needs_a_consumer() {
    let mut model = Model::new(vec![node(0, 1), node(1, 0)]);
    wire(&mut model, 0, 11, &[1]);
    model.build(model.add_output(0), 12).unwrap();
    assert_eq!(model.check(), Err(TopologyError::OrphanOutput { actor: 0, uid: 12 }));
}

#[test]
fn a_multiplexed_output_may_leave_channels_unused() {
    let mut model = Model::new(vec![node(0, 1), node(1, 0)]);
    let port = model.build(model.add_output(0).multiplex(3), 11).unwrap();
    model.into_input(port, 1, 11).unwrap();
    assert_eq!(model.check(), Ok(vec![0, 1]));
}

#[test]
fn a_signal_reaches_an_actor_once() {
    let mut model = Model::new(vec![node(0, 1), node(0, 1), node(1, 0)]);
    wire(&mut model, 0, 11, &[2]);
    wire(&mut model, 1, 11, &[2]);
    assert_eq!(model.check(), Err(TopologyError::DuplicateInput { actor: 2, uid: 11 }));
}

#[test]
fn one_signal_may_reach_two_actors() {
    let mut model = Model::new(vec![node(0, 1), node(0, 1), node(1, 0), node(1, 0)]);
    wire(&mut model, 0, 11, &[2]);
    wire(&mut model, 1, 11, &[3]);
    assert!(model.check().is_ok());
}

#[test]
fn the_rates_on_a_wire_must_fit() {
    let mut model = Model::new(vec![node(0, 2), node(3, 0)]);
    wire(&mut model, 0, 11, &[1]);
    assert_eq!(
        model.check(),
        Err(TopologyError::RateMismatch { producer: 0, consumer: 1, uid: 11 })
    );
}

#[test]
fn a_wire_may_join_a_rate_and_its_multiple() {
    let mut model = Model::new(vec![node(0, 1), node(10, 0), node(0, 10), node(1, 0)]);
    wire(&mut model, 0, 11, &[1]);
    wire(&mut model, 2, 12, &[3]);
    assert!(model.check().is_ok());
}

#[test]
fn a_wire_into_an_initiator_does_not_fit() {
    let mut model = Model::new(vec![node(0, 1), node(0, 1), node(1, 0)]);
    wire(&mut model, 0, 11, &[1, 2]);
    wire(&mut model, 1, 12, &[2]);
    assert_eq!(
        model.check(),
        Err(TopologyError::RateMismatch { producer: 0, consumer: 1, uid: 11 })
    );
}

#[test]
fn faults_come_in_the_order_of_the_checks() {
    // a duplicate, a mismatch and a cycle at once
    let mut model = Model::new(vec![node(0, 2), node(2, 2), node(2, 2), node(3, 0)]);
    wire(&mut model, 0, 1, &[1]);
    wire(&mut model, 1, 2, &[2]);
    wire(&mut model, 2, 3, &[1, 3]);
    wire(&mut model, 1, 3, &[3]);
    assert_eq!(model.check(), Err(TopologyError::DuplicateInput { actor: 3, uid: 3 }));
    // without the duplicate the mismatch comes first
    let mut model = Model::new(vec![node(0, 2), node(2, 2), node(2, 2), node(3, 0)]);
    wire(&mut model, 0, 1, &[1]);
    wire(&mut model, 1, 2, &[2]);
    wire(&mut model, 2, 3, &[1, 3]);
    assert_eq!(
        model.check(),
        Err(TopologyError::RateMismatch { producer: 2, consumer: 3, uid: 3 })
    );
    // and without the mismatch the cycle is left
    let mut model = Model::new(vec![node(0, 2), node(2, 2), node(2, 2), node(2, 0)]);
    wire(&mut model, 0, 1, &[1]);
    wire(&mut model, 1, 2, &[2]);
    wire(&mut model, 2, 3, &[1, 3]);
    assert_eq!(model.check(), Err(TopologyError::UnbootstrappedCycle { uids: vec![2, 3] }));
}

#[test]
fn a_loop_on_one_actor_is_a_cycle() {
    let mut model = Model::new(vec![node(1, 1)]);
    wire(&mut model, 0, 5, &[0]);
    assert_eq!(model.check(), Err(TopologyError::UnbootstrappedCycle { uids: vec![5] }));
    let mut model = Model::new(vec![node(1, 1)]);
    bootstrap(&mut model, 0, 5, &[0]);
    assert_eq!(model.check(), Ok(vec![0]));
}

#[test]
fn a_long_cycle_is_named_by_its_signals() {
    let mut model = Model::new(vec![node(0, 1), node(1, 1), node(1, 1), node(1, 1), node(1, 0)]);
    wire(&mut model, 0, 10, &[1]);
    wire(&mut model, 1, 11, &[2]);
    wire(&mut model, 2, 12, &[3]);
    wire(&mut model, 3, 13, &[1, 4]);
    match model.check() {
        Err(TopologyError::UnbootstrappedCycle { mut uids }) => {
            // the cycle may start at any of its wires
            while uids[0] != 11 {
                uids.rotate_left(1);
            }
            assert_eq!(uids, vec![11, 12, 13]);
        }
        other => panic!("{:?}", other),
    }
}

#[test]
fn one_bootstrapped_wire_opens_a_cycle() {
    for opened in 0..3 {
        let mut model = Model::new(vec![node(1, 1), node(1, 1), node(1, 1)]);
        for a in 0..3 {
            if a == opened {
                bootstrap(&mut model, a, a as u64, &[(a + 1) % 3]);
            } else {
                wire(&mut model, a, a as u64, &[(a + 1) % 3]);
            }
        }
        let order = model.check().unwrap();
        // the actor behind the bootstrapped wire goes first, the others follow
        assert_eq!(order, vec![(opened + 1) % 3, (opened + 2) % 3, opened]);
    }
}

#[test]
fn every_cycle_needs_its_own_bootstrap() {
    let mut model = Model::new(vec![node(1, 1), node(1, 1), node(1, 1)]);
    bootstrap(&mut model, 0, 1, &[1]);
    wire(&mut model, 1, 2, &[0, 2]);
    wire(&mut model, 2, 3, &[1]);
    assert_eq!(model.check(), Err(TopologyError::UnbootstrappedCycle { uids: vec![2, 3] }));
    let mut model = Model::new(vec![node(1, 1), node(1, 1), node(1, 1)]);
    bootstrap(&mut model, 0, 1, &[1]);
    wire(&mut model, 1, 2, &[0, 2]);
    bootstrap(&mut model, 2, 3, &[1]);
    assert!(model.check().is_ok());
}

#[test]
fn launch_gives_every_actor_its_run_loop() {
    let mut model = Model::new(vec![node(0, 1), node(1, 2), node(2, 0)]);
    wire(&mut model, 0, 11, &[1]);
    wire(&mut model, 1, 12, &[2]);
    let (mut loops, pacers) = model.launch().unwrap();
    assert_eq!(loops.len(), 3);
    assert_eq!(pacers.len(), 2);
    assert_eq!(loops[0].step(Event::Ready), Action::Update);
    assert_eq!(loops[0].step(Event::Ready), Action::Produce);
    assert_eq!(loops[1].step(Event::Ready), Action::Collect);
    assert_eq!(loops[1].step(Event::Ready), Action::Update);
    assert_eq!(loops[1].step(Event::Ready), Action::Produce);
    assert_eq!(loops[1].step(Event::Ready), Action::Collect);
    assert_eq!(loops[1].step(Event::Ready), Action::Update);
    assert_eq!(loops[1].step(Event::Ready), Action::Collect);
    assert_eq!(loops[2].step(Event::Ready), Action::Collect);
    assert_eq!(loops[2].step(Event::Ready), Action::Update);
    assert_eq!(loops[2].step(Event::Ready), Action::Collect);
}

#[test]
fn launch_refuses_a_model_that_may_not_run() {
    let model = Model::new(vec![node(0, 1)]);
    assert_eq!(model.launch().err(), Some(TopologyError::NoOutputs { actor: 0 }));
}

#[test]
fn launch_paces_every_output_by_its_slowest_consumer() {
    let mut model = Model::new(vec![node(0, 1), node(1, 0), node(3, 0), node(0, 6), node(2, 0)]);
    wire(&mut model, 0, 11, &[1, 2]);
    wire(&mut model, 3, 12, &[4]);
    let (_, mut pacers) = model.launch().unwrap();
    // every third sample of the first output goes out
    let times: Vec<usize> = (0..7).map(|_| pacers[0].next()).collect();
    assert_eq!(times, vec![1, 0, 0, 1, 0, 0, 1]);
    // every sample of the second output goes out three times
    let times: Vec<usize> = (0..3).map(|_| pacers[1].next()).collect();
    assert_eq!(times, vec![3, 3, 3]);
}

fn done(actor: usize) -> Completion {
    Completion { actor, result: Ok(()) }
}

fn failed(actor: usize, error: Failure) -> Completion {
    Completion { actor, result: Err(error) }
}

#[test]
fn a_model_that_ends_in_good_order_has_no_failure() {
    assert_eq!(first_failure(&vec![]), None);
    assert_eq!(first_failure(&vec![done(2), done(0), done(1)]), None);
}

#[test]
fn a_closed_channel_during_shutdown_is_absorbed() {
    let completions = vec![done(0), failed(1, Failure::ChannelClosed), done(2)];
    assert_eq!(first_failure(&completions), None);
}

#[test]
fn a_closed_channel_in_steady_state_is_fatal() {
    let completions = vec![failed(1, Failure::ChannelClosed), done(0), done(2)];
    assert_eq!(first_failure(&completions), Some((1, Failure::ChannelClosed)));
}

#[test]
fn the_first_failed_client_is_reported() {
    let completions = vec![
        done(3),
        failed(1, Failure::ChannelClosed),
        failed(2, Failure::Client),
        failed(0, Failure::Client),
    ];
    assert_eq!(first_failure(&completions), Some((2, Failure::Client)));
    let completions = vec![failed(4, Failure::Client), failed(1, Failure::ChannelClosed)];
    assert_eq!(first_failure(&completions), Some((4, Failure::Client)));
}
