use dos_actors::actor::{collected, distributed, Action, Event, Failure, RunLoop, Sent};
use dos_actors::rate::{rates_agree, Pacer};

/// The first `n` actions of a run loop whose actions all succeed.
fn actions(ni: usize, no: usize, n: usize) -> Vec<Action> {
    let mut run = RunLoop::new(ni, no).unwrap();
    (0..n).map(|_| run.step(Event::Ready)).collect()
}

const C: Action = Action::Collect;
const U: Action = Action::Update;
const P: Action = Action::Produce;
const H: Action = Action::Hold;
const DELIVERED: Sent = Sent::Delivered;
const EXHAUSTED: Sent = Sent::Exhausted;
const CLOSED: Sent = Sent::Closed;

#[test]
fn rates_agree_when_one_divides_the_other() {
    assert!(rates_agree(1, 1));
    assert!(rates_agree(1, 10));
    assert!(rates_agree(10, 1));
    assert!(rates_agree(4, 12));
    assert!(rates_agree(12, 4));
    assert!(rates_agree(7, 7));
    assert!(!rates_agree(2, 3));
    assert!(!rates_agree(10, 15));
    assert!(!rates_agree(6, 4));
}

#[test]
fn a_rate_is_at_least_one_tick() {
    assert!(!rates_agree(0, 1));
    assert!(!rates_agree(1, 0));
    assert!(!rates_agree(0, 0));
    assert!(!rates_agree(0, 5));
}

/// How often each of the first `n` samples goes out.
fn times(rp: usize, rc: usize, n: usize) -> Vec<usize> {
    let mut pacer = Pacer::new(rp, rc).unwrap();
    (0..n).map(|_| pacer.next()).collect()
}

#[test]
fn a_pacer_needs_rates_that_agree() {
    assert!(Pacer::new(2, 3).is_none());
    assert!(Pacer::new(0, 1).is_none());
    assert!(Pacer::new(1, 0).is_none());
    assert!(Pacer::new(3, 3).is_some());
    assert!(Pacer::new(3, 6).is_some());
    assert!(Pacer::new(6, 3).is_some());
}

#[test]
fn equal_rates_send_every_sample_once() {
    assert_eq!(times(1, 1, 4), vec![1, 1, 1, 1]);
    assert_eq!(times(7, 7, 3), vec![1, 1, 1]);
}

#[test]
fn a_slower_consumer_gets_the_first_of_each_group() {
    assert_eq!(times(1, 3, 8), vec![1, 0, 0, 1, 0, 0, 1, 0]);
    assert_eq!(times(2, 4, 5), vec![1, 0, 1, 0, 1]);
    assert_eq!(times(1, 10, 100).iter().sum::<usize>(), 10);
    assert_eq!(times(1, 10, 95).iter().sum::<usize>(), 10);
    assert_eq!(times(1, 10, 90).iter().sum::<usize>(), 9);
}

#[test]
fn a_faster_consumer_gets_each_sample_repeated() {
    assert_eq!(times(3, 1, 4), vec![3, 3, 3, 3]);
    assert_eq!(times(10, 5, 2), vec![2, 2]);
    assert_eq!(times(10, 1, 3).iter().sum::<usize>(), 30);
}

#[test]
fn uneven_rates_have_no_run_loop() {
    assert!(RunLoop::new(2, 3).is_none());
    assert!(RunLoop::new(10, 4).is_none());
    assert!(RunLoop::new(2, 4).is_some());
    assert!(RunLoop::new(0, 3).is_some());
    assert!(RunLoop::new(3, 0).is_some());
    assert!(RunLoop::new(0, 0).is_some());
}

#[test]
fn equal_rates_read_update_write() {
    assert_eq!(actions(1, 1, 7), vec![C, U, P, C, U, P, C]);
    assert_eq!(actions(5, 5, 4), vec![C, U, P, C]);
}

#[test]
fn an_initiator_updates_and_writes() {
    assert_eq!(actions(0, 1, 5), vec![U, P, U, P, U]);
    assert_eq!(actions(0, 10, 3), vec![U, P, U]);
}

#[test]
fn a_terminator_reads_and_updates() {
    assert_eq!(actions(1, 0, 5), vec![C, U, C, U, C]);
    assert_eq!(actions(10, 0, 3), vec![C, U, C]);
}

#[test]
fn a_downsampler_writes_on_the_first_tick_of_each_group() {
    assert_eq!(actions(1, 3, 15), vec![C, U, P, C, U, C, U, C, U, P, C, U, C, U, C]);
    assert_eq!(actions(2, 4, 6), vec![C, U, P, C, U, C]);
    let long = actions(1, 10, 21 * 10);
    assert_eq!(long.iter().filter(|a| **a == C).count(), 100);
    assert_eq!(long.iter().filter(|a| **a == P).count(), 10);
    assert_eq!(long.iter().filter(|a| **a == H).count(), 0);
}

#[test]
fn an_upsampler_holds_between_reads() {
    assert_eq!(actions(3, 1, 11), vec![C, U, P, H, H, C, U, P, H, H, C]);
    assert_eq!(actions(4, 2, 5), vec![C, U, P, H, C]);
    let long = actions(10, 1, 12 * 10);
    assert_eq!(long.iter().filter(|a| **a == C).count(), 10);
    assert_eq!(long.iter().filter(|a| **a == P).count(), 10);
    assert_eq!(long.iter().filter(|a| **a == H).count(), 90);
}

#[test]
fn an_actor_without_ports_ends_at_once() {
    let mut run = RunLoop::new(0, 0).unwrap();
    assert!(run.is_over());
    assert_eq!(run.step(Event::Ready), Action::Finish(Ok(())));
    assert_eq!(run.step(Event::Ready), Action::Finish(Ok(())));
}

#[test]
fn a_closed_input_ends_the_loop_in_good_order() {
    let mut run = RunLoop::new(1, 1).unwrap();
    assert!(!run.is_over());
    assert_eq!(run.step(Event::Ready), C);
    assert_eq!(run.step(Event::InputClosed), Action::Finish(Ok(())));
    assert!(run.is_over());
    assert_eq!(run.step(Event::Ready), Action::Finish(Ok(())));
}

#[test]
fn an_exhausted_client_ends_the_loop_in_good_order() {
    let mut run = RunLoop::new(0, 1).unwrap();
    assert_eq!(run.step(Event::Ready), U);
    assert_eq!(run.step(Event::Ready), P);
    assert_eq!(run.step(Event::Exhausted), Action::Finish(Ok(())));
    assert!(run.is_over());
}

#[test]
fn a_lost_consumer_ends_the_loop_in_error() {
    let mut run = RunLoop::new(1, 1).unwrap();
    assert_eq!(run.step(Event::Ready), C);
    assert_eq!(run.step(Event::Ready), U);
    assert_eq!(run.step(Event::Ready), P);
    assert_eq!(run.step(Event::OutputClosed), Action::Finish(Err(Failure::ChannelClosed)));
    assert_eq!(run.step(Event::Ready), Action::Finish(Err(Failure::ChannelClosed)));
    assert_eq!(run.step(Event::InputClosed), Action::Finish(Err(Failure::ChannelClosed)));
}

#[test]
fn a_failed_client_ends_the_loop_in_error() {
    let mut run = RunLoop::new(1, 0).unwrap();
    assert_eq!(run.step(Event::Ready), C);
    assert_eq!(run.step(Event::ClientFailed), Action::Finish(Err(Failure::Client)));
    assert_eq!(run.step(Event::Exhausted), Action::Finish(Err(Failure::Client)));
    assert!(run.is_over());
}

#[test]
fn a_collect_needs_every_input() {
    assert_eq!(collected(&vec![]), Event::Ready);
    assert_eq!(collected(&vec![true, true]), Event::Ready);
    assert_eq!(collected(&vec![true, false, true]), Event::InputClosed);
    assert_eq!(collected(&vec![false]), Event::InputClosed);
}

#[test]
fn a_send_goes_on_while_an_output_delivers() {
    assert_eq!(distributed(&vec![DELIVERED]), (Event::Ready, vec![true]));
    assert_eq!(
        distributed(&vec![DELIVERED, EXHAUSTED, DELIVERED]),
        (Event::Ready, vec![true, false, true])
    );
    assert_eq!(distributed(&vec![EXHAUSTED]), (Event::Exhausted, vec![false]));
    assert_eq!(distributed(&vec![EXHAUSTED, EXHAUSTED]), (Event::Exhausted, vec![false, false]));
    assert_eq!(distributed(&vec![]), (Event::Exhausted, vec![]));
}

#[test]
fn a_lost_consumer_counts_before_anything_else() {
    assert_eq!(distributed(&vec![CLOSED]), (Event::OutputClosed, vec![false]));
    assert_eq!(
        distributed(&vec![DELIVERED, CLOSED, EXHAUSTED]),
        (Event::OutputClosed, vec![true, false, false])
    );
    assert_eq!(distributed(&vec![EXHAUSTED, CLOSED]), (Event::OutputClosed, vec![false, false]));
}
