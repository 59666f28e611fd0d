//! Typed samples, ports and channel endpoints.
pub mod input;

use std::marker::PhantomData;
use std::sync::Arc;
use vstd::prelude::*;
use vstd::std_specs::convert::FromSpecImpl;

verus! {

/// A marker for one logical signal. Two signals with the same payload type but
/// different markers are different edges of the graph.
pub trait UniqueIdentifier {
    /// The payload carried by samples of this signal.
    type Data;
}

/// One immutable sample of the signal `U`.
pub struct Data<U: UniqueIdentifier>(pub U::Data, pub PhantomData<U>);

/// A sample as it travels: shared by reference among all its consumers.
pub type S<U> = Arc<Data<U>>;

impl<U: UniqueIdentifier> Data<U> {
    /// Wraps a payload into a sample.
    pub fn new(data: U::Data) -> (sample: Self)
        ensures
            sample.0 == data,
    {
        Data(data, PhantomData)
    }

    /// The payload of the sample.
    pub fn payload(&self) -> (data: &U::Data)
        ensures
            *data == self.0,
    {
        &self.0
    }
}

impl<U: UniqueIdentifier> Default for Data<U> where U::Data: Default {
    /// The sample that holds the default payload.
    fn default() -> (sample: Self)
        ensures
            call_ensures(<U::Data as Default>::default, (), sample.0),
    {
        Data(Default::default(), PhantomData)
    }
}

impl<T, U: UniqueIdentifier<Data = Vec<T>>> From<Vec<T>> for Data<U> {
    fn from(u: Vec<T>) -> (sample: Self) {
        Data(u, PhantomData)
    }
}

impl<T, U: UniqueIdentifier<Data = Vec<T>>> FromSpecImpl<Vec<T>> for Data<U> {
    open spec fn obeys_from_spec() -> bool {
        true
    }

    open spec fn from_spec(u: Vec<T>) -> Self {
        Data(u, PhantomData)
    }
}

impl<T: Clone, U: UniqueIdentifier<Data = Vec<T>>> Data<U> {
    /// A copy of the values of a sample.
    pub fn to_vec(&self) -> (values: Vec<T>)
        ensures
            values.len() == self.0.len(),
            forall|i: int| 0 <= i < values.len() ==> cloned(self.0[i], #[trigger] values[i]),
    {
        self.0.clone()
    }
}

/// The payload of what a client wrote, if it wrote a sample.
pub open spec fn payload_of<U: UniqueIdentifier>(sample: Option<Arc<Data<U>>>) -> Option<U::Data> {
    match sample {
        Some(s) => Some(s.0),
        None => None,
    }
}

/// Ingests samples of the signal `U`.
pub trait Read<U: UniqueIdentifier> {
    fn read(&mut self, data: Arc<Data<U>>);
}

/// Produces samples of the signal `U`; `None` signals exhaustion.
pub trait Write<U: UniqueIdentifier> {
    fn write(&mut self) -> Option<Arc<Data<U>>>;
}

/// Why a port stopped: the other side of its channel is gone.
#[derive(Debug, Clone, Copy, PartialEq, Eq, Structural)]
pub enum ChannelClosed {
    /// Every sender of an input's channel was dropped.
    Receive,
    /// The receiver of one of an output's channels was dropped.
    Send,
}

/// `flume::Sender`: the sending end of a channel. It is carried through as it
/// is: nothing of what it holds is known here.
#[verifier::external_type_specification]
#[verifier::external_body]
#[verifier::reject_recursive_types(T)]
pub struct ExSender<T>(flume::Sender<T>);

/// `flume::Receiver`: the receiving end of a channel, carried through as it is.
#[verifier::external_type_specification]
#[verifier::external_body]
#[verifier::reject_recursive_types(T)]
pub struct ExReceiver<T>(flume::Receiver<T>);

/// `flume::bounded`: the two ends of a fresh channel that holds at most `cap`
/// messages. Nothing is claimed of the ends.
#[verifier::external_body]
fn bounded<T>(cap: usize) -> (ends: (flume::Sender<T>, flume::Receiver<T>)) {
    flume::bounded(cap)
}

/// `flume::unbounded`: the two ends of a fresh channel without a limit. Nothing
/// is claimed of the ends.
#[verifier::external_body]
fn unbounded<T>() -> (ends: (flume::Sender<T>, flume::Receiver<T>)) {
    flume::unbounded()
}

/// `Sender::try_send`: puts `msg` into the channel if it has room and a
/// receiver, without waiting, and tells whether it did.
#[verifier::external_body]
fn offer<T>(tx: &flume::Sender<T>, msg: T) -> (taken: bool) {
    tx.try_send(msg).is_ok()
}

/// `Arc::clone`: another handle on the same sample; the payload is not copied.
#[verifier::external_body]
fn share<T>(sample: &Arc<T>) -> (handle: Arc<T>)
    ensures
        handle == *sample,
{
    Arc::clone(sample)
}

/// The receiving port of an actor for the signal `U` at rate `N`.
#[verifier::reject_recursive_types(U)]
pub struct Input<U: UniqueIdentifier, const N: usize> {
    /// The sample received last.
    pub data: S<U>,
    /// The receiving end of the channel.
    pub rx: flume::Receiver<S<U>>,
}

impl<U: UniqueIdentifier, const N: usize> Input<U, N> where U::Data: Default {
    /// A port on `rx` that holds the default sample until the first one arrives.
    pub fn new(rx: flume::Receiver<S<U>>) -> (input: Self)
        ensures
            call_ensures(<U::Data as Default>::default, (), input.data.0),
            input.rx == rx,
    {
        Self { data: Arc::new(Data::default()), rx }
    }

    /// Takes in what the channel handed over: a sample replaces the one held,
    /// and the closure of the channel is reported and leaves the port as it was.
    pub fn accept(&mut self, received: Option<S<U>>) -> (outcome: Result<(), ChannelClosed>)
        ensures
            received matches Some(sample) ==> outcome is Ok && final(self).data == sample,
            received is None ==> outcome == Err::<(), ChannelClosed>(ChannelClosed::Receive)
                && final(self).data == old(self).data,
            final(self).rx == old(self).rx,
    {
        match received {
            Some(sample) => {
                self.data = sample;
                Ok(())
            },
            None => Err(ChannelClosed::Receive),
        }
    }
}

impl<T: Clone, U: UniqueIdentifier<Data = Vec<T>>, const N: usize> Input<U, N> {
    /// A copy of the values of the sample received last.
    pub fn to_vec(&self) -> (values: Vec<T>)
        ensures
            values.len() == self.data.0.len(),
            forall|i: int| 0 <= i < values.len() ==> cloned(self.data.0[i], #[trigger] values[i]),
    {
        self.data.to_vec()
    }
}

/// The sending port of an actor for the signal `U` at rate `N`, with one
/// sender for each consumer.
#[verifier::reject_recursive_types(U)]
pub struct Output<U: UniqueIdentifier, const N: usize> {
    /// The sample to send next.
    pub data: S<U>,
    /// The sending ends, one for each consumer.
    pub tx: Vec<flume::Sender<S<U>>>,
}

/// All the entries of `delivered` up to `n` are true.
pub open spec fn all_delivered(delivered: Seq<bool>, n: int) -> bool {
    forall|i: int| 0 <= i < n ==> delivered[i]
}

impl<U: UniqueIdentifier, const N: usize> Output<U, N> where U::Data: Default {
    /// A port on the senders `tx` that holds the default sample.
    pub fn new(tx: Vec<flume::Sender<S<U>>>) -> (output: Self)
        ensures
            call_ensures(<U::Data as Default>::default, (), output.data.0),
            output.tx == tx,
    {
        Self { data: Arc::new(Data::default()), tx }
    }

    /// What one send hands to the channels: for each sender, in order, a handle
    /// on the sample held. Every consumer gets the same sample.
    pub fn fan_out(&self) -> (samples: Vec<S<U>>)
        ensures
            samples.len() == self.tx.len(),
            forall|i: int| 0 <= i < samples.len() ==> samples[i] == self.data,
    {
        let mut samples: Vec<S<U>> = Vec::new();
        let n: usize = self.tx.len();
        let mut i: usize = 0;
        while i < n
            invariant
                i <= n,
                n == self.tx.len(),
                samples.len() == i,
                forall|j: int| 0 <= j < i ==> samples[j] == self.data,
            decreases n - i,
        {
            samples.push(share(&self.data));
            i += 1;
        }
        samples
    }

    /// The result of one send, given for each sender whether its consumer took
    /// the sample: the send succeeded when every one did.
    pub fn joined(&self, delivered: &Vec<bool>) -> (outcome: Result<(), ChannelClosed>)
        ensures
            all_delivered(delivered@, delivered.len() as int) ==> outcome is Ok,
            !all_delivered(delivered@, delivered.len() as int) ==> outcome == Err::<
                (),
                ChannelClosed,
            >(ChannelClosed::Send),
    {
        let mut i: usize = 0;
        while i < delivered.len()
            invariant
                i <= delivered.len(),
                all_delivered(delivered@, i as int),
            decreases delivered.len() - i,
        {
            if !delivered[i] {
                return Err(ChannelClosed::Send);
            }
            i += 1;
        }
        Ok(())
    }
}

/// One output with `n_pairs` senders and the `n_pairs` inputs at the other ends,
/// each pair joined by a channel of its own that holds one sample.
pub fn channels<U: UniqueIdentifier, const N: usize>(n_pairs: usize) -> (ports: (
    Output<U, N>,
    Vec<Input<U, N>>,
)) where U::Data: Default
    ensures
        ports.0.tx.len() == n_pairs,
        ports.1.len() == n_pairs,
        call_ensures(<U::Data as Default>::default, (), ports.0.data.0),
        forall|i: int|
            0 <= i < n_pairs ==> call_ensures(
                <U::Data as Default>::default,
                (),
                (#[trigger] ports.1[i]).data.0,
            ),
{
    let mut txs: Vec<flume::Sender<S<U>>> = Vec::new();
    let mut inputs: Vec<Input<U, N>> = Vec::new();
    let mut i: usize = 0;
    while i < n_pairs
        invariant
            i <= n_pairs,
            txs.len() == i,
            inputs.len() == i,
            forall|j: int|
                0 <= j < i ==> call_ensures(
                    <U::Data as Default>::default,
                    (),
                    (#[trigger] inputs[j]).data.0,
                ),
        decreases n_pairs - i,
    {
        let (tx, rx) = bounded::<S<U>>(1);
        txs.push(tx);
        inputs.push(Input::new(rx));
        i += 1;
    }
    (Output::new(txs), inputs)
}

/// One output with `n_pairs` senders and the `n_pairs` inputs at the other ends,
/// as a builder asks for them: each pair joined by a channel of its own, which
/// holds one sample or, if `unbounded`, any number, and which starts with one
/// default sample in it if `bootstrap`. Without `bootstrap` the ports are always
/// made; with it they are made unless a channel refuses its first sample.
pub fn channels_with<U: UniqueIdentifier, const N: usize>(
    n_pairs: usize,
    unbounded: bool,
    bootstrap: bool,
) -> (ports: Option<(Output<U, N>, Vec<Input<U, N>>)>) where U::Data: Default
    ensures
        !bootstrap ==> ports is Some,
        ports matches Some(made) ==> {
            &&& made.0.tx.len() == n_pairs
            &&& made.1.len() == n_pairs
            &&& call_ensures(<U::Data as Default>::default, (), made.0.data.0)
            &&& forall|i: int|
                0 <= i < n_pairs ==> call_ensures(
                    <U::Data as Default>::default,
                    (),
                    (#[trigger] made.1[i]).data.0,
                )
        },
{
    let mut txs: Vec<flume::Sender<S<U>>> = Vec::new();
    let mut inputs: Vec<Input<U, N>> = Vec::new();
    let mut i: usize = 0;
    while i < n_pairs
        invariant
            i <= n_pairs,
            txs.len() == i,
            inputs.len() == i,
            forall|j: int|
                0 <= j < i ==> call_ensures(
                    <U::Data as Default>::default,
                    (),
                    (#[trigger] inputs[j]).data.0,
                ),
        decreases n_pairs - i,
    {
        let (tx, rx) = if unbounded {
            self::unbounded::<S<U>>()
        } else {
            bounded::<S<U>>(1)
        };
        if bootstrap {
            let first: S<U> = Arc::new(Data::default());
            if !offer(&tx, first) {
                return None;
            }
        }
        txs.push(tx);
        inputs.push(Input::new(rx));
        i += 1;
    }
    Some((Output::new(txs), inputs))
}

/// One output and the one input that it feeds.
pub fn channel<U: UniqueIdentifier, const N: usize>() -> (ports: (
    Output<U, N>,
    Input<U, N>,
)) where U::Data: Default
    ensures
        ports.0.tx.len() == 1,
        call_ensures(<U::Data as Default>::default, (), ports.0.data.0),
        call_ensures(<U::Data as Default>::default, (), ports.1.data.0),
{
    let (output, mut inputs) = channels::<U, N>(1);
    let input = inputs.pop().unwrap();
    (output, input)
}

} // verus!
