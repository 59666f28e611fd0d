//! Signal generators.
use crate::io::{payload_of, Data, UniqueIdentifier, Write};
use crate::Update;
use std::sync::Arc;
use vstd::prelude::*;

verus! {

/// The shape of one signal: a value for each step.
pub trait Waveform {
    /// The value of the signal at one step.
    type Sample;

    /// Returns the signal value at step `i`
    fn get(&self, i: usize) -> Self::Sample;
}

/// Signals generator: one waveform for each output channel, sampled step after
/// step until `n_step` samples are out.
pub struct Signals<W: Waveform> {
    size: usize,
    pub signals: Vec<W>,
    pub step: usize,
    pub n_step: usize,
}

/// What a generator is, for contracts.
pub ghost struct SignalsView<W> {
    /// The number of channels that the generator was made for.
    pub size: nat,
    /// The waveform of each channel.
    pub signals: Seq<W>,
    /// The number of samples written.
    pub step: nat,
    /// The number of samples to write.
    pub n_step: nat,
}

impl<W: Waveform> View for Signals<W> {
    type V = SignalsView<W>;

    closed spec fn view(&self) -> SignalsView<W> {
        SignalsView {
            size: self.size as nat,
            signals: self.signals@,
            step: self.step as nat,
            n_step: self.n_step as nat,
        }
    }
}

/// `data` holds, channel by channel, what the waveforms give at step `i`.
pub open spec fn sampled<W: Waveform>(signals: Seq<W>, i: usize, data: Seq<W::Sample>) -> bool {
    &&& data.len() == signals.len()
    &&& forall|k: int|
        0 <= k < signals.len() ==> call_ensures(W::get, (&signals[k], i), #[trigger] data[k])
}

impl<W: Waveform> Signals<W> {
    /// Create `n` default signals valid for `n_step` iterations
    pub fn new(n: usize, n_step: usize) -> (generator: Self) where W: Default
        ensures
            generator@.size == n,
            generator@.signals.len() == n,
            forall|k: int|
                0 <= k < n ==> call_ensures(W::default, (), #[trigger] generator@.signals[k]),
            generator@.step == 0,
            generator@.n_step == n_step,
    {
        let mut signals: Vec<W> = Vec::new();
        let mut k: usize = 0;
        while k < n
            invariant
                k <= n,
                signals.len() == k,
                forall|j: int| 0 <= j < k ==> call_ensures(W::default, (), #[trigger] signals[j]),
            decreases n - k,
        {
            signals.push(W::default());
            k += 1;
        }
        Self { size: n, signals, step: 0, n_step }
    }

    /// Sets the same signal for all outputs
    pub fn signals(self, signal: W) -> (generator: Self) where W: Clone
        ensures
            generator@.signals.len() == self@.size,
            forall|k: int|
                0 <= k < self@.size ==> cloned(signal, #[trigger] generator@.signals[k]),
            generator@.size == self@.size,
            generator@.step == self@.step,
            generator@.n_step == self@.n_step,
    {
        let mut signals: Vec<W> = Vec::new();
        let mut k: usize = 0;
        while k < self.size
            invariant
                k <= self.size,
                signals.len() == k,
                forall|j: int| 0 <= j < k ==> cloned(signal, #[trigger] signals[j]),
            decreases self.size - k,
        {
            signals.push(signal.clone());
            k += 1;
        }
        Self { size: self.size, signals, step: self.step, n_step: self.n_step }
    }

    /// Sets the signal of output #`k`
    pub fn output_signal(self, k: usize, output_signal: W) -> (generator: Self)
        requires
            k < self@.signals.len(),
        ensures
            generator@ == (SignalsView {
                signals: self@.signals.update(k as int, output_signal),
                ..self@
            }),
    {
        let mut signals = self.signals;
        signals.set(k, output_signal);
        Self { size: self.size, signals, step: self.step, n_step: self.n_step }
    }

    /// A generator for the waveforms `signals`, one channel each, valid for
    /// `n_step` iterations.
    pub fn from_signals(signals: Vec<W>, n_step: usize) -> (generator: Self)
        ensures
            generator@ == (SignalsView {
                size: signals.len() as nat,
                signals: signals@,
                step: 0,
                n_step: n_step as nat,
            }),
    {
        Self { size: signals.len(), signals, step: 0, n_step }
    }

    /// The number of channels that the generator was made for.
    pub fn size(&self) -> (size: usize)
        ensures
            size == self@.size,
    {
        self.size
    }

    /// The number of waveforms that the generator holds.
    pub fn len(&self) -> (len: usize)
        ensures
            len == self@.signals.len(),
    {
        self.signals.len()
    }

    /// The number of samples written so far.
    pub fn written(&self) -> (step: usize)
        ensures
            step == self@.step,
    {
        self.step
    }

    /// The number of samples to write in all.
    pub fn to_write(&self) -> (n_step: usize)
        ensures
            n_step == self@.n_step,
    {
        self.n_step
    }

    /// What the waveforms give at step `i`, channel by channel.
    pub fn sample(&self, i: usize) -> (data: Vec<W::Sample>)
        ensures
            sampled(self@.signals, i, data@),
    {
        let mut data: Vec<W::Sample> = Vec::new();
        let mut k: usize = 0;
        while k < self.signals.len()
            invariant
                k <= self.signals.len(),
                data.len() == k,
                forall|j: int|
                    0 <= j < k ==> call_ensures(W::get, (&self.signals[j], i), #[trigger] data[j]),
            decreases self.signals.len() - k,
        {
            data.push(self.signals[k].get(i));
            k += 1;
        }
        data
    }
}

impl<W: Waveform> Update for Signals<W> {

}

impl<W: Waveform, U: UniqueIdentifier<Data = Vec<W::Sample>>> Write<U> for Signals<W> {
    /// While samples are left, the values of all channels at the current step,
    /// and the step moves on; nothing and no change once `n_step` are out.
    fn write(&mut self) -> (sample: Option<Arc<Data<U>>>)
        ensures
            match payload_of::<U>(sample) {
                Some(data) => {
                    &&& old(self)@.step < old(self)@.n_step
                    &&& sampled(old(self)@.signals, old(self)@.step as usize, data@)
                    &&& final(self)@ == (SignalsView { step: old(self)@.step + 1, ..old(self)@ })
                },
                None => old(self)@.step >= old(self)@.n_step && final(self)@ == old(self)@,
            },
    {
        if self.step < self.n_step {
            let i = self.step;
            let data = self.sample(i);
            self.step += 1;
            Some(Arc::new(Data::new(data)))
        } else {
            None
        }
    }
}

/// Why a generator cannot be narrowed to one channel.
#[derive(Debug, Clone, Copy, PartialEq, Eq, Structural)]
pub enum SignalsError {
    OneSignal,
}

impl SignalsError {
    /// The error in words.
    pub fn message(&self) -> (text: String)
        ensures
            text@ == "Two many signal channels, should be only 1"@,
    {
        "Two many signal channels, should be only 1".to_owned()
    }
}

/// A generator with a single channel, whose samples are bare values.
pub struct OneSignal<W: Waveform> {
    pub signal: W,
    pub step: usize,
    pub n_step: usize,
}

impl<W: Waveform> OneSignal<W> {
    /// Narrows a generator to its only channel, keeping its progress; a
    /// generator with more than one channel is refused.
    pub fn from_signals(signals: Signals<W>) -> (one: Result<Self, SignalsError>)
        requires
            signals@.signals.len() >= 1,
        ensures
            signals@.signals.len() > 1 ==> one == Err::<Self, SignalsError>(
                SignalsError::OneSignal,
            ),
            signals@.signals.len() == 1 ==> one == Ok::<Self, SignalsError>(
                OneSignal {
                    signal: signals@.signals[0],
                    step: signals@.step as usize,
                    n_step: signals@.n_step as usize,
                },
            ),
    {
        let mut signals = signals;
        if signals.signals.len() > 1 {
            Err(SignalsError::OneSignal)
        } else {
            Ok(
                OneSignal {
                    signal: signals.signals.remove(0),
                    step: signals.step,
                    n_step: signals.n_step,
                },
            )
        }
    }
}

impl<W: Waveform> Update for OneSignal<W> {

}

impl<W: Waveform, U: UniqueIdentifier<Data = W::Sample>> Write<U> for OneSignal<W> {
    /// While samples are left, the value of the signal at the current step,
    /// and the step moves on; nothing and no change once `n_step` are out.
    fn write(&mut self) -> (sample: Option<Arc<Data<U>>>)
        ensures
            match payload_of::<U>(sample) {
                Some(data) => {
                    &&& old(self).step < old(self).n_step
                    &&& call_ensures(W::get, (&old(self).signal, old(self).step), data)
                    &&& *final(self) == (OneSignal {
                        step: (old(self).step + 1) as usize,
                        ..*old(self)
                    })
                },
                None => old(self).step >= old(self).n_step && *final(self) == *old(self),
            },
    {
        if self.step < self.n_step {
            let i = self.step;
            let data = self.signal.get(i);
            self.step += 1;
            Some(Arc::new(Data::new(data)))
        } else {
            None
        }
    }
}

} // verus!
