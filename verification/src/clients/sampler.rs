//! A latch between two rates.
use crate::io::{Data, Read, UniqueIdentifier, Write};
use crate::Update;
use std::marker::PhantomData;
use std::sync::Arc;
use vstd::prelude::*;

verus! {

/// Rate transitionner: holds the sample read last and writes a copy of its
/// payload whenever it is asked, under the signal `V`.
#[verifier::reject_recursive_types(T)]
pub struct Sampler<T, U: UniqueIdentifier<Data = T>, V: UniqueIdentifier<Data = T> = U> {
    input: Arc<Data<U>>,
    output: PhantomData<V>,
}

impl<T, U: UniqueIdentifier<Data = T>, V: UniqueIdentifier<Data = T>> Sampler<T, U, V> {
    /// The payload that the sampler holds.
    pub closed spec fn held(&self) -> T {
        self.input.0
    }

    /// Creates a new sampler with initial condition
    pub fn new(init: T) -> (sampler: Self)
        ensures
            sampler.held() == init,
    {
        Self { input: Arc::new(Data::new(init)), output: PhantomData }
    }
}

impl<T: Default, U: UniqueIdentifier<Data = T>, V: UniqueIdentifier<Data = T>> Default for Sampler<
    T,
    U,
    V,
> {
    /// A sampler that holds the default payload.
    fn default() -> (sampler: Self)
        ensures
            call_ensures(T::default, (), sampler.held()),
    {
        Self { input: Arc::new(Data::new(T::default())), output: PhantomData }
    }
}

impl<T, U: UniqueIdentifier<Data = T>, V: UniqueIdentifier<Data = T>> Update for Sampler<T, U, V> {

}

impl<T, U: UniqueIdentifier<Data = T>, V: UniqueIdentifier<Data = T>> Read<U> for Sampler<T, U, V> {
    /// Replaces the payload held by that of `data`.
    fn read(&mut self, data: Arc<Data<U>>)
        ensures
            final(self).held() == data.0,
    {
        self.input = data;
    }
}

impl<T: Clone, U: UniqueIdentifier<Data = T>, V: UniqueIdentifier<Data = T>> Write<V> for Sampler<
    T,
    U,
    V,
> {
    /// Never exhausted: a fresh sample with a clone of the payload held, which
    /// stays held.
    fn write(&mut self) -> (sample: Option<Arc<Data<V>>>)
        ensures
            sample matches Some(s) && cloned(old(self).held(), s.0),
            final(self).held() == old(self).held(),
    {
        Some(Arc::new(Data::new(self.input.payload().clone())))
    }
}

} // verus!
