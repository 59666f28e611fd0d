//! The input of an actor that hands its samples to the client.
use super::{ChannelClosed, Read, UniqueIdentifier, S};
use std::sync::Arc;
use vstd::prelude::*;

verus! {

/// `tokio::sync::Mutex`: the guard around a client that is shared with the
/// outside of its actor. It is carried through as it is.
#[verifier::external_type_specification]
#[verifier::external_body]
#[verifier::reject_recursive_types(T)]
pub struct ExMutex<T: ?Sized>(tokio::sync::Mutex<T>);

/// The text of the hash `hash` in decimal.
pub open spec fn decimal(hash: nat) -> Seq<char>
    decreases hash,
{
    let digit = ((hash % 10) + 48) as u8 as char;
    if hash < 10 {
        seq![digit]
    } else {
        decimal(hash / 10).push(digit)
    }
}

/// `text` behind as many spaces as it lacks to `width` characters.
pub open spec fn right_aligned(text: Seq<char>, width: nat) -> Seq<char> {
    if text.len() >= width {
        text
    } else {
        Seq::new((width - text.len()) as nat, |i: int| ' ') + text
    }
}

/// The line that stands for an input in diagnostics: the hash, right-aligned
/// in 24 columns, a colon and a space, and the name of the signal.
pub open spec fn labelled(hash: u64, who: Seq<char>) -> Seq<char> {
    right_aligned(decimal(hash as nat), 24) + seq![':', ' '] + who
}

/// `format!` with a number right-aligned in 24 columns and a text: the number
/// is written in decimal and padded with spaces on the left.
#[verifier::external_body]
fn label(hash: u64, who: &String) -> (line: String)
    ensures
        line@ == labelled(hash, who@),
{
    format!("{:>24}: {}", hash, who)
}

/// The input of an actor for the signal `U` at rate `N`: the receiving end of
/// a channel, the client that reads what arrives, and the hash under which the
/// input is registered.
#[verifier::reject_recursive_types(C)]
#[verifier::reject_recursive_types(T)]
#[verifier::reject_recursive_types(U)]
pub struct Input<C, T, U, const N: usize> where U: UniqueIdentifier<Data = T>, C: Read<U> {
    rx: flume::Receiver<S<U>>,
    client: Arc<tokio::sync::Mutex<C>>,
    hash: u64,
}

impl<C, T, U, const N: usize> Input<C, T, U, N> where U: UniqueIdentifier<Data = T>, C: Read<U> {
    /// The hash under which the input is registered.
    pub closed spec fn hash(&self) -> u64 {
        self.hash
    }

    /// The receiving end that the input holds.
    pub closed spec fn rx(&self) -> flume::Receiver<S<U>> {
        self.rx
    }

    /// The guarded client that the input holds.
    pub closed spec fn guard(&self) -> Arc<tokio::sync::Mutex<C>> {
        self.client
    }

    /// Creates a new input from a receiver, an actor client and an identifier
    /// hash
    pub fn new(rx: flume::Receiver<S<U>>, client: Arc<tokio::sync::Mutex<C>>, hash: u64) -> (input:
        Self)
        ensures
            input.rx() == rx,
            input.guard() == client,
            input.hash() == hash,
    {
        Self { rx, client, hash }
    }

    /// The receiving end of the channel.
    pub fn receiver(&self) -> (rx: &flume::Receiver<S<U>>)
        ensures
            *rx == self.rx(),
    {
        &self.rx
    }

    /// The client that reads what the input receives.
    pub fn client(&self) -> (client: &Arc<tokio::sync::Mutex<C>>)
        ensures
            *client == self.guard(),
    {
        &self.client
    }

    /// Gets the input hash
    pub fn get_hash(&self) -> (hash: u64)
        ensures
            hash == self.hash(),
    {
        self.hash
    }

    /// The line that stands for the input in diagnostics, for the name `who`
    /// of its signal.
    pub fn line(&self, who: &String) -> (line: String)
        ensures
            line@ == labelled(self.hash(), who@),
    {
        label(self.hash, who)
    }
}

/// Hands to the client what an input received: a sample is read by the client,
/// once, so that the client becomes what its `read` makes of it with that
/// sample; the closure of the channel is reported and leaves the client alone.
pub fn deliver<C: Read<U>, U: UniqueIdentifier>(client: &mut C, received: Option<S<U>>) -> (outcome:
    Result<(), ChannelClosed>)
    ensures
        received is Some <==> outcome is Ok,
        received matches Some(sample) ==> exists|r: &mut C|
            #[trigger] call_ensures(C::read, (r, sample), ()) && mut_ref_current(r) == *old(client)
                && mut_ref_future(r) == *final(client),
        received is None ==> outcome == Err::<(), ChannelClosed>(ChannelClosed::Receive)
            && *final(client) == *old(client),
{
    match received {
        Some(sample) => {
            client.read(sample);
            Ok(())
        },
        None => Err(ChannelClosed::Receive),
    }
}

} // verus!
