//! Where the search reports its progress: a channel, or nowhere.

use vstd::prelude::*;
use std::marker::PhantomData;
use std::sync::mpsc::{SendError, Sender};

verus! {

#[verifier::external_type_specification]
#[verifier::external_body]
#[verifier::reject_recursive_types(T)]
pub struct ExSendError<T>(SendError<T>);

#[verifier::external_type_specification]
#[verifier::external_body]
#[verifier::reject_recursive_types(T)]
pub struct ExSender<T>(Sender<T>);

/// A sink for progress messages that can be shared between workers.
pub trait MctsSender<T>: Send + Sync + 'static {
    fn send(&self, t: T) -> Result<(), SendError<T>>;
}

/// A sink that drops every message.
#[derive(Debug)]
pub struct NoopSender<T> where T: Clone {
    _phantom: PhantomData<T>,
}

impl<T: Clone> Clone for NoopSender<T> {
    fn clone(&self) -> (r: Self) {
        NoopSender { _phantom: PhantomData }
    }
}

impl<T: Clone> NoopSender<T> {
    pub fn new() -> (r: Self) {
        NoopSender { _phantom: PhantomData }
    }

    /// Drops the message; sending never fails.
    pub fn send(&self, _t: T) -> (r: Result<(), SendError<T>>)
        ensures
            r is Ok,
    {
        Ok(())
    }
}

impl<T: Clone> Default for NoopSender<T> {
    fn default() -> (r: Self) {
        Self::new()
    }
}

/// `Sender::send`: hands the message to the channel; it fails when the
/// receiving end is gone, which nothing here can know.
#[verifier::external_body]
fn channel_send<T: Send + Sync + 'static>(s: &Sender<T>, t: T) -> Result<(), SendError<T>> {
    s.send(t)
}

impl<T: Send + Sync + 'static> MctsSender<T> for Sender<T> {
    fn send(&self, t: T) -> Result<(), SendError<T>> {
        channel_send(self, t)
    }

}

impl<T: Send + Sync + Clone + 'static> MctsSender<T> for NoopSender<T> {
    /// Drops the message; sending never fails.
    fn send(&self, _t: T) -> (r: Result<(), SendError<T>>)
        ensures
            r is Ok,
    {
        Ok(())
    }

}

} // verus!
