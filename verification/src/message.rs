//! What the threads of the program tell one another.

use crate::audio::AudioMessage;
use crate::config::Config;
use crate::midi::AppMidiEvent;
use crossbeam::channel::{Receiver, Sender};
use std::sync::Arc;
use vstd::prelude::*;

verus! {

/// `crossbeam::channel::Sender`: the sending end of a channel. Nothing of its
/// inside is known here.
#[verifier::external_type_specification]
#[verifier::external_body]
#[verifier::reject_recursive_types(T)]
pub struct ExSender<T>(Sender<T>);

/// `crossbeam::channel::Receiver`: the receiving end of a channel. Nothing
/// of its inside is known here.
#[verifier::external_type_specification]
#[verifier::external_body]
#[verifier::reject_recursive_types(T)]
pub struct ExReceiver<T>(Receiver<T>);

/// `crossbeam::channel::unbounded`: a new channel that holds any number of
/// messages, by its two ends. Nothing is claimed of the ends.
#[verifier::external_body]
pub(crate) fn unbounded<M>() -> (ends: (Sender<M>, Receiver<M>)) {
    crossbeam::channel::unbounded()
}

/// `Receiver::try_iter`, collected into a vector: takes messages out of the
/// channel until none waits, and never waits for one. Nothing is claimed of
/// what comes out: that is for the senders to decide.
#[verifier::external_body]
pub(crate) fn pending<M>(channel: &Receiver<M>) -> (messages: Vec<M>) {
    channel.try_iter().collect()
}

/// `<Sender<T> as Clone>::clone`: one more sending end. Nothing is claimed
/// of it.
pub assume_specification<T>[ <Sender<T> as Clone>::clone ](end: &Sender<T>) -> (r: Sender<T>);

/// `<Receiver<T> as Clone>::clone`: one more receiving end. Nothing is
/// claimed of it.
pub assume_specification<T>[ <Receiver<T> as Clone>::clone ](end: &Receiver<T>) -> (r: Receiver<T>);

/// The ends of the three channels that join the threads of the program: one
/// to the window loop, one to the MIDI dispatch loop and one to the audio
/// callback.
#[derive(Debug)]
#[verifier::reject_recursive_types(R)]
#[verifier::reject_recursive_types(T)]
pub struct Events<R, T> {
    pub app_rx: Receiver<Message<R>>,
    pub app_tx: Sender<Message<R>>,
    pub midi_rx: Receiver<AppMidiEvent<R>>,
    pub midi_tx: Sender<AppMidiEvent<R>>,
    pub audio_rx: Receiver<AudioMessage<R, T>>,
    pub audio_tx: Sender<AudioMessage<R, T>>,
}

impl<R, T> Clone for Events<R, T> {
    /// One more end of each channel.
    fn clone(&self) -> (r: Self) {
        Events {
            app_rx: self.app_rx.clone(),
            app_tx: self.app_tx.clone(),
            midi_rx: self.midi_rx.clone(),
            midi_tx: self.midi_tx.clone(),
            audio_rx: self.audio_rx.clone(),
            audio_tx: self.audio_tx.clone(),
        }
    }
}

/// What the window loop is told.
#[derive(Debug)]
pub enum Message<R> {
    ConfigUpdate(Arc<Config<R>>),
}

impl<R> Clone for Message<R> {
    /// The same message, of the same configuration.
    fn clone(&self) -> (r: Self)
        ensures
            r == *self,
    {
        match self {
            Message::ConfigUpdate(cfg) => Message::ConfigUpdate(cfg.clone()),
        }
    }
}

} // verus!
