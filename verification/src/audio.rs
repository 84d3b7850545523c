//! The state that the audio callback owns, and the commands that change it.

pub mod general;
pub mod graph;
pub mod parameters;
pub mod sounds;

use crate::config::Config;
use crate::message::{pending, unbounded};
use crossbeam::channel::{Receiver, Sender};
use dasp_test::DaspTestData;
use general::General;
use parameters::{Knobs, Parameters};
use sounds::Sounds;
use vstd::prelude::*;

verus! {

/// A command to the audio callback: the only way in which the rest of the
/// program changes what is heard.
#[derive(Debug)]
pub enum AudioMessage<R, T> {
    /// Start the stream `sound` in the sound bank as `id`.
    SoundOn { id: u64, sound: T },
    /// Stop the sound `id`.
    SoundOff { id: u64 },
    /// Write `value` to the signal `key`.
    SignalUpdate { key: String, value: R },
}

/// The sound bank and the signals after one command.
pub open spec fn step<R, T>(state: (Map<u64, T>, Knobs<R>), message: AudioMessage<R, T>) -> (
    Map<u64, T>,
    Knobs<R>,
) {
    match message {
        AudioMessage::SoundOn { id, sound } => (state.0.insert(id, sound), state.1),
        AudioMessage::SoundOff { id } => (state.0.remove(id), state.1),
        AudioMessage::SignalUpdate { key, value } => (state.0, state.1.update(key@, value)),
    }
}

/// The sound bank and the signals after each of `messages` in turn.
pub open spec fn run<R, T>(state: (Map<u64, T>, Knobs<R>), messages: Seq<AudioMessage<R, T>>) -> (
    Map<u64, T>,
    Knobs<R>,
)
    decreases messages.len(),
{
    if messages.len() == 0 {
        state
    } else {
        step(run(state, messages.drop_last()), messages.last())
    }
}

/// All that the audio callback owns: the signals, the three stages that are
/// rendered one after the other, each on top of the last (the sound bank, the
/// synthesis stage, the gain stage), and the channel on which its commands
/// come.
#[verifier::reject_recursive_types(R)]
#[verifier::reject_recursive_types(T)]
pub struct AudioData<R, T, N> {
    pub sounds: Sounds<R, T>,
    pub params: Parameters<R>,
    pub audio_tx: Sender<AudioMessage<R, T>>,
    pub audio_rx: Receiver<AudioMessage<R, T>>,
    pub dasp_test: DaspTestData<R, N>,
    pub general: General<R>,
    /// The amplitude that leaves a signal as it is.
    pub identity: R,
}

impl<R: Copy, T, N> AudioData<R, T, N> {
    /// What holds of the state between calls.
    pub open spec fn wf(self) -> bool {
        self.sounds.wf() && self.dasp_test.wf()
    }

    /// The state at the start: no sound plays, the signal `volume` holds
    /// `identity` and the signal `pitch` holds `equilibrium`, and the
    /// synthesis stage has its fixed layout of a master node and three
    /// oscillators.
    pub fn new(identity: R, equilibrium: R, synth: N, osc_a: N, osc_b: N, osc_c: N) -> (r: Self)
        ensures
            r.wf(),
            r.identity == identity,
            r.sounds@ == Map::<u64, T>::empty(),
            r.sounds.knobs() == Knobs::empty(equilibrium),
            r.params@ == Knobs::empty(equilibrium).update("volume"@, identity).update(
                "pitch"@,
                equilibrium,
            ),
            r.general@ == Knobs::empty(equilibrium),
            r.dasp_test.knobs() == Knobs::empty(equilibrium),
            r.dasp_test.graph().nodes == seq![synth, osc_a, osc_b, osc_c],
            r.dasp_test.graph().edges == dasp_test::fixed_edges(),
            r.dasp_test.graph().master == Some(0usize),
            r.dasp_test.back_edge() == Err::<usize, graph::WouldCycle>(graph::WouldCycle),
    {
        let (audio_tx, audio_rx) = unbounded();
        let mut params = Parameters::new(equilibrium);
        params.update("volume", &identity);
        params.update("pitch", &equilibrium);
        AudioData {
            sounds: Sounds::new(equilibrium),
            params,
            audio_tx,
            audio_rx,
            dasp_test: DaspTestData::new(equilibrium, synth, osc_a, osc_b, osc_c),
            general: General::new(equilibrium),
            identity,
        }
    }
}

/// Carries out the commands in the order in which they came: a sound is
/// started or stopped in the sound bank, a signal is written to the
/// parameter store.
pub fn process_messages<R: Copy, T, N>(
    data: &mut AudioData<R, T, N>,
    messages: Vec<AudioMessage<R, T>>,
)
    requires
        old(data).wf(),
    ensures
        final(data).wf(),
        (final(data).sounds@, final(data).params@) == run(
            (old(data).sounds@, old(data).params@),
            messages@,
        ),
        final(data).sounds.knobs() == old(data).sounds.knobs(),
        final(data).dasp_test == old(data).dasp_test,
        final(data).general == old(data).general,
        final(data).identity == old(data).identity,
        final(data).audio_tx == old(data).audio_tx,
        final(data).audio_rx == old(data).audio_rx,
{
    let ghost all = messages@;
    let ghost start = (data.sounds@, data.params@);
    for m in it: messages
        invariant
            data.wf(),
            it.seq() == all,
            (data.sounds@, data.params@) == run(start, all.take(it.index() as int)),
            data.sounds.knobs() == old(data).sounds.knobs(),
            data.dasp_test == old(data).dasp_test,
            data.general == old(data).general,
            data.identity == old(data).identity,
            data.audio_tx == old(data).audio_tx,
            data.audio_rx == old(data).audio_rx,
    {
        proof {
            let i = it.index() as int;
            assert(all.take(i + 1).drop_last() == all.take(i));
            assert(all.take(i + 1).last() == m);
        }
        match m {
            AudioMessage::SoundOn { id, sound } => {
                data.sounds.on(id, sound);
            },
            AudioMessage::SoundOff { id } => {
                data.sounds.off(id);
            },
            AudioMessage::SignalUpdate { key, value } => {
                data.params.update(key.as_str(), &value);
            },
        }
    }
    assert(all.take(all.len() as int) == all);
}

/// Whether `after` is the state that `before` becomes when one call of the
/// audio callback finds `messages` waiting: the commands are carried out in
/// order, and then each stage is handed its parameters. The sound bank and
/// the synthesis stage play at full amplitude; the synthesis stage glides at
/// the rate of the signal `pitch`; the gain stage scales by the signal
/// `volume`.
pub open spec fn served<R: Copy, T, N>(
    before: AudioData<R, T, N>,
    messages: Seq<AudioMessage<R, T>>,
    after: AudioData<R, T, N>,
) -> bool {
    &&& after.wf()
    &&& (after.sounds@, after.params@) == run((before.sounds@, before.params@), messages)
    &&& after.sounds.knobs() == before.sounds.knobs().update("A"@, before.identity)
    &&& after.dasp_test.knobs() == before.dasp_test.knobs().update("A"@, before.identity).update(
        "R"@,
        after.params@.get("pitch"@),
    )
    &&& after.dasp_test.graph() == before.dasp_test.graph()
    &&& after.dasp_test.synth() == before.dasp_test.synth()
    &&& after.dasp_test.frames() == before.dasp_test.frames()
    &&& after.dasp_test.back_edge() == before.dasp_test.back_edge()
    &&& after.general@ == before.general@.update("A"@, after.params@.get("volume"@))
    &&& after.identity == before.identity
    &&& after.audio_tx == before.audio_tx
    &&& after.audio_rx == before.audio_rx
}

/// The first part of one call of the audio callback, for the commands
/// `messages`: carries them out, then hands each stage its parameters.
pub fn audio_with<R: Copy, T, N>(data: &mut AudioData<R, T, N>, messages: Vec<AudioMessage<R, T>>)
    requires
        old(data).wf(),
    ensures
        served(*old(data), messages@, *final(data)),
{
    process_messages(data, messages);
    data.sounds.param("A", data.identity);
    data.dasp_test.param("A", data.identity);
    data.dasp_test.param("R", data.params.get("pitch"));
    data.general.param("A", data.params.get("volume"));
}

/// The first part of one call of the audio callback: takes the commands that
/// wait in the channel, without waiting for more, carries them out, and
/// hands each stage its parameters. What is left of the call is to render the
/// three stages onto the buffer.
pub fn audio<R: Copy, T, N>(data: &mut AudioData<R, T, N>)
    requires
        old(data).wf(),
    ensures
        exists|messages: Seq<AudioMessage<R, T>>| served(*old(data), messages, *final(data)),
{
    let messages = pending(&data.audio_rx);
    let ghost found = messages@;
    audio_with(data, messages);
    assert(served(*old(data), found, *data));
}

/// What a key of the keyboard asks of the sound bank.
#[derive(Debug)]
pub enum Launch {
    /// Open the file at `path` and start it as `id`.
    Play { id: u64, path: String },
    /// The catalogue has no sound of that name.
    Missing,
    /// Stop the sound `id`.
    Stop { id: u64 },
}

/// What `launch_sound` answers.
pub open spec fn launched<R>(cfg: Config<R>, name: Seq<char>, on: bool) -> Launch {
    if !on {
        Launch::Stop { id: 0 }
    } else if cfg.sounds.group(name).len() > 0 {
        Launch::Play { id: 0, path: cfg.sounds.group(name)[0].path }
    } else {
        Launch::Missing
    }
}

/// Resolves the sound called `name` for the keyboard. To switch it on is to
/// play the first sound that the catalogue holds under that name, as sound 0;
/// to switch it off is to stop sound 0.
pub fn launch_sound<R>(cfg: &Config<R>, name: &str, on: bool) -> (r: Launch)
    ensures
        r == launched(*cfg, name@, on),
{
    if on {
        match cfg.sounds.get(&name.to_owned(), 0) {
            Some(sound) => Launch::Play { id: 0, path: sound.path },
            None => Launch::Missing,
        }
    } else {
        Launch::Stop { id: 0 }
    }
}

} // verus!
