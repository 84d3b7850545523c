//! MIDI input: what a device's messages mean under its mapping rules, and
//! which ports are to be opened for a roster.

use crate::config::{wanted, Config, Device, DeviceType, ParsedDeviceMap};
use crate::message::unbounded;
use crate::table::Table;
use crossbeam::channel::{Receiver, Sender};
use arrayvec::ArrayVec;
use midly::live::LiveEvent;
use midly::MidiMessage;
use std::collections::HashMap;
use std::sync::Arc;
use vstd::prelude::*;

verus! {

/// `arrayvec::ArrayVec`: a vector of at most `CAP` items, kept in place.
/// Nothing of its inside is known here.
#[verifier::external_type_specification]
#[verifier::external_body]
#[verifier::reject_recursive_types(T)]
pub struct ExArrayVec<T, const CAP: usize>(ArrayVec<T, CAP>);

/// The bytes that a payload buffer holds, first to last.
pub uninterp spec fn held(buffer: ArrayVec<u8, 20>) -> Seq<u8>;

/// `ArrayVec::new`: a buffer that holds nothing.
#[verifier::external_body]
fn payload_new() -> (buffer: ArrayVec<u8, 20>)
    ensures
        held(buffer) == Seq::<u8>::empty(),
{
    ArrayVec::new()
}

/// `ArrayVec::try_extend_from_slice`: appends all of `bytes` if they fit in
/// what is left of the twenty places, and else changes nothing. Tells which.
#[verifier::external_body]
fn payload_extend(buffer: &mut ArrayVec<u8, 20>, bytes: &[u8]) -> (fits: bool)
    ensures
        fits == (held(*old(buffer)).len() + bytes@.len() <= 20),
        held(*final(buffer)) == if fits {
            held(*old(buffer)) + bytes@
        } else {
            held(*old(buffer))
        },
{
    buffer.try_extend_from_slice(bytes).is_ok()
}

/// `ArrayVec::as_slice`: the bytes held, as a slice. A buffer never holds
/// more than its twenty places.
#[verifier::external_body]
fn payload_slice(buffer: &ArrayVec<u8, 20>) -> (bytes: &[u8])
    ensures
        bytes@ == held(*buffer),
        bytes@.len() <= 20,
{
    buffer.as_slice()
}

/// A raw MIDI message on its way to the output ports, as mathematics.
pub struct MidiEventView {
    pub ts: u64,
    pub key: Seq<char>,
    pub bytes: Seq<u8>,
}

/// A raw MIDI message on its way to the output ports: when it came, from
/// which device, and its bytes, of which there are at most twenty.
#[derive(Debug)]
pub struct MidiEvent {
    pub(crate) ts: u64,
    pub(crate) key: String,
    pub(crate) b: ArrayVec<u8, 20>,
}

impl MidiEvent {
    pub closed spec fn view(self) -> MidiEventView {
        MidiEventView { ts: self.ts, key: self.key@, bytes: held(self.b) }
    }

    /// The event of a message that came at `ts` from the device `key`.
    pub fn new(ts: u64, key: &String, message: &[u8]) -> (event: Self)
        requires
            message@.len() <= 20,
        ensures
            event@ == (MidiEventView { ts, key: key@, bytes: message@ }),
    {
        let mut out = payload_new();
        payload_extend(&mut out, message);
        assert(held(out) =~= message@);
        MidiEvent { ts, key: key.clone(), b: out }
    }

    /// When the message came.
    pub fn ts(&self) -> (ts: u64)
        ensures
            ts == self@.ts,
    {
        self.ts
    }

    /// The key of the device that the message came from.
    pub fn key(&self) -> (key: &String)
        ensures
            key@ == self@.key,
    {
        &self.key
    }

    /// The bytes of the message.
    pub fn bytes(&self) -> (bytes: &[u8])
        ensures
            bytes@ == self@.bytes,
    {
        payload_slice(&self.b)
    }
}

impl Clone for MidiEvent {
    fn clone(&self) -> (r: Self)
        ensures
            r@ == self@,
    {
        MidiEvent::new(self.ts, &self.key, payload_slice(&self.b))
    }
}

/// A live MIDI message, as far as the mapping rules tell messages apart.
#[derive(Debug, Clone, Copy, PartialEq, Eq, Structural)]
pub enum LiveMessage {
    NoteOff,
    NoteOn { channel: u8, key: u8 },
    ChannelAftertouch { vel: u8 },
    Controller { controller: u8, value: u8 },
    Other,
}

/// What the bytes of one live MIDI message parse to; `None` where they are no
/// message.
pub uninterp spec fn live_message(raw: Seq<u8>) -> Option<LiveMessage>;

/// `LiveEvent::parse`: parses the bytes of one complete live message, and
/// keeps of the outcome the kind and the fields that the rules look at.
#[verifier::external_body]
fn parse_live(raw: &[u8]) -> (r: Option<LiveMessage>)
    ensures
        r == live_message(raw@),
{
    match LiveEvent::parse(raw) {
        Ok(LiveEvent::Midi { channel, message }) => Some(match message {
            MidiMessage::NoteOff { .. } => LiveMessage::NoteOff,
            MidiMessage::NoteOn { key, .. } => {
                LiveMessage::NoteOn { channel: channel.as_int(), key: key.as_int() }
            },
            MidiMessage::ChannelAftertouch { vel } => LiveMessage::ChannelAftertouch { vel: vel.as_int() },
            MidiMessage::Controller { controller: c, value: v } => {
                LiveMessage::Controller { controller: c.as_int(), value: v.as_int() }
            },
            _ => LiveMessage::Other,
        }),
        Ok(_) => Some(LiveMessage::Other),
        Err(_) => None,
    }
}

/// The place in the note index of a note on one channel, or of a note alone.
pub open spec fn sound_key(note: u8, channel: Option<u8>) -> u32 {
    match channel {
        Some(c) => (note * 512 + 256 + c) as u32,
        None => (note * 512) as u32,
    }
}

/// Whether `rule` is a sound rule of `note` that names exactly `channel`:
/// that channel, or none where `channel` is `None`.
pub open spec fn claims<R>(rule: ParsedDeviceMap<R>, note: u8, channel: Option<u8>) -> bool {
    match rule {
        ParsedDeviceMap::SoundMap { key: _, note: n, channel: c } => n == note && c == channel,
        _ => false,
    }
}

/// Whether `rule` is a sound rule of `note`, whatever channel it names.
pub open spec fn names<R>(rule: ParsedDeviceMap<R>, note: u8) -> bool {
    match rule {
        ParsedDeviceMap::SoundMap { key: _, note: n, channel: _ } => n == note,
        _ => false,
    }
}

/// The last of `rules` that is a sound rule of `note` and names exactly
/// `channel`, by its index.
pub open spec fn last_claim<R>(rules: Seq<ParsedDeviceMap<R>>, note: u8, channel: Option<u8>)
    -> Option<int>
    decreases rules.len(),
{
    if rules.len() == 0 {
        None
    } else if claims(rules.last(), note, channel) {
        Some(rules.len() - 1)
    } else {
        last_claim(rules.drop_last(), note, channel)
    }
}

/// The last of `rules` that is a sound rule of `note`, by its index.
pub open spec fn last_named<R>(rules: Seq<ParsedDeviceMap<R>>, note: u8) -> Option<int>
    decreases rules.len(),
{
    if rules.len() == 0 {
        None
    } else if names(rules.last(), note) {
        Some(rules.len() - 1)
    } else {
        last_named(rules.drop_last(), note)
    }
}

/// The rule that a note leads to when it is looked up alone: the last sound
/// rule of the note that names no channel, and only where there is none, the
/// last sound rule of the note that names one.
pub open spec fn fallback<R>(rules: Seq<ParsedDeviceMap<R>>, note: u8) -> Option<int> {
    match last_claim(rules, note, None) {
        Some(i) => Some(i),
        None => last_named(rules, note),
    }
}

/// The rule that a note-on resolves to: the last sound rule of its note that
/// names its channel, and where there is none, the rule that the note leads
/// to when looked up alone.
pub open spec fn resolve<R>(rules: Seq<ParsedDeviceMap<R>>, note: u8, channel: u8) -> Option<
    int,
> {
    match last_claim(rules, note, Some(channel)) {
        Some(i) => Some(i),
        None => fallback(rules, note),
    }
}

/// What `last_claim` finds is a rule of the list that is a sound rule of the
/// note and names the channel, and no later rule is.
pub proof fn lemma_last_claim<R>(rules: Seq<ParsedDeviceMap<R>>, note: u8, channel: Option<u8>)
    ensures
        match last_claim(rules, note, channel) {
            Some(i) => 0 <= i < rules.len() && claims(rules[i], note, channel) && forall|j: int|
                i < j < rules.len() ==> !claims(#[trigger] rules[j], note, channel),
            None => forall|j: int| 0 <= j < rules.len() ==> !claims(#[trigger] rules[j], note, channel),
        },
    decreases rules.len(),
{
    if rules.len() > 0 && !claims(rules.last(), note, channel) {
        lemma_last_claim(rules.drop_last(), note, channel);
        let shorter = rules.drop_last();
        assert forall|j: int| 0 <= j < shorter.len() implies shorter[j] == rules[j] by {}
    }
}

/// What `last_named` finds is a sound rule of the note, and no later rule is
/// one.
pub proof fn lemma_last_named<R>(rules: Seq<ParsedDeviceMap<R>>, note: u8)
    ensures
        match last_named(rules, note) {
            Some(i) => 0 <= i < rules.len() && names(rules[i], note) && forall|j: int|
                i < j < rules.len() ==> !names(#[trigger] rules[j], note),
            None => forall|j: int| 0 <= j < rules.len() ==> !names(#[trigger] rules[j], note),
        },
    decreases rules.len(),
{
    if rules.len() > 0 && !names(rules.last(), note) {
        lemma_last_named(rules.drop_last(), note);
        let shorter = rules.drop_last();
        assert forall|j: int| 0 <= j < shorter.len() implies shorter[j] == rules[j] by {}
    }
}

/// What a note-on resolves to, whatever the order of the rules. It resolves
/// to a sound rule of its note, and to none only where the list holds none.
/// Where a rule names the channel of the message, it resolves to the last
/// such rule. Where none does but a rule of the note names no channel, it
/// resolves to the last rule that names none: a rule for another channel
/// never stands in for it.
pub proof fn lemma_resolve<R>(rules: Seq<ParsedDeviceMap<R>>, note: u8, channel: u8)
    ensures
        match resolve(rules, note, channel) {
            Some(i) => 0 <= i < rules.len() && names(rules[i], note),
            None => forall|j: int| 0 <= j < rules.len() ==> !names(#[trigger] rules[j], note),
        },
        forall|j: int|
            0 <= j < rules.len() && claims(#[trigger] rules[j], note, Some(channel)) ==> {
                &&& resolve(rules, note, channel) is Some
                &&& j <= resolve(rules, note, channel)->0
                &&& claims(rules[resolve(rules, note, channel)->0], note, Some(channel))
            },
        (forall|j: int|
            0 <= j < rules.len() ==> !claims(#[trigger] rules[j], note, Some(channel)))
            ==> forall|j: int|
            0 <= j < rules.len() && claims(#[trigger] rules[j], note, None) ==> {
                &&& resolve(rules, note, channel) is Some
                &&& j <= resolve(rules, note, channel)->0
                &&& claims(rules[resolve(rules, note, channel)->0], note, None)
            },
{
    lemma_last_claim(rules, note, Some(channel));
    lemma_last_claim(rules, note, None);
    lemma_last_named(rules, note);
    assert forall|j: int| 0 <= j < rules.len() && names(#[trigger] rules[j], note) implies exists|
        c: Option<u8>,
    |
        claims(rules[j], note, c) by {
        match rules[j] {
            ParsedDeviceMap::SoundMap { key: _, note: _, channel: c } => {
                assert(claims(rules[j], note, c));
            },
            _ => {},
        }
    }
}

/// The bounds of a signal, where the rule gives both.
pub open spec fn span<R>(min: Option<R>, max: Option<R>) -> Option<(R, R)> {
    if min is Some && max is Some {
        Some((min->0, max->0))
    } else {
        None
    }
}

/// What the translator asks of the rest of the program, as mathematics.
pub enum DispatchView<R> {
    Sound { id: u64, path: Seq<char> },
    Signal { key: Seq<char>, raw: u8, range: Option<(R, R)> },
    Forward(MidiEventView),
}

/// What the translator asks of the rest of the program.
#[derive(Debug)]
pub enum Dispatch<R> {
    /// Open the file at `path` and start it in the sound bank as `id`.
    Sound { id: u64, path: String },
    /// Write to the signal `key` the raw value, brought from 0..=127 into
    /// `range` where there is one.
    Signal { key: String, raw: u8, range: Option<(R, R)> },
    /// Pass the message on to the output ports.
    Forward(MidiEvent),
}

impl<R> Dispatch<R> {
    pub open spec fn view(self) -> DispatchView<R> {
        match self {
            Dispatch::Sound { id, path } => DispatchView::Sound { id, path: path@ },
            Dispatch::Signal { key, raw, range } => DispatchView::Signal { key: key@, raw, range },
            Dispatch::Forward(event) => DispatchView::Forward(event@),
        }
    }
}

/// The views of a list of requests.
pub open spec fn views<R>(list: Seq<Dispatch<R>>) -> Seq<DispatchView<R>> {
    list.map_values(|d: Dispatch<R>| d@)
}

/// The signal that `rule` emits on `event`, if it emits one: an aftertouch
/// rule on channel aftertouch, a controller rule on a change of its own
/// controller.
pub open spec fn signal_of<R>(rule: ParsedDeviceMap<R>, event: LiveMessage) -> Option<
    DispatchView<R>,
> {
    match (event, rule) {
        (
            LiveMessage::ChannelAftertouch { vel },
            ParsedDeviceMap::Aftertouch { signal, min, max },
        ) => Some(DispatchView::Signal { key: signal@, raw: vel, range: span(min, max) }),
        (
            LiveMessage::Controller { controller: c1, value },
            ParsedDeviceMap::Controller { controller: c2, signal, min, max },
        ) => if c1 == c2 {
            Some(DispatchView::Signal { key: signal@, raw: value, range: span(min, max) })
        } else {
            None
        },
        _ => None,
    }
}

/// `signal_of`, with the event fixed.
pub open spec fn signal_on<R>(event: LiveMessage) -> spec_fn(ParsedDeviceMap<R>) -> Option<
    DispatchView<R>,
> {
    |rule: ParsedDeviceMap<R>| signal_of(rule, event)
}

/// The translator of one input device: its mapping rules, an index of its
/// sound rules by note, and the configuration that names the sounds.
pub struct MidiInputData<R> {
    device: Device<R>,
    mappings: Vec<ParsedDeviceMap<R>>,
    sound_mappings: HashMap<u32, usize>,
    cfg: Arc<Config<R>>,
}

impl<R> MidiInputData<R> {
    #[verifier::type_invariant]
    spec fn inv(self) -> bool {
        &&& self.mappings@ == self.device.rules()
        &&& is_index(self.sound_mappings@, self.mappings@)
    }

    /// The device that this translator listens to.
    pub closed spec fn device(self) -> Device<R> {
        self.device
    }

    /// The configuration that this translator resolves sounds in.
    pub closed spec fn config(self) -> Config<R> {
        *self.cfg
    }

    /// The device's mapping rules.
    pub open spec fn rules(self) -> Seq<ParsedDeviceMap<R>> {
        self.device().rules()
    }

    /// What a note-on asks for: the first sound of the rule that it resolves
    /// to, started under the message's timestamp. Nothing where no rule
    /// answers or the catalogue has no sound of the rule's key.
    pub open spec fn triggered(self, ts: u64, note: u8, channel: u8) -> Seq<DispatchView<R>> {
        match resolve(self.rules(), note, channel) {
            Some(i) => match self.rules()[i] {
                ParsedDeviceMap::SoundMap { key, note: _, channel: _ } => {
                    let sounds = self.config().sounds.group(key@);
                    if sounds.len() > 0 {
                        seq![DispatchView::Sound { id: ts, path: sounds[0].path@ }]
                    } else {
                        Seq::empty()
                    }
                },
                _ => Seq::empty(),
            },
            None => Seq::empty(),
        }
    }

    /// The copy of the message that goes to the output ports: every message
    /// of at most four bytes is passed on.
    pub open spec fn forwarded(self, ts: u64, raw: Seq<u8>) -> Seq<DispatchView<R>> {
        if raw.len() <= 4 {
            seq![
                DispatchView::Forward(MidiEventView { ts, key: self.device().key@, bytes: raw }),
            ]
        } else {
            Seq::empty()
        }
    }

    /// Everything that the message `raw`, which parsed to `event` and came at
    /// `ts`, asks for: first what the rules make of it, then its copy for the
    /// output ports.
    pub open spec fn reaction(self, ts: u64, raw: Seq<u8>, event: LiveMessage) -> Seq<
        DispatchView<R>,
    > {
        (match event {
            LiveMessage::NoteOn { channel, key } => self.triggered(ts, key, channel),
            LiveMessage::ChannelAftertouch { .. } | LiveMessage::Controller { .. } => self.rules().filter_map(
                signal_on(event),
            ),
            _ => Seq::empty(),
        }) + self.forwarded(ts, raw)
    }
}

/// The rule that a key of the note index leads to: under a note and a
/// channel the last sound rule that names both, under a note alone the rule
/// that the note falls back to.
spec fn answer<R>(rules: Seq<ParsedDeviceMap<R>>, note: u8, channel: Option<u8>) -> Option<int> {
    match channel {
        Some(c) => last_claim(rules, note, Some(c)),
        None => fallback(rules, note),
    }
}

/// Whether `index` maps every lookup key to the rule of `rules` that it
/// leads to, and holds no key that leads to none.
spec fn is_index<R>(index: Map<u32, usize>, rules: Seq<ParsedDeviceMap<R>>) -> bool {
    forall|note: u8, channel: Option<u8>|
        match answer(rules, note, channel) {
            Some(i) => index.contains_key(#[trigger] sound_key(note, channel)) && index[sound_key(
                note,
                channel,
            )] == i,
            None => !index.contains_key(sound_key(note, channel)),
        }
}

/// Whether `rule` is a sound rule that names no channel.
fn unbound<R>(rule: &ParsedDeviceMap<R>) -> (r: bool)
    ensures
        r == (rule matches ParsedDeviceMap::SoundMap { key: _, note: _, channel: c } && c is None),
{
    match rule {
        ParsedDeviceMap::SoundMap { key: _, note: _, channel } => channel.is_none(),
        _ => false,
    }
}

/// The key of a note on one channel, or of a note alone.
fn key_of(note: u8, channel: Option<u8>) -> (k: u32)
    ensures
        k == sound_key(note, channel),
{
    match channel {
        Some(c) => (note as u32) * 512 + 256 + (c as u32),
        None => (note as u32) * 512,
    }
}

impl<R: Copy> MidiInputData<R> {
    /// Builds the translator of `device`: reads its rules and indexes the
    /// sound rules. A rule is found under its note and channel; under its
    /// note alone is found the last rule that names no channel, and a rule
    /// that names one only where no rule of the note names none.
    ///
    /// Every raw rule of the device must be complete.
    pub fn new(cfg: Arc<Config<R>>, device: Device<R>) -> (r: Self)
        requires
            device.complete(),
        ensures
            r.device() == device,
            r.config() == *cfg,
    {
        broadcast use vstd::std_specs::hash::group_hash_axioms;

        let mappings = device.mappings();
        let mut sound_mappings: HashMap<u32, usize> = HashMap::new();
        let mut i: usize = 0;
        while i < mappings.len()
            invariant
                i <= mappings@.len(),
                is_index(sound_mappings@, mappings@.take(i as int)),
            decreases mappings@.len() - i,
        {
            let ghost before = sound_mappings@;
            let ghost seen = mappings@.take(i as int);
            let ghost next = mappings@.take(i + 1);
            proof {
                assert(next.drop_last() == seen);
                assert(next.last() == mappings@[i as int]);
            }
            match &mappings[i] {
                ParsedDeviceMap::SoundMap { key: _, note, channel } => {
                    let alone = key_of(*note, None);
                    proof {
                        lemma_last_claim(seen, *note, None);
                        lemma_last_named(seen, *note);
                        assert(sound_key(*note, None) == alone);
                        assert(match answer(seen, *note, None) {
                            Some(j) => before.contains_key(alone) && before[alone] == j,
                            None => !before.contains_key(alone),
                        });
                        assert forall|j: int| 0 <= j < seen.len() implies seen[j] == mappings@[j] by {}
                    }
                    match channel {
                        Some(c) => {
                            let taken = match sound_mappings.get(&alone) {
                                Some(j) => unbound(&mappings[*j]),
                                None => false,
                            };
                            assert(taken == (last_claim(seen, *note, None) is Some));
                            sound_mappings.insert(key_of(*note, Some(*c)), i);
                            if !taken {
                                sound_mappings.insert(alone, i);
                            }
                        },
                        None => {
                            sound_mappings.insert(alone, i);
                        },
                    }
                },
                _ => {},
            }
            proof {
                assert forall|n: u8, ch: Option<u8>|
                    match answer(next, n, ch) {
                        Some(j) => sound_mappings@.contains_key(#[trigger] sound_key(n, ch))
                            && sound_mappings@[sound_key(n, ch)] == j,
                        None => !sound_mappings@.contains_key(sound_key(n, ch)),
                    } by {
                    lemma_sound_key(n, ch, 0, None);
                    match mappings@[i as int] {
                        ParsedDeviceMap::SoundMap { key: _, note, channel } => {
                            lemma_sound_key(n, ch, note, channel);
                            lemma_sound_key(n, ch, note, None);
                        },
                        _ => {},
                    }
                    assert(match answer(seen, n, ch) {
                        Some(j) => before.contains_key(sound_key(n, ch)) && before[sound_key(n, ch)]
                            == j,
                        None => !before.contains_key(sound_key(n, ch)),
                    });
                }
            }
            i += 1;
        }
        assert(mappings@.take(i as int) == mappings@);
        MidiInputData { device, mappings, sound_mappings, cfg }
    }

    /// The device that this translator listens to.
    pub fn device_ref(&self) -> (d: &Device<R>)
        ensures
            *d == self.device(),
    {
        &self.device
    }

    /// The device's mapping rules.
    pub fn mappings(&self) -> (r: &Vec<ParsedDeviceMap<R>>)
        ensures
            r@ == self.rules(),
    {
        proof {
            use_type_invariant(self);
        }
        &self.mappings
    }

    /// The rule that a note-on resolves to, by its index among the rules.
    pub fn lookup(&self, note: u8, channel: u8) -> (r: Option<usize>)
        ensures
            match r {
                Some(i) => resolve(self.rules(), note, channel) == Some(i as int),
                None => resolve(self.rules(), note, channel) is None,
            },
    {
        broadcast use vstd::std_specs::hash::group_hash_axioms;

        proof {
            use_type_invariant(self);
            assert(sound_key(note, Some(channel)) == sound_key(note, Some(channel)));
            assert(sound_key(note, None) == sound_key(note, None));
        }
        match self.sound_mappings.get(&key_of(note, Some(channel))) {
            Some(i) => Some(*i),
            None => match self.sound_mappings.get(&key_of(note, None)) {
                Some(i) => Some(*i),
                None => None,
            },
        }
    }
}

impl<R: Copy> MidiInputData<R> {
    /// What the note-on of `note` on `channel` asks for.
    fn trigger(&self, ts: u64, note: u8, channel: u8, out: &mut Vec<Dispatch<R>>)
        requires
            old(out)@.len() == 0,
        ensures
            views(final(out)@) == self.triggered(ts, note, channel),
    {
        proof {
            use_type_invariant(self);
            lemma_resolve(self.rules(), note, channel);
        }
        if let Some(i) = self.lookup(note, channel) {
            if let ParsedDeviceMap::SoundMap { key, note: _, channel: _ } = &self.mappings[i] {
                if let Some(sound) = self.cfg.sounds.get(key, 0) {
                    out.push(Dispatch::Sound { id: ts, path: sound.path });
                    assert(views(out@) =~= self.triggered(ts, note, channel));
                    return ;
                }
            }
        }
        assert(views(out@) =~= self.triggered(ts, note, channel));
    }

    /// The signals that the rules emit on `event`, rule after rule.
    fn signals(&self, event: LiveMessage, out: &mut Vec<Dispatch<R>>)
        requires
            old(out)@.len() == 0,
        ensures
            views(final(out)@) == self.rules().filter_map(signal_on(event)),
    {
        proof {
            use_type_invariant(self);
        }
        let mut i: usize = 0;
        assert(views(out@) =~= self.mappings@.take(0).filter_map(signal_on(event)));
        while i < self.mappings.len()
            invariant
                i <= self.mappings@.len(),
                views(out@) == self.mappings@.take(i as int).filter_map(signal_on(event)),
            decreases self.mappings@.len() - i,
        {
            proof {
                self.mappings@.lemma_filter_map_take_succ(signal_on(event), i as int);
            }
            let ghost before = out@;
            match (event, &self.mappings[i]) {
                (
                    LiveMessage::ChannelAftertouch { vel },
                    ParsedDeviceMap::Aftertouch { signal, min, max },
                ) => {
                    out.push(
                        Dispatch::Signal {
                            key: signal.clone(),
                            raw: vel,
                            range: bounds(*min, *max),
                        },
                    );
                    assert(views(out@) =~= views(before).push(out@.last()@));
                },
                (
                    LiveMessage::Controller { controller: c1, value },
                    ParsedDeviceMap::Controller { controller: c2, signal, min, max },
                ) => {
                    if c1 == *c2 {
                        out.push(
                            Dispatch::Signal {
                                key: signal.clone(),
                                raw: value,
                                range: bounds(*min, *max),
                            },
                        );
                        assert(views(out@) =~= views(before).push(out@.last()@));
                    }
                },
                _ => {},
            }
            i += 1;
        }
        assert(self.mappings@.take(i as int) == self.mappings@);
    }

    /// Everything that one message asks for, given what its bytes parsed to:
    /// a note-on starts the sound of the rule that it resolves to, channel
    /// aftertouch and controller changes emit the signals of their rules, a
    /// note-off and every other message ask for nothing; and a message of at
    /// most four bytes is passed on to the output ports.
    pub fn react(&self, ts: u64, message: &[u8], event: LiveMessage) -> (out: Vec<Dispatch<R>>)
        ensures
            views(out@) == self.reaction(ts, message@, event),
    {
        let mut out: Vec<Dispatch<R>> = Vec::new();
        match event {
            LiveMessage::NoteOn { channel, key } => {
                self.trigger(ts, key, channel, &mut out);
            },
            LiveMessage::ChannelAftertouch { .. } | LiveMessage::Controller { .. } => {
                self.signals(event, &mut out);
            },
            _ => {
                assert(views(out@) =~= Seq::empty());
            },
        }
        let ghost first = out@;
        if message.len() <= 4 {
            out.push(Dispatch::Forward(MidiEvent::new(ts, &self.device.key, message)));
            assert(views(out@) =~= views(first) + self.forwarded(ts, message@));
        } else {
            assert(views(out@) =~= views(first) + self.forwarded(ts, message@));
        }
        out
    }

    /// Everything that the message `message`, which came at `ts`, asks for.
    /// The bytes must be those of one live MIDI message.
    pub fn handle(&self, ts: u64, message: &[u8]) -> (out: Vec<Dispatch<R>>)
        requires
            live_message(message@) is Some,
        ensures
            views(out@) == self.reaction(ts, message@, live_message(message@)->0),
    {
        let event = parse_live(message).unwrap();
        self.react(ts, message, event)
    }

    /// `handle`, for bytes that may be no message: `None` for those.
    pub fn try_handle(&self, ts: u64, message: &[u8]) -> (out: Option<Vec<Dispatch<R>>>)
        ensures
            match out {
                Some(list) => live_message(message@) is Some && views(list@) == self.reaction(
                    ts,
                    message@,
                    live_message(message@)->0,
                ),
                None => live_message(message@) is None,
            },
    {
        match parse_live(message) {
            Some(_) => Some(self.handle(ts, message)),
            None => None,
        }
    }
}

/// The bounds of a signal, where the rule gives both.
fn bounds<R: Copy>(min: Option<R>, max: Option<R>) -> (r: Option<(R, R)>)
    ensures
        r == span(min, max),
{
    match (min, max) {
        (Some(lo), Some(hi)) => Some((lo, hi)),
        _ => None,
    }
}

/// Two lookups share a key only if they are the same lookup.
pub proof fn lemma_sound_key(n1: u8, c1: Option<u8>, n2: u8, c2: Option<u8>)
    ensures
        sound_key(n1, c1) == sound_key(n2, c2) <==> (n1 == n2 && c1 == c2),
{
}

/// What the MIDI dispatch loop is handed: a new configuration, or a message
/// to pass on to the output ports.
#[derive(Debug)]
pub enum AppMidiEvent<R> {
    ConfigUpdate(Arc<Config<R>>),
    Midi(MidiEvent),
}

impl<R> Clone for AppMidiEvent<R> {
    /// The same event: the same configuration, or a message of the same
    /// time, device and bytes.
    fn clone(&self) -> (r: Self)
        ensures
            match *self {
                AppMidiEvent::ConfigUpdate(cfg) => r matches AppMidiEvent::ConfigUpdate(c) && c
                    == cfg,
                AppMidiEvent::Midi(e) => r matches AppMidiEvent::Midi(f) && f@ == e@,
            },
    {
        match self {
            AppMidiEvent::ConfigUpdate(cfg) => AppMidiEvent::ConfigUpdate(cfg.clone()),
            AppMidiEvent::Midi(e) => AppMidiEvent::Midi(e.clone()),
        }
    }
}

/// The two ends of the channel to the MIDI dispatch loop.
#[verifier::reject_recursive_types(R)]
pub struct MidiModel<R> {
    pub midi_rx: Receiver<AppMidiEvent<R>>,
    pub midi_tx: Sender<AppMidiEvent<R>>,
}

impl<R> Default for MidiModel<R> {
    fn default() -> Self {
        let (midi_tx, midi_rx) = unbounded();
        MidiModel { midi_rx, midi_tx }
    }
}

/// A connection to hold open: the device of the roster that it serves, by its
/// index there, and the MIDI port that it is made on, by its index among the
/// ports found on the machine. A connection without one is made on a virtual
/// port that the program creates under the device's name.
#[derive(Debug, Clone, Copy, PartialEq, Eq, Structural)]
pub struct Link {
    pub port: Option<usize>,
    pub device: usize,
}

/// The last device of `roster` that is of `kind`, open in the asked
/// direction, and called `name`.
pub open spec fn last_wanted<R>(
    roster: Seq<Device<R>>,
    output: bool,
    kind: DeviceType,
    name: Seq<char>,
) -> Option<int>
    decreases roster.len(),
{
    if roster.len() == 0 {
        None
    } else if wanted(roster.last(), output, kind) && roster.last().name@ == name {
        Some(roster.len() - 1)
    } else {
        last_wanted(roster.drop_last(), output, kind, name)
    }
}

/// The connections on ports of the machine: port after port, each port whose
/// name is that of a hardware device of the roster, with the last such device.
pub open spec fn port_links<R>(roster: Seq<Device<R>>, ports: Seq<String>, output: bool) -> Seq<
    Link,
>
    decreases ports.len(),
{
    if ports.len() == 0 {
        Seq::empty()
    } else {
        let before = port_links(roster, ports.drop_last(), output);
        match last_wanted(roster, output, DeviceType::Hardware, ports.last()@) {
            Some(d) => before.push(
                Link { port: Some((ports.len() - 1) as usize), device: d as usize },
            ),
            None => before,
        }
    }
}

/// The connections on virtual ports: one for each virtual device of the
/// roster, in roster order.
pub open spec fn virtual_links<R>(roster: Seq<Device<R>>, output: bool) -> Seq<Link>
    decreases roster.len(),
{
    if roster.len() == 0 {
        Seq::empty()
    } else {
        let before = virtual_links(roster.drop_last(), output);
        if wanted(roster.last(), output, DeviceType::Virtual) {
            before.push(Link { port: None, device: (roster.len() - 1) as usize })
        } else {
            before
        }
    }
}

/// All connections of one direction that a roster asks for, given the names
/// of the ports found: those on ports of the machine, then the virtual ones.
pub open spec fn links<R>(roster: Seq<Device<R>>, ports: Seq<String>, output: bool) -> Seq<Link> {
    port_links(roster, ports, output) + virtual_links(roster, output)
}

/// Whether `by_name` leads from every name to the last device of `roster`
/// that is a wanted hardware device of that name.
spec fn names_last<R>(by_name: Map<Seq<char>, usize>, roster: Seq<Device<R>>, output: bool) -> bool {
    forall|name: Seq<char>|
        match #[trigger] last_wanted(roster, output, DeviceType::Hardware, name) {
            Some(d) => by_name.contains_key(name) && by_name[name] == d,
            None => !by_name.contains_key(name),
        }
}

fn plan<R>(cfg: &Config<R>, ports: &Vec<String>, output: bool) -> (r: Vec<Link>)
    ensures
        r@ == links(cfg.devices@, ports@, output),
{
    let ghost roster = cfg.devices@;
    let mut by_name: Table<usize> = Table::new();
    let mut i: usize = 0;
    while i < cfg.devices.len()
        invariant
            i <= cfg.devices@.len(),
            roster == cfg.devices@,
            names_last(by_name@, roster.take(i as int), output),
        decreases cfg.devices@.len() - i,
    {
        let d = &cfg.devices[i];
        let open = if output {
            d.output
        } else {
            d.input
        };
        let ghost before = by_name@;
        proof {
            assert(roster.take(i + 1).drop_last() == roster.take(i as int));
            assert(roster.take(i + 1).last() == *d);
        }
        if open && d.device_type == DeviceType::Hardware {
            by_name.insert(d.name.as_str(), i);
        }
        proof {
            assert forall|name: Seq<char>|
                match #[trigger] last_wanted(roster.take(i + 1), output, DeviceType::Hardware, name) {
                    Some(d) => by_name@.contains_key(name) && by_name@[name] == d,
                    None => !by_name@.contains_key(name),
                } by {
                let earlier = last_wanted(roster.take(i as int), output, DeviceType::Hardware, name);
                assert(match earlier {
                    Some(d) => before.contains_key(name) && before[name] == d,
                    None => !before.contains_key(name),
                });
            }
        }
        i += 1;
    }
    assert(roster.take(i as int) == roster);
    let mut out: Vec<Link> = Vec::new();
    let mut p: usize = 0;
    while p < ports.len()
        invariant
            p <= ports@.len(),
            roster == cfg.devices@,
            names_last(by_name@, roster, output),
            out@ == port_links(roster, ports@.take(p as int), output),
        decreases ports@.len() - p,
    {
        proof {
            assert(ports@.take(p + 1).drop_last() == ports@.take(p as int));
            assert(ports@.take(p + 1).last() == ports@[p as int]);
            let found = last_wanted(roster, output, DeviceType::Hardware, ports@[p as int]@);
        }
        if let Some(d) = by_name.get(ports[p].as_str()) {
            out.push(Link { port: Some(p), device: *d });
        }
        p += 1;
    }
    assert(ports@.take(p as int) == ports@);
    let ghost on_ports = out@;
    let mut i: usize = 0;
    while i < cfg.devices.len()
        invariant
            i <= cfg.devices@.len(),
            roster == cfg.devices@,
            out@ == on_ports + virtual_links(roster.take(i as int), output),
        decreases cfg.devices@.len() - i,
    {
        let d = &cfg.devices[i];
        let open = if output {
            d.output
        } else {
            d.input
        };
        let ghost before = out@;
        proof {
            assert(roster.take(i + 1).drop_last() == roster.take(i as int));
            assert(roster.take(i + 1).last() == *d);
        }
        if open && d.device_type == DeviceType::Virtual {
            out.push(Link { port: None, device: i });
            assert(out@ =~= on_ports + virtual_links(roster.take(i + 1), output));
        }
        i += 1;
    }
    assert(roster.take(i as int) == roster);
    out
}

/// The input connections that a configuration asks for, given the names of
/// the input ports found on the machine.
pub fn scan_inputs<R>(cfg: &Config<R>, ports: &Vec<String>) -> (r: Vec<Link>)
    ensures
        r@ == links(cfg.devices@, ports@, false),
{
    plan(cfg, ports, false)
}

/// The output connections that a configuration asks for, given the names of
/// the output ports found on the machine.
pub fn create_output_connections<R>(cfg: &Config<R>, ports: &Vec<String>) -> (r: Vec<Link>)
    ensures
        r@ == links(cfg.devices@, ports@, true),
{
    plan(cfg, ports, true)
}

/// The connections that are open, as mathematics.
pub struct WiringView {
    pub outputs: Seq<Link>,
    pub inputs: Seq<Link>,
}

impl WiringView {
    /// The connections that are open after a reload: those that the new
    /// roster asks for, and none of those that were open before.
    pub open spec fn reloaded<R>(
        self,
        roster: Seq<Device<R>>,
        out_ports: Seq<String>,
        in_ports: Seq<String>,
    ) -> WiringView {
        WiringView {
            outputs: links(roster, out_ports, true),
            inputs: links(roster, in_ports, false),
        }
    }
}

/// The connections that the MIDI dispatch loop holds open.
pub struct Wiring {
    outputs: Vec<Link>,
    inputs: Vec<Link>,
}

impl Wiring {
    pub closed spec fn view(self) -> WiringView {
        WiringView { outputs: self.outputs@, inputs: self.inputs@ }
    }

    /// The connections to open at the start.
    pub fn new<R>(cfg: &Config<R>, out_ports: &Vec<String>, in_ports: &Vec<String>) -> (r: Self)
        ensures
            r@.outputs == links(cfg.devices@, out_ports@, true),
            r@.inputs == links(cfg.devices@, in_ports@, false),
    {
        Wiring {
            outputs: create_output_connections(cfg, out_ports),
            inputs: scan_inputs(cfg, in_ports),
        }
    }

    /// Takes a new configuration: every connection that was open is handed
    /// back to be closed, and the connections of the new roster take their
    /// place. Nothing of the old wiring is kept.
    pub fn reload<R>(
        &mut self,
        cfg: &Config<R>,
        out_ports: &Vec<String>,
        in_ports: &Vec<String>,
    ) -> (closed: Wiring)
        ensures
            closed@ == old(self)@,
            final(self)@ == old(self)@.reloaded(cfg.devices@, out_ports@, in_ports@),
    {
        let mut next = Wiring::new(cfg, out_ports, in_ports);
        core::mem::swap(self, &mut next);
        next
    }

    /// The output connections that are open.
    pub fn outputs(&self) -> (r: &Vec<Link>)
        ensures
            r@ == self@.outputs,
    {
        &self.outputs
    }

    /// The input connections that are open.
    pub fn inputs(&self) -> (r: &Vec<Link>)
        ensures
            r@ == self@.inputs,
    {
        &self.inputs
    }
}

/// What one event asks of the MIDI dispatch loop.
#[derive(Debug)]
pub enum Routing<'a, R> {
    /// Close every connection that is open, find the ports of the machine
    /// anew and reload the wiring for this configuration.
    Reload(&'a Arc<Config<R>>),
    /// Send `bytes` once on each of `outputs`.
    Send { bytes: &'a [u8], outputs: &'a Vec<Link> },
}

/// One turn of the MIDI dispatch loop: what the event asks for, given the
/// connections that are open. A new configuration asks for a reload. A
/// message asks to be sent, as it is, once on every open output connection.
/// The wiring stays as it is.
pub fn recv_midi_thread<'a, R>(wiring: &'a Wiring, event: &'a AppMidiEvent<R>) -> (r: Routing<
    'a,
    R,
>)
    ensures
        match *event {
            AppMidiEvent::ConfigUpdate(cfg) => r matches Routing::Reload(c) && *c == cfg,
            AppMidiEvent::Midi(e) => r matches Routing::Send { bytes, outputs } && bytes@
                == e@.bytes && outputs@ == wiring@.outputs,
        },
{
    match event {
        AppMidiEvent::ConfigUpdate(cfg) => Routing::Reload(cfg),
        AppMidiEvent::Midi(e) => Routing::Send { bytes: e.bytes(), outputs: wiring.outputs() },
    }
}

/// Reloading twice with the same roster and the same ports leaves as many
/// output connections open as reloading once, and as many input connections.
pub proof fn lemma_reload_twice<R>(
    wiring: WiringView,
    roster: Seq<Device<R>>,
    out_ports: Seq<String>,
    in_ports: Seq<String>,
)
    ensures
        wiring.reloaded(roster, out_ports, in_ports).reloaded(
            roster,
            out_ports,
            in_ports,
        ).outputs.len() == wiring.reloaded(roster, out_ports, in_ports).outputs.len(),
        wiring.reloaded(roster, out_ports, in_ports).reloaded(roster, out_ports, in_ports)
            == wiring.reloaded(roster, out_ports, in_ports),
{
}

} // verus!
