//! The configuration that the rest of the library consumes: the device
//! roster, each device's mapping rules, and the sound bank's catalogue.

use crate::message::Message;
use crate::midi::AppMidiEvent;
use crate::table::Table;
use std::sync::Arc;
use vstd::prelude::*;

verus! {

/// Whether a device is found on the machine or made by this program.
#[derive(Debug, PartialEq, Eq, Clone, Copy, Structural)]
pub enum DeviceType {
    Hardware,
    Virtual,
}

impl Default for DeviceType {
    fn default() -> (r: Self)
        ensures
            r == DeviceType::Hardware,
    {
        DeviceType::Hardware
    }
}

/// The description of a device or a sound that has none.
pub fn empty_string() -> (r: String)
    ensures
        r@ == Seq::<char>::empty(),
{
    String::new()
}

/// The place of a sound in its key's sequence when none is given.
pub fn default_seq() -> (r: u8)
    ensures
        r == 0,
{
    0
}

/// The direction flags of a device that names none.
pub fn default_false() -> (r: bool)
    ensures
        !r,
{
    false
}

/// One sound of the catalogue.
#[derive(Debug)]
pub struct Sound {
    pub key: String,
    pub description: String,
    pub seq: u8,
    pub path: String,
}

impl Clone for Sound {
    fn clone(&self) -> (r: Self)
        ensures
            r == *self,
    {
        Sound {
            key: self.key.clone(),
            description: self.description.clone(),
            seq: self.seq,
            path: self.path.clone(),
        }
    }
}

/// A mapping rule, told apart by kind.
#[derive(Debug)]
pub enum ParsedDeviceMap<R> {
    /// A note, on one channel or on any, triggers a sound of the catalogue.
    SoundMap { key: String, note: u8, channel: Option<u8> },
    /// Channel aftertouch drives a signal.
    Aftertouch { signal: String, min: Option<R>, max: Option<R> },
    /// One controller drives a signal.
    Controller { controller: u8, signal: String, min: Option<R>, max: Option<R> },
    /// Messages are passed on to another device.
    Forward { channel: Option<u8>, forward: String, offset: Option<i8> },
}

impl<R: Copy> Clone for ParsedDeviceMap<R> {
    fn clone(&self) -> (r: Self)
        ensures
            r == *self,
    {
        match self {
            ParsedDeviceMap::SoundMap { key, note, channel } => ParsedDeviceMap::SoundMap {
                key: key.clone(),
                note: *note,
                channel: *channel,
            },
            ParsedDeviceMap::Aftertouch { signal, min, max } => ParsedDeviceMap::Aftertouch {
                signal: signal.clone(),
                min: *min,
                max: *max,
            },
            ParsedDeviceMap::Controller {
                controller,
                signal,
                min,
                max,
            } => ParsedDeviceMap::Controller {
                controller: *controller,
                signal: signal.clone(),
                min: *min,
                max: *max,
            },
            ParsedDeviceMap::Forward { channel, forward, offset } => ParsedDeviceMap::Forward {
                channel: *channel,
                forward: forward.clone(),
                offset: *offset,
            },
        }
    }
}

/// A mapping rule as the configuration writes it, not yet told apart by
/// kind: a flat record of optional fields, of which the kind of the rule
/// decides which count.
#[derive(Debug)]
pub struct DeviceMap<R> {
    pub sound: Option<String>,
    pub note: Option<u8>,
    pub channel: Option<u8>,
    pub controller: Option<u8>,
    pub aftertouch: bool,
    pub signal: Option<String>,
    pub min: Option<R>,
    pub max: Option<R>,
    pub forward: Option<String>,
    pub offset: Option<i8>,
}

impl<R> DeviceMap<R> {
    /// Whether the record holds what its kind needs: a signal for aftertouch
    /// and for a controller, a note for a sound.
    pub open spec fn complete(self) -> bool {
        if self.aftertouch {
            self.signal is Some
        } else if self.forward is Some {
            true
        } else if self.sound is Some {
            self.note is Some
        } else if self.controller is Some {
            self.signal is Some
        } else {
            true
        }
    }

    /// The rule that the record stands for. Aftertouch comes first, then
    /// forwarding, then a sound, then a controller; a record that names none
    /// of these stands for no rule.
    pub open spec fn rule(self) -> Option<ParsedDeviceMap<R>> {
        if self.aftertouch {
            Some(
                ParsedDeviceMap::Aftertouch { signal: self.signal->0, min: self.min, max: self.max },
            )
        } else if self.forward is Some {
            Some(
                ParsedDeviceMap::Forward {
                    channel: self.channel,
                    forward: self.forward->0,
                    offset: self.offset,
                },
            )
        } else if self.sound is Some {
            Some(
                ParsedDeviceMap::SoundMap {
                    key: self.sound->0,
                    note: self.note->0,
                    channel: self.channel,
                },
            )
        } else if self.controller is Some {
            Some(
                ParsedDeviceMap::Controller {
                    controller: self.controller->0,
                    signal: self.signal->0,
                    min: self.min,
                    max: self.max,
                },
            )
        } else {
            None
        }
    }

    /// Whether the record holds what its kind needs.
    pub fn is_complete(&self) -> (r: bool)
        ensures
            r == self.complete(),
    {
        if self.aftertouch {
            self.signal.is_some()
        } else if self.forward.is_some() {
            true
        } else if self.sound.is_some() {
            self.note.is_some()
        } else if self.controller.is_some() {
            self.signal.is_some()
        } else {
            true
        }
    }
}

impl<R: Copy> Clone for DeviceMap<R> {
    fn clone(&self) -> (r: Self)
        ensures
            r == *self,
    {
        DeviceMap {
            sound: copy_of(&self.sound),
            note: self.note,
            channel: self.channel,
            controller: self.controller,
            aftertouch: self.aftertouch,
            signal: copy_of(&self.signal),
            min: self.min,
            max: self.max,
            forward: copy_of(&self.forward),
            offset: self.offset,
        }
    }
}

impl<R: Copy> DeviceMap<R> {
    /// Tells the kind of this rule. The record must be complete.
    pub fn parse(&self) -> (r: Option<ParsedDeviceMap<R>>)
        requires
            self.complete(),
        ensures
            r == self.rule(),
    {
        let raw = self;
        if raw.aftertouch {
            match &raw.signal {
                Some(signal) => Some(
                    ParsedDeviceMap::Aftertouch { signal: signal.clone(), min: raw.min, max: raw.max },
                ),
                None => None,
            }
        } else if let Some(forward) = &raw.forward {
            Some(
                ParsedDeviceMap::Forward {
                    channel: raw.channel,
                    forward: forward.clone(),
                    offset: raw.offset,
                },
            )
        } else if let Some(key) = &raw.sound {
            match raw.note {
                Some(note) => Some(
                    ParsedDeviceMap::SoundMap { key: key.clone(), note, channel: raw.channel },
                ),
                None => None,
            }
        } else if let Some(controller) = raw.controller {
            match &raw.signal {
                Some(signal) => Some(
                    ParsedDeviceMap::Controller {
                        controller,
                        signal: signal.clone(),
                        min: raw.min,
                        max: raw.max,
                    },
                ),
                None => None,
            }
        } else {
            None
        }
    }
}

/// A copy of an optional string.
fn copy_of(text: &Option<String>) -> (r: Option<String>)
    ensures
        r == *text,
{
    match text {
        Some(s) => Some(s.clone()),
        None => None,
    }
}

/// The rules that a list of raw rules stands for, in order.
pub open spec fn parsed<R>(maps: Seq<DeviceMap<R>>) -> Seq<ParsedDeviceMap<R>> {
    maps.filter_map(|m: DeviceMap<R>| m.rule())
}

/// A MIDI device of the roster.
#[derive(Debug)]
pub struct Device<R> {
    pub key: String,
    pub name: String,
    pub description: String,
    pub device_type: DeviceType,
    pub input: bool,
    pub output: bool,
    pub mapping: Option<Vec<DeviceMap<R>>>,
}

impl<R> Device<R> {
    /// The device's mapping rules, in the order of the configuration.
    pub open spec fn rules(self) -> Seq<ParsedDeviceMap<R>> {
        match self.mapping {
            Some(maps) => parsed(maps@),
            None => Seq::empty(),
        }
    }

    /// Whether every raw rule of the device is complete.
    pub open spec fn complete(self) -> bool {
        match self.mapping {
            Some(maps) => forall|i: int| 0 <= i < maps@.len() ==> (#[trigger] maps@[i]).complete(),
            None => true,
        }
    }

    /// Whether every raw rule of the device is complete.
    pub fn is_complete(&self) -> (r: bool)
        ensures
            r == self.complete(),
    {
        if let Some(maps) = &self.mapping {
            let mut i: usize = 0;
            while i < maps.len()
                invariant
                    i <= maps@.len(),
                    self.mapping == Some(*maps),
                    forall|j: int| 0 <= j < i ==> (#[trigger] maps@[j]).complete(),
                decreases maps@.len() - i,
            {
                if !maps[i].is_complete() {
                    assert(!(self.mapping->0)@[i as int].complete());
                    return false;
                }
                i += 1;
            }
        }
        true
    }
}

impl<R> Device<R> {
    /// Whether two devices hold the same values, their raw rules one by one.
    pub open spec fn same(self, other: Self) -> bool {
        &&& self.key == other.key
        &&& self.name == other.name
        &&& self.description == other.description
        &&& self.device_type == other.device_type
        &&& self.input == other.input
        &&& self.output == other.output
        &&& match (self.mapping, other.mapping) {
            (Some(a), Some(b)) => a@ == b@,
            (None, None) => true,
            _ => false,
        }
    }
}

impl<R: Copy> Clone for Device<R> {
    fn clone(&self) -> (r: Self)
        ensures
            r.same(*self),
    {
        let mapping = match &self.mapping {
            Some(maps) => {
                let copy = maps.clone();
                assert(copy@ =~= maps@);
                Some(copy)
            },
            None => None,
        };
        Device {
            key: self.key.clone(),
            name: self.name.clone(),
            description: self.description.clone(),
            device_type: self.device_type,
            input: self.input,
            output: self.output,
            mapping,
        }
    }
}

impl<R: Copy> Device<R> {
    /// The device's mapping rules, in the order of the configuration. Raw
    /// rules that stand for no rule are left out. Every raw rule must be
    /// complete.
    pub fn mappings(&self) -> (r: Vec<ParsedDeviceMap<R>>)
        requires
            self.complete(),
        ensures
            r@ == self.rules(),
    {
        let mut out: Vec<ParsedDeviceMap<R>> = Vec::new();
        if let Some(maps) = &self.mapping {
            let mut i: usize = 0;
            while i < maps.len()
                invariant
                    i <= maps@.len(),
                    out@ == parsed(maps@.take(i as int)),
                    forall|j: int| 0 <= j < maps@.len() ==> (#[trigger] maps@[j]).complete(),
                decreases maps@.len() - i,
            {
                proof {
                    maps@.lemma_filter_map_take_succ(|m: DeviceMap<R>| m.rule(), i as int);
                }
                if let Some(rule) = maps[i].parse() {
                    out.push(rule);
                }
                i += 1;
            }
            assert(maps@.take(i as int) == maps@);
        }
        out
    }
}

/// Filtering one more element of a sequence keeps what was filtered so far and
/// adds that element if it passes.
pub proof fn lemma_filter_take<A>(s: Seq<A>, pred: spec_fn(A) -> bool, i: int)
    requires
        0 <= i < s.len(),
    ensures
        s.take(i + 1).filter(pred) == if pred(s[i]) {
            s.take(i).filter(pred).push(s[i])
        } else {
            s.take(i).filter(pred)
        },
{
    reveal(Seq::filter);
    assert(s.take(i + 1).drop_last() == s.take(i));
    assert(s.take(i + 1).last() == s[i]);
}

/// The test that a sound goes by `key`.
pub open spec fn goes_by(key: Seq<char>) -> spec_fn(Sound) -> bool {
    |s: Sound| s.key@ == key
}

/// The sounds of `list` that go by `key`, in order.
pub open spec fn with_key(list: Seq<Sound>, key: Seq<char>) -> Seq<Sound> {
    list.filter(goes_by(key))
}

/// Taking one more sound of the list adds it to the group of its own key and
/// to no other.
pub proof fn lemma_with_key_take(list: Seq<Sound>, i: int, key: Seq<char>)
    requires
        0 <= i < list.len(),
    ensures
        with_key(list.take(i + 1), key) == if list[i].key@ == key {
            with_key(list.take(i), key).push(list[i])
        } else {
            with_key(list.take(i), key)
        },
{
    lemma_filter_take(list, goes_by(key), i);
}

/// The catalogue of sounds: under each key the sounds that go by it, in the
/// order in which they were loaded.
#[derive(Debug)]
pub struct Sounds {
    h: Table<Vec<Sound>>,
}

impl Default for Sounds {
    fn default() -> (r: Self)
        ensures
            forall|key: Seq<char>| r.group(key) == Seq::<Sound>::empty(),
    {
        Sounds { h: Table::new() }
    }
}

impl Clone for Sounds {
    fn clone(&self) -> (r: Self)
        ensures
            forall|key: Seq<char>| r.group(key) == self.group(key),
    {
        let r = Sounds { h: self.h.clone() };
        proof {
            assert forall|key: Seq<char>| r.group(key) == self.group(key) by {
                if self.h@.contains_key(key) {
                    assert(r.h@.dom().contains(key));
                    let a = self.h@[key];
                    let b = r.h@[key];
                    assert(cloned::<Vec<Sound>>(a, b));
                    assert(a@ =~= b@);
                } else {
                    assert(!r.h@.dom().contains(key));
                }
            }
        }
        r
    }
}

impl Sounds {
    /// The sounds that go by `key`, in load order; none if the key is unknown.
    pub closed spec fn group(self, key: Seq<char>) -> Seq<Sound> {
        if self.h@.contains_key(key) {
            self.h@[key]@
        } else {
            Seq::empty()
        }
    }

    /// Files each sound of the loader under its key.
    pub fn load<R>(cfg: &ConfigLoader<R>) -> (r: Self)
        ensures
            forall|key: Seq<char>| r.group(key) == with_key(cfg.sounds(), key),
    {
        let mut sounds = Sounds { h: Table::new() };
        if let Some(list) = &cfg.sound {
            let mut i: usize = 0;
            while i < list.len()
                invariant
                    i <= list@.len(),
                    forall|key: Seq<char>|
                        sounds.group(key) == with_key(list@.take(i as int), key),
                decreases list@.len() - i,
            {
                let s = &list[i];
                let ghost before = sounds;
                let mut group = match sounds.h.remove(s.key.as_str()) {
                    Some(g) => g,
                    None => Vec::new(),
                };
                group.push(s.clone());
                sounds.h.insert(s.key.as_str(), group);
                proof {
                    assert forall|key: Seq<char>|
                        sounds.group(key) == with_key(list@.take(i + 1), key) by {
                        lemma_with_key_take(list@, i as int, key);
                        assert(before.group(key) == with_key(list@.take(i as int), key));
                    }
                }
                i += 1;
            }
            assert(list@.take(i as int) == list@);
        }
        sounds
    }

    /// The sound at place `seq` among those that go by `key`.
    pub fn get(&self, key: &String, seq: u8) -> (r: Option<Sound>)
        ensures
            r == if seq < self.group(key@).len() {
                Some(self.group(key@)[seq as int])
            } else {
                None
            },
    {
        match self.h.get(key.as_str()) {
            Some(group) => {
                let at: usize = seq as usize;
                if at < group.len() {
                    Some(group[at].clone())
                } else {
                    None
                }
            },
            None => None,
        }
    }
}

/// What the two configuration files hold once they are read: a device roster
/// and a list of sounds, either of which may be missing.
#[derive(Debug)]
pub struct ConfigLoader<R> {
    pub device: Option<Vec<Device<R>>>,
    pub sound: Option<Vec<Sound>>,
}

impl<R> Default for ConfigLoader<R> {
    fn default() -> (r: Self)
        ensures
            r.device is None,
            r.sound is None,
    {
        ConfigLoader { device: None, sound: None }
    }
}

/// Whether two rosters hold the same devices, one by one.
pub open spec fn same_roster<R>(a: Seq<Device<R>>, b: Seq<Device<R>>) -> bool {
    a.len() == b.len() && forall|i: int| 0 <= i < a.len() ==> (#[trigger] a[i]).same(b[i])
}

impl<R: Copy> Clone for ConfigLoader<R> {
    fn clone(&self) -> (r: Self)
        ensures
            r.device is Some == self.device is Some,
            r.sound is Some == self.sound is Some,
            same_roster(r.devices(), self.devices()),
            r.sounds() == self.sounds(),
    {
        let device = match &self.device {
            Some(list) => Some(list.clone()),
            None => None,
        };
        let sound = match &self.sound {
            Some(list) => {
                let copy = list.clone();
                assert(copy@ =~= list@);
                Some(copy)
            },
            None => None,
        };
        ConfigLoader { device, sound }
    }
}

impl<R> ConfigLoader<R> {
    /// The sounds that the loader holds; none where the list is missing.
    pub open spec fn sounds(self) -> Seq<Sound> {
        match self.sound {
            Some(list) => list@,
            None => Seq::empty(),
        }
    }

    /// The devices that the loader holds; none where the roster is missing.
    pub open spec fn devices(self) -> Seq<Device<R>> {
        match self.device {
            Some(list) => list@,
            None => Seq::empty(),
        }
    }
}

/// Whether `device` is of `kind` and open in the asked direction.
pub open spec fn wanted<R>(device: Device<R>, output: bool, kind: DeviceType) -> bool {
    device.device_type == kind && if output {
        device.output
    } else {
        device.input
    }
}

/// The test that a device is of `kind` and open in the asked direction.
pub open spec fn is_wanted<R>(output: bool, kind: DeviceType) -> spec_fn(Device<R>) -> bool {
    |d: Device<R>| wanted(d, output, kind)
}

/// The devices of `roster` that are of `kind` and open in the asked
/// direction, in roster order.
pub open spec fn chosen<R>(roster: Seq<Device<R>>, output: bool, kind: DeviceType) -> Seq<
    Device<R>,
> {
    roster.filter(is_wanted(output, kind))
}

/// The devices that a list of references points at.
pub open spec fn pointees<'a, R>(refs: Seq<&'a Device<R>>) -> Seq<Device<R>> {
    refs.map_values(|d: &Device<R>| *d)
}

/// The rules of every device of `roster`, device after device.
pub open spec fn all_rules<R>(roster: Seq<Device<R>>) -> Seq<ParsedDeviceMap<R>>
    decreases roster.len(),
{
    if roster.len() == 0 {
        Seq::empty()
    } else {
        all_rules(roster.drop_last()) + roster.last().rules()
    }
}

/// The configuration: the device roster and the catalogue of sounds.
#[derive(Debug)]
pub struct Config<R> {
    pub devices: Vec<Device<R>>,
    pub sounds: Sounds,
}

impl<R: Copy> Clone for Config<R> {
    fn clone(&self) -> (r: Self)
        ensures
            same_roster(r.devices@, self.devices@),
            forall|key: Seq<char>| r.sounds.group(key) == self.sounds.group(key),
    {
        Config { devices: self.devices.clone(), sounds: self.sounds.clone() }
    }
}

impl<R> Config<R> {
    /// Whether every raw rule of every device is complete.
    pub open spec fn complete(self) -> bool {
        forall|i: int| 0 <= i < self.devices@.len() ==> (#[trigger] self.devices@[i]).complete()
    }
}

impl<R: Copy> Config<R> {
    /// Whether every raw rule of every device is complete.
    pub fn is_complete(&self) -> (r: bool)
        ensures
            r == self.complete(),
    {
        let mut i: usize = 0;
        while i < self.devices.len()
            invariant
                i <= self.devices@.len(),
                forall|j: int| 0 <= j < i ==> (#[trigger] self.devices@[j]).complete(),
            decreases self.devices@.len() - i,
        {
            if !self.devices[i].is_complete() {
                assert(!self.devices@[i as int].complete());
                return false;
            }
            i += 1;
        }
        true
    }

    /// Puts a configuration together from what the two files held: the roster
    /// of the first and the sounds of the second. A missing roster is empty.
    pub fn load(data: ConfigLoader<R>, sounds: &ConfigLoader<R>) -> (r: Self)
        ensures
            r.devices@ == data.devices(),
            forall|key: Seq<char>| r.sounds.group(key) == with_key(sounds.sounds(), key),
    {
        let sounds = Sounds::load(sounds);
        let devices = match data.device {
            Some(list) => list,
            None => Vec::new(),
        };
        Config { devices, sounds }
    }

    fn select(&self, output: bool, kind: DeviceType) -> (r: Vec<&Device<R>>)
        ensures
            pointees(r@) == chosen(self.devices@, output, kind),
    {
        let mut out: Vec<&Device<R>> = Vec::new();
        let mut i: usize = 0;
        while i < self.devices.len()
            invariant
                i <= self.devices@.len(),
                pointees(out@) == chosen(self.devices@.take(i as int), output, kind),
            decreases self.devices@.len() - i,
        {
            let d = &self.devices[i];
            let open = if output {
                d.output
            } else {
                d.input
            };
            proof {
                lemma_filter_take(self.devices@, is_wanted(output, kind), i as int);
            }
            if open && d.device_type == kind {
                let ghost before = out@;
                out.push(d);
                assert(pointees(out@) == pointees(before).push(*d));
            }
            i += 1;
        }
        assert(self.devices@.take(i as int) == self.devices@);
        out
    }

    /// The hardware devices that are read from.
    pub fn hardware_inputs(&self) -> (r: Vec<&Device<R>>)
        ensures
            pointees(r@) == chosen(self.devices@, false, DeviceType::Hardware),
    {
        self.select(false, DeviceType::Hardware)
    }

    /// The virtual devices that are read from.
    pub fn virtual_inputs(&self) -> (r: Vec<&Device<R>>)
        ensures
            pointees(r@) == chosen(self.devices@, false, DeviceType::Virtual),
    {
        self.select(false, DeviceType::Virtual)
    }

    /// The hardware devices that are written to.
    pub fn hardware_outputs(&self) -> (r: Vec<&Device<R>>)
        ensures
            pointees(r@) == chosen(self.devices@, true, DeviceType::Hardware),
    {
        self.select(true, DeviceType::Hardware)
    }

    /// The virtual devices that are written to.
    pub fn virtual_outputs(&self) -> (r: Vec<&Device<R>>)
        ensures
            pointees(r@) == chosen(self.devices@, true, DeviceType::Virtual),
    {
        self.select(true, DeviceType::Virtual)
    }

    /// The mapping rules of all devices, device after device. Every raw
    /// rule must be complete.
    pub fn mappings(&self) -> (r: Vec<ParsedDeviceMap<R>>)
        requires
            self.complete(),
        ensures
            r@ == all_rules(self.devices@),
    {
        let mut out: Vec<ParsedDeviceMap<R>> = Vec::new();
        let mut i: usize = 0;
        while i < self.devices.len()
            invariant
                i <= self.devices@.len(),
                out@ == all_rules(self.devices@.take(i as int)),
                self.complete(),
            decreases self.devices@.len() - i,
        {
            let mut rules = self.devices[i].mappings();
            proof {
                assert(self.devices@.take(i + 1).drop_last() == self.devices@.take(i as int));
                assert(self.devices@.take(i + 1).last() == self.devices@[i as int]);
            }
            out.append(&mut rules);
            i += 1;
        }
        assert(self.devices@.take(i as int) == self.devices@);
        out
    }
}

/// What the watcher of the configuration files reports of a file. The two
/// notices come at once; the other reports of a file come when the file has
/// been left alone for the time of the debounce.
#[derive(Debug, Clone, Copy, PartialEq, Eq, Structural)]
pub enum Notice {
    /// A write to the file has begun; it may not be whole yet.
    NoticeWrite,
    /// The removal of the file has begun.
    NoticeRemove,
    /// The file was created.
    Create,
    /// The file was written to, and has been left alone since.
    Write,
    /// The attributes of the file were changed.
    Chmod,
    /// The file was removed.
    Remove,
    /// The file was moved.
    Rename,
    /// The watched files have to be looked at anew.
    Rescan,
    /// The watcher met an error.
    Error,
}

impl Notice {
    /// Whether the configuration is loaded anew on this report: only on the
    /// debounced report that a file was written to. The early notice of a
    /// write reloads nothing, as the file may be read half written.
    pub fn reloads(&self) -> (r: bool)
        ensures
            r == (*self == Notice::Write),
    {
        match self {
            Notice::Write => true,
            _ => false,
        }
    }
}

/// Puts a configuration together from what the two files held, and makes of
/// it the two messages that announce it: one for the MIDI dispatch loop and
/// one for the window loop. Both carry the same configuration.
pub fn config_watch_thread<R: Copy>(data: ConfigLoader<R>, sounds: &ConfigLoader<R>) -> (r: (
    AppMidiEvent<R>,
    Message<R>,
))
    ensures
        r.0 matches AppMidiEvent::ConfigUpdate(a) && r.1 matches Message::ConfigUpdate(b) && {
            &&& a == b
            &&& a.devices@ == data.devices()
            &&& forall|key: Seq<char>| a.sounds.group(key) == with_key(sounds.sounds(), key)
        },
{
    let cfg = Arc::new(Config::load(data, sounds));
    (AppMidiEvent::ConfigUpdate(cfg.clone()), Message::ConfigUpdate(cfg))
}

} // verus!
