use live_rig::config::{
    Config, ConfigLoader, Device, DeviceMap, DeviceType, Sound,
};
use live_rig::midi::{
    create_output_connections, recv_midi_thread, scan_inputs, AppMidiEvent, Dispatch, Link,
    LiveMessage, MidiEvent, MidiInputData, Routing, Wiring,
};
use std::sync::Arc;

fn text(s: &str) -> Option<String> {
    Some(s.to_string())
}

fn blank() -> DeviceMap<f32> {
    DeviceMap {
        sound: None,
        note: None,
        channel: None,
        controller: None,
        aftertouch: false,
        signal: None,
        min: None,
        max: None,
        forward: None,
        offset: None,
    }
}

fn sound_rule(key: &str, note: u8, channel: Option<u8>) -> DeviceMap<f32> {
    DeviceMap { sound: text(key), note: Some(note), channel, ..blank() }
}

fn controller_rule(controller: u8, signal: &str, min: Option<f32>, max: Option<f32>) -> DeviceMap<f32> {
    DeviceMap {
        controller: Some(controller),
        signal: text(signal),
        min,
        max,
        ..blank()
    }
}

fn aftertouch_rule(signal: &str, min: Option<f32>, max: Option<f32>) -> DeviceMap<f32> {
    DeviceMap { aftertouch: true, signal: text(signal), min, max, ..blank() }
}

fn device(key: &str, name: &str, kind: DeviceType, input: bool, output: bool) -> Device<f32> {
    Device {
        key: key.to_string(),
        name: name.to_string(),
        description: String::new(),
        device_type: kind,
        input,
        output,
        mapping: None,
    }
}

fn sound(key: &str, path: &str) -> Sound {
    Sound { key: key.to_string(), description: String::new(), seq: 0, path: path.to_string() }
}

fn catalogue(sounds: Vec<Sound>) -> Arc<Config<f32>> {
    let files = ConfigLoader { device: None, sound: Some(sounds) };
    Arc::new(Config::load(ConfigLoader::default(), &files))
}

fn translator(rules: Vec<DeviceMap<f32>>, sounds: Vec<Sound>) -> MidiInputData<f32> {
    let mut d = device("pad", "Pad", DeviceType::Hardware, true, false);
    d.mapping = Some(rules);
    MidiInputData::new(catalogue(sounds), d)
}

fn only_sound(out: &[Dispatch<f32>]) -> (u64, String) {
    let mut found = Vec::new();
    for d in out {
        if let Dispatch::Sound { id, path } = d {
            found.push((*id, path.clone()));
        }
    }
    assert_eq!(found.len(), 1);
    found.remove(0)
}

fn signals(out: &[Dispatch<f32>]) -> Vec<(String, u8, Option<(f32, f32)>)> {
    let mut found = Vec::new();
    for d in out {
        if let Dispatch::Signal { key, raw, range } = d {
            found.push((key.clone(), *raw, *range));
        }
    }
    found
}

fn forwards(out: &[Dispatch<f32>]) -> Vec<(u64, String, Vec<u8>)> {
    let mut found = Vec::new();
    for d in out {
        if let Dispatch::Forward(e) = d {
            found.push((e.ts(), e.key().clone(), e.bytes().to_vec()));
        }
    }
    found
}

#[test]
fn midi_event_holds_its_bytes() {
    let e = MidiEvent::new(17, &"pad".to_string(), &[0x90, 60, 100]);
    assert_eq!(e.ts(), 17);
    assert_eq!(e.key(), "pad");
    assert_eq!(e.bytes(), &[0x90, 60, 100]);
    let empty = MidiEvent::new(0, &String::new(), &[]);
    assert!(empty.bytes().is_empty());
    let full: Vec<u8> = (0..20).collect();
    assert_eq!(MidiEvent::new(1, &"k".to_string(), &full).bytes(), full.as_slice());
    let copy = e.clone();
    assert_eq!((copy.ts(), copy.key().as_str(), copy.bytes()), (17, "pad", &[0x90u8, 60, 100][..]));
}

#[test]
fn note_on_starts_the_sound_of_its_rule() {
    let t = translator(vec![sound_rule("kick", 36, None)], vec![sound("kick", "kick.wav")]);
    let out = t.handle(1234, &[0x90, 36, 100]);
    assert_eq!(only_sound(&out), (1234, "kick.wav".to_string()));
    assert_eq!(forwards(&out), vec![(1234, "pad".to_string(), vec![0x90, 36, 100])]);
    assert_eq!(out.len(), 2);
    assert!(matches!(out[0], Dispatch::Sound { .. }));
}

#[test]
fn channel_rule_wins_over_note_only_rule() {
    let t = translator(
        vec![sound_rule("lead", 60, Some(1)), sound_rule("fallback", 60, None)],
        vec![sound("lead", "lead.wav"), sound("fallback", "fallback.wav")],
    );
    let on_channel_1 = t.handle(5, &[0x91, 60, 90]);
    assert_eq!(only_sound(&on_channel_1), (5, "lead.wav".to_string()));
    let on_channel_2 = t.handle(6, &[0x92, 60, 90]);
    assert_eq!(only_sound(&on_channel_2), (6, "fallback.wav".to_string()));
    assert_eq!(t.lookup(60, 1), Some(0));
    assert_eq!(t.lookup(60, 2), Some(1));
    assert_eq!(t.lookup(61, 1), None);
}

#[test]
fn fallback_listed_first_still_answers_for_other_channels() {
    let t = translator(
        vec![sound_rule("fallback", 60, None), sound_rule("lead", 60, Some(1))],
        vec![sound("lead", "lead.wav"), sound("fallback", "fallback.wav")],
    );
    let on_channel_1 = t.handle(5, &[0x91, 60, 90]);
    assert_eq!(only_sound(&on_channel_1), (5, "lead.wav".to_string()));
    assert_eq!(on_channel_1.len(), 2);
    let on_channel_2 = t.handle(6, &[0x92, 60, 90]);
    assert_eq!(only_sound(&on_channel_2), (6, "fallback.wav".to_string()));
    assert_eq!(on_channel_2.len(), 2);
    assert_eq!(t.lookup(60, 1), Some(1));
    assert_eq!(t.lookup(60, 2), Some(0));
    assert_eq!(t.lookup(60, 0), Some(0));
}

#[test]
fn rule_for_another_channel_never_stands_in_for_the_fallback() {
    let t = translator(
        vec![
            sound_rule("one", 60, Some(1)),
            sound_rule("fallback", 60, None),
            sound_rule("three", 60, Some(3)),
            sound_rule("late", 60, None),
            sound_rule("five", 60, Some(5)),
        ],
        vec![],
    );
    assert_eq!(t.lookup(60, 1), Some(0));
    assert_eq!(t.lookup(60, 3), Some(2));
    assert_eq!(t.lookup(60, 5), Some(4));
    assert_eq!(t.lookup(60, 2), Some(3));
    assert_eq!(t.lookup(60, 0), Some(3));
}

#[test]
fn lone_channel_rule_answers_on_every_channel() {
    let t = translator(vec![sound_rule("lead", 60, Some(1))], vec![sound("lead", "lead.wav")]);
    assert_eq!(t.lookup(60, 1), Some(0));
    assert_eq!(t.lookup(60, 7), Some(0));
    assert_eq!(t.lookup(61, 1), None);
    let two = translator(vec![sound_rule("a", 60, Some(1)), sound_rule("b", 60, Some(2))], vec![]);
    assert_eq!(two.lookup(60, 1), Some(0));
    assert_eq!(two.lookup(60, 2), Some(1));
    assert_eq!(two.lookup(60, 9), Some(1));
}

#[test]
fn last_rule_of_a_key_wins() {
    let t = translator(
        vec![sound_rule("a", 40, Some(3)), sound_rule("b", 40, Some(3)), sound_rule("c", 41, None)],
        vec![sound("a", "a.wav"), sound("b", "b.wav")],
    );
    assert_eq!(t.lookup(40, 3), Some(1));
    assert_eq!(only_sound(&t.handle(9, &[0x93, 40, 1])), (9, "b.wav".to_string()));
}

#[test]
fn note_on_without_rule_or_sound_asks_for_nothing_but_the_echo() {
    let t = translator(vec![sound_rule("kick", 36, None)], vec![]);
    let no_sound = t.handle(1, &[0x90, 36, 100]);
    assert_eq!(no_sound.len(), 1);
    assert_eq!(forwards(&no_sound).len(), 1);
    let no_rule = t.handle(2, &[0x90, 37, 100]);
    assert_eq!(no_rule.len(), 1);
    assert_eq!(forwards(&no_rule), vec![(2, "pad".to_string(), vec![0x90, 37, 100])]);
}

#[test]
fn note_off_is_only_passed_on() {
    let t = translator(vec![sound_rule("kick", 36, None)], vec![sound("kick", "kick.wav")]);
    let out = t.handle(3, &[0x80, 36, 0]);
    assert_eq!(out.len(), 1);
    assert_eq!(forwards(&out), vec![(3, "pad".to_string(), vec![0x80, 36, 0])]);
}

#[test]
fn controller_change_emits_the_signals_of_its_controller() {
    let t = translator(
        vec![
            controller_rule(7, "volume", Some(0.0), Some(1.0)),
            controller_rule(1, "mod", None, None),
            controller_rule(7, "gain", Some(-1.0), None),
            aftertouch_rule("bend", None, None),
        ],
        vec![],
    );
    let top = t.handle(1, &[0xB0, 7, 127]);
    assert_eq!(
        signals(&top),
        vec![("volume".to_string(), 127, Some((0.0, 1.0))), ("gain".to_string(), 127, None)]
    );
    let bottom = t.handle(2, &[0xB0, 7, 0]);
    assert_eq!(
        signals(&bottom),
        vec![("volume".to_string(), 0, Some((0.0, 1.0))), ("gain".to_string(), 0, None)]
    );
    assert_eq!(signals(&t.handle(3, &[0xB5, 1, 64])), vec![("mod".to_string(), 64, None)]);
    assert!(signals(&t.handle(4, &[0xB0, 2, 64])).is_empty());
}

#[test]
fn channel_aftertouch_emits_every_aftertouch_signal() {
    let t = translator(
        vec![
            aftertouch_rule("bend", Some(-2.0), Some(2.0)),
            controller_rule(7, "volume", None, None),
            aftertouch_rule("pressure", None, Some(1.0)),
        ],
        vec![],
    );
    let out = t.handle(8, &[0xD0, 99]);
    assert_eq!(
        signals(&out),
        vec![("bend".to_string(), 99, Some((-2.0, 2.0))), ("pressure".to_string(), 99, None)]
    );
    assert_eq!(forwards(&out), vec![(8, "pad".to_string(), vec![0xD0, 99])]);
    assert_eq!(out.len(), 3);
}

#[test]
fn long_messages_are_not_passed_on() {
    let t = translator(vec![], vec![]);
    let four = t.handle(1, &[0xF0, 1, 2, 3]);
    assert_eq!(forwards(&four), vec![(1, "pad".to_string(), vec![0xF0, 1, 2, 3])]);
    let five = t.handle(2, &[0xF0, 1, 2, 3, 4]);
    assert!(five.is_empty());
    let clock = t.handle(3, &[0xF8]);
    assert_eq!(forwards(&clock), vec![(3, "pad".to_string(), vec![0xF8])]);
}

#[test]
fn bytes_that_are_no_message_give_none() {
    let t = translator(vec![sound_rule("kick", 36, None)], vec![sound("kick", "kick.wav")]);
    assert!(t.try_handle(1, &[]).is_none());
    assert!(t.try_handle(1, &[0x90, 36]).is_none());
    assert!(t.try_handle(1, &[0x90]).is_none());
    assert!(t.try_handle(1, &[0x24, 36, 100]).is_none());
    assert!(t.try_handle(1, &[0xF7]).is_none());
    let out = t.try_handle(7, &[0x90, 36, 100]).unwrap();
    assert_eq!(only_sound(&out), (7, "kick.wav".to_string()));
}

#[test]
fn react_follows_the_event_it_is_given() {
    let t = translator(
        vec![sound_rule("kick", 36, Some(2)), controller_rule(7, "volume", Some(0.0), Some(1.0))],
        vec![sound("kick", "kick.wav")],
    );
    let out = t.react(11, &[1, 2, 3, 4, 5], LiveMessage::NoteOn { channel: 2, key: 36 });
    assert_eq!(out.len(), 1);
    assert_eq!(only_sound(&out), (11, "kick.wav".to_string()));
    let out = t.react(12, &[1], LiveMessage::Controller { controller: 7, value: 5 });
    assert_eq!(signals(&out), vec![("volume".to_string(), 5, Some((0.0, 1.0)))]);
    assert_eq!(forwards(&out), vec![(12, "pad".to_string(), vec![1])]);
    assert!(t.react(13, &[0; 5], LiveMessage::NoteOff).is_empty());
    assert!(t.react(13, &[0; 5], LiveMessage::Other).is_empty());
    assert_eq!(t.react(13, &[0; 4], LiveMessage::Other).len(), 1);
}

#[test]
fn translator_keeps_device_and_rules() {
    let t = translator(vec![sound_rule("kick", 36, None)], vec![]);
    assert_eq!(t.device_ref().key, "pad");
    assert_eq!(t.mappings().len(), 1);
}

fn roster() -> Config<f32> {
    let data = ConfigLoader {
        device: Some(vec![
            device("pad", "Pad", DeviceType::Hardware, true, false),
            device("keys", "Keys", DeviceType::Hardware, true, true),
            device("loop", "Loop", DeviceType::Virtual, true, true),
            device("keys-2", "Keys", DeviceType::Hardware, true, false),
            device("out", "Out", DeviceType::Hardware, false, true),
            device("idle", "Idle", DeviceType::Virtual, false, false),
        ]),
        sound: None,
    };
    Config::load(data, &ConfigLoader::default())
}

fn names(list: &[&str]) -> Vec<String> {
    list.iter().map(|s| s.to_string()).collect()
}

#[test]
fn inputs_are_planned_port_by_port_then_virtual() {
    let cfg = roster();
    let links = scan_inputs(&cfg, &names(&["Keys", "Unknown", "Pad", "Out", "Keys"]));
    assert_eq!(
        links,
        vec![
            Link { port: Some(0), device: 3 },
            Link { port: Some(2), device: 0 },
            Link { port: Some(4), device: 3 },
            Link { port: None, device: 2 },
        ]
    );
}

#[test]
fn outputs_are_planned_port_by_port_then_virtual() {
    let cfg = roster();
    let links = create_output_connections(&cfg, &names(&["Keys", "Pad", "Out"]));
    assert_eq!(
        links,
        vec![
            Link { port: Some(0), device: 1 },
            Link { port: Some(2), device: 4 },
            Link { port: None, device: 2 },
        ]
    );
    assert_eq!(create_output_connections(&cfg, &names(&[])), vec![Link { port: None, device: 2 }]);
}

#[test]
fn reload_twice_leaves_the_same_connections_open() {
    let cfg = roster();
    let out_ports = names(&["Keys", "Out"]);
    let in_ports = names(&["Pad"]);
    let empty: Config<f32> = Config::load(ConfigLoader::default(), &ConfigLoader::default());
    let mut wiring = Wiring::new(&empty, &out_ports, &in_ports);
    assert!(wiring.outputs().is_empty());
    assert!(wiring.inputs().is_empty());
    let closed = wiring.reload(&cfg, &out_ports, &in_ports);
    assert!(closed.outputs().is_empty());
    let once_out = wiring.outputs().clone();
    let once_in = wiring.inputs().clone();
    assert_eq!(once_out.len(), 3);
    assert_eq!(once_in.len(), 2);
    let closed = wiring.reload(&cfg, &out_ports, &in_ports);
    assert_eq!(closed.outputs(), &once_out);
    assert_eq!(closed.inputs(), &once_in);
    assert_eq!(wiring.outputs(), &once_out);
    assert_eq!(wiring.inputs(), &once_in);
}

#[test]
fn message_is_sent_once_on_every_open_output() {
    let cfg = roster();
    let wiring = Wiring::new(&cfg, &names(&["Keys", "Out"]), &names(&["Pad"]));
    let event: AppMidiEvent<f32> =
        AppMidiEvent::Midi(MidiEvent::new(4, &"pad".to_string(), &[0x90, 60, 100]));
    match recv_midi_thread(&wiring, &event) {
        Routing::Send { bytes, outputs } => {
            assert_eq!(bytes, &[0x90, 60, 100]);
            assert_eq!(
                outputs,
                &vec![
                    Link { port: Some(0), device: 1 },
                    Link { port: Some(1), device: 4 },
                    Link { port: None, device: 2 },
                ]
            );
        }
        other => panic!("{:?}", other),
    }
    assert_eq!(wiring.outputs().len(), 3);
    assert_eq!(wiring.inputs().len(), 2);
}

#[test]
fn new_configuration_asks_for_a_reload() {
    let cfg = Arc::new(roster());
    let wiring = Wiring::new(&cfg, &names(&["Keys"]), &names(&[]));
    let event = AppMidiEvent::ConfigUpdate(cfg.clone());
    match recv_midi_thread(&wiring, &event) {
        Routing::Reload(c) => assert!(Arc::ptr_eq(c, &cfg)),
        other => panic!("{:?}", other),
    }
    assert_eq!(wiring.outputs().len(), 2);
}
